//! The line-oriented three-way merge that the entity merge builds on.

use vstd::prelude::*;

verus! {

/// What the line-level three-way merge returns for the three texts: the
/// merged text when the changes of both sides combine, else the text with
/// the conflicting areas set between conflict markers.
pub uninterp spec fn line_merge(base: Seq<char>, ours: Seq<char>, theirs: Seq<char>) -> Result<
    Seq<char>,
    Seq<char>,
>;

/// The view of a merge result.
pub open spec fn result_view(r: Result<String, String>) -> Result<Seq<char>, Seq<char>> {
    match r {
        Ok(s) => Ok(s@),
        Err(s) => Err(s@),
    }
}

/// `diffy::merge` is a function of the three texts alone: it diffs each
/// side against the ancestor, combines the two diffs, and writes either the
/// merged text or the text with conflict markers. Nothing is claimed here
/// of which texts merge, nor of the shape of the output.
pub assume_specification<'a>[ diffy::merge ](ancestor: &'a str, ours: &'a str, theirs: &'a str) -> (r:
    Result<String, String>)
    ensures
        result_view(r) == line_merge(ancestor@, ours@, theirs@),
;

/// Merges `ours` and `theirs`, both derived from `base`, line by line.
pub fn merge3(base: &str, ours: &str, theirs: &str) -> (r: Result<String, String>)
    ensures
        result_view(r) == line_merge(base@, ours@, theirs@),
{
    diffy::merge(base, ours, theirs)
}

} // verus!

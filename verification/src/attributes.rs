//! The attribute lines that tell git which files the merge driver handles.

use vstd::prelude::*;
use crate::conflict::newline_terminated;
use crate::text::{append_chars, append_str, chars_of, contains_chars, has_sub, string_of, view_all};

verus! {

/// The attribute line that assigns the merge driver to the files that
/// match `pattern`.
pub open spec fn attribute_line(pattern: Seq<char>) -> Seq<char> {
    pattern + " merge=weave"@
}

/// An attributes file and the number of lines that were added to it.
pub struct Attributes {
    pub text: Seq<char>,
    pub added: nat,
}

/// The attributes with the line for `pattern`: unchanged where the text
/// holds the line already; else the line is added at the end, on a line of
/// its own.
pub open spec fn with_attribute(a: Attributes, pattern: Seq<char>) -> Attributes {
    let line = attribute_line(pattern);
    if has_sub(a.text, line) {
        a
    } else {
        Attributes { text: newline_terminated(a.text) + line + seq!['\n'], added: a.added + 1 }
    }
}

/// The attributes with the lines for the first `n` patterns, in order.
pub open spec fn with_attributes(existing: Seq<char>, patterns: Seq<Seq<char>>, n: nat) -> Attributes
    decreases n,
{
    if n == 0 {
        Attributes { text: existing, added: 0 }
    } else {
        with_attribute(with_attributes(existing, patterns, (n - 1) as nat), patterns[n - 1])
    }
}

/// Adds to the attributes file `existing` the lines that assign the merge
/// driver to the files matching `patterns`, as far as it does not hold
/// them, and tells how many were added.
pub fn add_merge_attributes(existing: &str, patterns: &Vec<String>) -> (r: (String, usize))
    ensures
        r.0@ == with_attributes(existing@, view_all(patterns@), patterns.len() as nat).text,
        r.1 == with_attributes(existing@, view_all(patterns@), patterns.len() as nat).added,
{
    let ghost ps = view_all(patterns@);
    let mut text = chars_of(existing);
    let mut added: usize = 0;
    let mut i: usize = 0;
    while i < patterns.len()
        invariant
            i <= patterns.len(),
            ps == view_all(patterns@),
            added <= i,
            with_attributes(existing@, ps, i as nat) == (Attributes {
                text: text@,
                added: added as nat,
            }),
        decreases patterns.len() - i,
    {
        assert(ps[i as int] == patterns@[i as int]@);
        let mut line = chars_of(patterns[i].as_str());
        append_str(&mut line, " merge=weave");
        if !contains_chars(&text, &line) {
            let ghost before = text@;
            if text.len() > 0 && text[text.len() - 1] != '\n' {
                text.push('\n');
            }
            append_chars(&mut text, &line);
            text.push('\n');
            assert(text@ == newline_terminated(before) + line@ + seq!['\n']);
            added += 1;
        }
        i += 1;
    }
    (string_of(&text), added)
}

} // verus!

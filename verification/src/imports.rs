//! Import blocks: telling them apart and merging them as sets of lines.

use vstd::prelude::*;
use crate::text::{
    begins_with, blank, chars_of, clone_chars, contains_str, ends_with_char, has_sub, is_blank, join_newline,
    join_with_newline, keep_flagged, lemma_prefix_len_is, lemma_seqs_of_push, line_in, lines,
    prefix_len, seqs_of, split_lines, starts_with, string_of, trim_start, trimmed_start,
};

verus! {

/// Whether a line imports something: after its leading white space it begins
/// with one of the import openers, or with `const ` while the line holds
/// `require(` somewhere.
pub open spec fn import_line(line: Seq<char>) -> bool {
    let t = trim_start(line);
    starts_with(t, "import "@) || starts_with(t, "from "@) || starts_with(t, "use "@)
        || starts_with(t, "require("@) || (starts_with(t, "const "@) && has_sub(
        line,
        "require("@,
    )) || starts_with(t, "package "@) || starts_with(t, "#include "@) || starts_with(
        t,
        "using "@,
    )
}

/// The predicate "is an import line" as a value.
pub open spec fn import_pred() -> spec_fn(Seq<char>) -> bool {
    |l: Seq<char>| import_line(l)
}

/// The predicate "is not an import line" as a value.
pub open spec fn plain_pred() -> spec_fn(Seq<char>) -> bool {
    |l: Seq<char>| !import_line(l)
}

/// The predicate "is not a blank line" as a value.
pub open spec fn nonblank_pred() -> spec_fn(Seq<char>) -> bool {
    |l: Seq<char>| !is_blank(l)
}

/// Whether a text is an import region: it has a line that is not blank, and
/// more than half of such lines are import lines.
pub open spec fn import_region(text: Seq<char>) -> bool {
    let solid = lines(text).filter(nonblank_pred());
    solid.len() > 0 && 2 * solid.filter(import_pred()).len() > solid.len()
}

/// The import lines of a text, in order.
pub open spec fn import_lines(text: Seq<char>) -> Seq<Seq<char>> {
    lines(text).filter(import_pred())
}

/// The predicate "occurs in both `a` and `b`" as a value.
pub open spec fn in_both_pred(a: Seq<Seq<char>>, b: Seq<Seq<char>>) -> spec_fn(Seq<char>) -> bool {
    |l: Seq<char>| a.contains(l) && b.contains(l)
}

/// The predicate "occurs in neither `a` nor `b`" as a value.
pub open spec fn in_neither_pred(a: Seq<Seq<char>>, b: Seq<Seq<char>>) -> spec_fn(
    Seq<char>,
) -> bool {
    |l: Seq<char>| !a.contains(l) && !b.contains(l)
}

/// The merged list of imports, from the import lines of the three versions:
/// the base's imports that neither side removed, in base order; then what
/// ours added, in our order; then what theirs added and ours did not, in
/// their order.
pub open spec fn merged_imports(
    base: Seq<Seq<char>>,
    ours: Seq<Seq<char>>,
    theirs: Seq<Seq<char>>,
) -> Seq<Seq<char>> {
    base.filter(in_both_pred(ours, theirs)) + ours.filter(in_neither_pred(base, base))
        + theirs.filter(in_neither_pred(base, ours))
}

/// Index of the first import line among `ls`, or `ls.len()` without one.
pub open spec fn first_import(ls: Seq<Seq<char>>) -> int {
    prefix_len(ls, plain_pred()) as int
}

/// The lines of the merged region, laid out after ours: our lines before our
/// first import, the merged imports, then our other lines that are not
/// imports. Where ours has no import, the merged imports come first.
pub open spec fn import_layout(ours: Seq<Seq<char>>, merged: Seq<Seq<char>>) -> Seq<Seq<char>> {
    let k = first_import(ours);
    if k < ours.len() {
        ours.take(k) + merged + ours.skip(k + 1).filter(plain_pred())
    } else {
        merged + ours.filter(plain_pred())
    }
}

/// The text of an import region merged as a set of lines. It ends in a line
/// feed when ours or theirs does.
pub open spec fn merged_import_text(base: Seq<char>, ours: Seq<char>, theirs: Seq<char>) -> Seq<
    char,
> {
    let merged = merged_imports(import_lines(base), import_lines(ours), import_lines(theirs));
    let body = join_with_newline(import_layout(lines(ours), merged));
    if (ends_with_char(ours, '\n') || ends_with_char(theirs, '\n')) && !ends_with_char(body, '\n') {
        body.push('\n')
    } else {
        body
    }
}

/// Whether the line held in `line` is an import line.
pub fn import_line_chars(line: &Vec<char>) -> (r: bool)
    ensures
        r == import_line(line@),
{
    let t = trimmed_start(line);
    begins_with(&t, "import ") || begins_with(&t, "from ") || begins_with(&t, "use ")
        || begins_with(&t, "require(") || (begins_with(&t, "const ") && contains_str(
        line,
        "require(",
    )) || begins_with(&t, "package ") || begins_with(&t, "#include ") || begins_with(&t, "using ")
}

/// Whether `line` is an import, use, include or require statement.
pub fn is_import_line(line: &str) -> (r: bool)
    ensures
        r == import_line(line@),
{
    let v = chars_of(line);
    import_line_chars(&v)
}

/// For each line, whether it is an import line.
fn import_flags(ls: &Vec<Vec<char>>) -> (r: Vec<bool>)
    ensures
        r.len() == ls.len(),
        forall|i: int| 0 <= i < ls.len() ==> (#[trigger] r[i]) == import_line(ls[i]@),
{
    let mut out: Vec<bool> = Vec::new();
    let mut i: usize = 0;
    while i < ls.len()
        invariant
            i <= ls.len(),
            out.len() == i,
            forall|k: int| 0 <= k < i ==> (#[trigger] out[k]) == import_line(ls[k]@),
        decreases ls.len() - i,
    {
        out.push(import_line_chars(&ls[i]));
        i += 1;
    }
    out
}

/// For each line, whether it is blank.
fn blank_flags(ls: &Vec<Vec<char>>) -> (r: Vec<bool>)
    ensures
        r.len() == ls.len(),
        forall|i: int| 0 <= i < ls.len() ==> (#[trigger] r[i]) == is_blank(ls[i]@),
{
    let mut out: Vec<bool> = Vec::new();
    let mut i: usize = 0;
    while i < ls.len()
        invariant
            i <= ls.len(),
            out.len() == i,
            forall|k: int| 0 <= k < i ==> (#[trigger] out[k]) == is_blank(ls[k]@),
        decreases ls.len() - i,
    {
        out.push(blank(&ls[i]));
        i += 1;
    }
    out
}

/// For each line, whether it occurs in `a` and in `b` alike: in both where
/// `present` is set, in neither where it is not.
fn membership_flags(
    ls: &Vec<Vec<char>>,
    a: &Vec<Vec<char>>,
    b: &Vec<Vec<char>>,
    present: bool,
) -> (r: Vec<bool>)
    ensures
        r.len() == ls.len(),
        forall|i: int|
            0 <= i < ls.len() ==> (#[trigger] r[i]) == if present {
                seqs_of(a@).contains(ls[i]@) && seqs_of(b@).contains(ls[i]@)
            } else {
                !seqs_of(a@).contains(ls[i]@) && !seqs_of(b@).contains(ls[i]@)
            },
{
    let mut out: Vec<bool> = Vec::new();
    let mut i: usize = 0;
    while i < ls.len()
        invariant
            i <= ls.len(),
            out.len() == i,
            forall|k: int|
                0 <= k < i ==> (#[trigger] out[k]) == if present {
                    seqs_of(a@).contains(ls[k]@) && seqs_of(b@).contains(ls[k]@)
                } else {
                    !seqs_of(a@).contains(ls[k]@) && !seqs_of(b@).contains(ls[k]@)
                },
        decreases ls.len() - i,
    {
        let in_a = line_in(a, &ls[i]);
        let in_b = line_in(b, &ls[i]);
        let f = if present {
            in_a && in_b
        } else {
            !in_a && !in_b
        };
        out.push(f);
        i += 1;
    }
    out
}

/// The import lines among `ls`.
fn imports_of(ls: &Vec<Vec<char>>) -> (r: Vec<Vec<char>>)
    ensures
        seqs_of(r@) == seqs_of(ls@).filter(import_pred()),
{
    let flags = import_flags(ls);
    let r = keep_flagged(ls, &flags, true, 0, Ghost(import_pred()));
    assert(seqs_of(ls@).skip(0) == seqs_of(ls@));
    r
}

/// Whether `content` is predominantly import statements.
pub fn is_import_region(content: &str) -> (r: bool)
    ensures
        r == import_region(content@),
{
    let text = chars_of(content);
    let ls = split_lines(&text);
    let bf = blank_flags(&ls);
    let solid = keep_flagged(&ls, &bf, false, 0, Ghost(nonblank_pred()));
    assert(seqs_of(ls@).skip(0) == seqs_of(ls@));
    let imports = imports_of(&solid);
    proof {
        seqs_of(solid@).lemma_filter_len(import_pred());
    }
    let n = solid.len();
    let k = imports.len();
    n > 0 && k > n - k
}

/// Appends every line of `src` to `dst`.
fn append_lines(dst: &mut Vec<Vec<char>>, src: &Vec<Vec<char>>)
    ensures
        seqs_of(final(dst)@) == seqs_of(old(dst)@) + seqs_of(src@),
{
    let ghost start = seqs_of(dst@);
    let ghost all = seqs_of(src@);
    let n = src.len();
    let mut i: usize = 0;
    while i < n
        invariant
            i <= n,
            n == src.len(),
            all == seqs_of(src@),
            seqs_of(dst@) == start + all.take(i as int),
        decreases n - i,
    {
        let c = clone_chars(&src[i]);
        proof {
            lemma_seqs_of_push(dst@, c);
            assert(all.take(i + 1) == all.take(i as int).push(all[i as int]));
        }
        dst.push(c);
        i += 1;
    }
    assert(all.take(n as int) == all);
}

/// Merges the three versions of an import region as sets of lines.
///
/// An import that either side removed stays removed; an import that either
/// side added is kept once. Our version gives the layout: its lines that are
/// not imports stay where they are relative to the block of imports.
pub fn merge_imports_commutatively(base: &str, ours: &str, theirs: &str) -> (r: String)
    ensures
        r@ == merged_import_text(base@, ours@, theirs@),
{
    let base_text = chars_of(base);
    let ours_text = chars_of(ours);
    let theirs_text = chars_of(theirs);
    let ours_lines = split_lines(&ours_text);
    let base_imports = imports_of(&split_lines(&base_text));
    let ours_imports = imports_of(&ours_lines);
    let theirs_imports = imports_of(&split_lines(&theirs_text));
    let ghost bi = seqs_of(base_imports@);
    let ghost oi = seqs_of(ours_imports@);
    let ghost ti = seqs_of(theirs_imports@);
    let ghost ol = seqs_of(ours_lines@);

    let kept_flags = membership_flags(&base_imports, &ours_imports, &theirs_imports, true);
    let kept = keep_flagged(&base_imports, &kept_flags, true, 0, Ghost(in_both_pred(oi, ti)));
    let ours_flags = membership_flags(&ours_imports, &base_imports, &base_imports, false);
    let ours_added = keep_flagged(
        &ours_imports,
        &ours_flags,
        true,
        0,
        Ghost(in_neither_pred(bi, bi)),
    );
    let theirs_flags = membership_flags(&theirs_imports, &base_imports, &ours_imports, false);
    let theirs_added = keep_flagged(
        &theirs_imports,
        &theirs_flags,
        true,
        0,
        Ghost(in_neither_pred(bi, oi)),
    );
    proof {
        assert(bi.skip(0) == bi);
        assert(oi.skip(0) == oi);
        assert(ti.skip(0) == ti);
    }
    let ghost merged = merged_imports(bi, oi, ti);

    let flags = import_flags(&ours_lines);
    let mut k: usize = 0;
    while k < ours_lines.len() && !flags[k]
        invariant
            k <= ours_lines.len(),
            flags.len() == ours_lines.len(),
            forall|i: int| 0 <= i < k ==> !(#[trigger] flags[i]),
        decreases ours_lines.len() - k,
    {
        k += 1;
    }
    proof {
        let p = plain_pred();
        assert forall|i: int| 0 <= i < k implies p(#[trigger] ol[i]) by {
            assert(!flags[i]);
        }
        if k < ours_lines.len() {
            assert(flags[k as int]);
            assert(!p(ol[k as int]));
        }
        lemma_prefix_len_is(ol, p, k as int);
    }
    let mut layout: Vec<Vec<char>> = Vec::new();
    if k < ours_lines.len() {
        let mut i: usize = 0;
        while i < k
            invariant
                i <= k,
                k < ours_lines.len(),
                ol == seqs_of(ours_lines@),
                seqs_of(layout@) == ol.take(i as int),
            decreases k - i,
        {
            let c = clone_chars(&ours_lines[i]);
            proof {
                lemma_seqs_of_push(layout@, c);
                assert(ol.take(i + 1) == ol.take(i as int).push(ol[i as int]));
            }
            layout.push(c);
            i += 1;
        }
        append_lines(&mut layout, &kept);
        append_lines(&mut layout, &ours_added);
        append_lines(&mut layout, &theirs_added);
        let tail = keep_flagged(&ours_lines, &flags, false, k + 1, Ghost(plain_pred()));
        append_lines(&mut layout, &tail);
        assert(seqs_of(layout@) == import_layout(ol, merged));
    } else {
        append_lines(&mut layout, &kept);
        append_lines(&mut layout, &ours_added);
        append_lines(&mut layout, &theirs_added);
        let tail = keep_flagged(&ours_lines, &flags, false, 0, Ghost(plain_pred()));
        assert(ol.skip(0) == ol);
        append_lines(&mut layout, &tail);
        assert(seqs_of(layout@) == import_layout(ol, merged));
    }
    let mut body = join_newline(&layout);
    let ours_nl = ours_text.len() > 0 && ours_text[ours_text.len() - 1] == '\n';
    let theirs_nl = theirs_text.len() > 0 && theirs_text[theirs_text.len() - 1] == '\n';
    let body_nl = body.len() > 0 && body[body.len() - 1] == '\n';
    if (ours_nl || theirs_nl) && !body_nl {
        body.push('\n');
    }
    string_of(&body)
}

} // verus!

//! Laws of the separator expansion: it adds nothing but line feeds, and
//! collapsing changes nothing but white space.

use vstd::prelude::*;
use crate::separators::{
    brace_line, collapse_lines, collapsed, ends_blank, expanded, scan, scan_step,
    strip_trailing_blank,
};
use crate::text::{
    first_newline, is_space, lemma_prefix_len, lines, not_newline_pred, prefix_len, space_pred,
    strip_cr, suffix_len, trim, trim_end, trim_start,
};

verus! {

/// Expansion adds nothing but line feeds: without its line feeds, the
/// expanded text is the text without its line feeds.
pub proof fn law_expansion_adds_line_feeds(s: Seq<char>)
    ensures
        expanded(s).filter(not_newline_pred()) == s.filter(not_newline_pred()),
    decreases s.len(),
{
    let p = not_newline_pred();
    reveal(Seq::filter);
    if s.len() > 0 {
        let t = s.drop_last();
        let c = s.last();
        law_expansion_adds_line_feeds(t);
        let prev = scan(t);
        let next = scan_step(prev, c);
        assert(scan(s) == next);
        assert(t.push(c) =~= s);
        t.lemma_filter_push(c, p);
        prev.out.lemma_filter_push(c, p);
        prev.out.lemma_filter_push('\n', p);
        prev.out.push('\n').lemma_filter_push(c, p);
        prev.out.push(c).lemma_filter_push('\n', p);
        prev.out.push('\n').push(c).lemma_filter_push('\n', p);
    }
}

/// The predicate "is not white space" as a value.
pub open spec fn solid_pred() -> spec_fn(char) -> bool {
    |c: char| !is_space(c)
}

/// The characters of `s` that are not white space, in order.
pub open spec fn solid(s: Seq<char>) -> Seq<char> {
    s.filter(solid_pred())
}

proof fn lemma_solid_add(a: Seq<char>, b: Seq<char>)
    ensures
        solid(a + b) == solid(a) + solid(b),
{
    Seq::filter_distributes_over_add(a, b, solid_pred());
}

proof fn lemma_solid_of_spaces(s: Seq<char>)
    requires
        forall|i: int| 0 <= i < s.len() ==> is_space(#[trigger] s[i]),
    ensures
        solid(s) == Seq::<char>::empty(),
    decreases s.len(),
{
    reveal(Seq::filter);
    if s.len() > 0 {
        let t = s.drop_last();
        assert forall|i: int| 0 <= i < t.len() implies is_space(#[trigger] t[i]) by {
            assert(t[i] == s[i]);
        }
        lemma_solid_of_spaces(t);
        assert(is_space(s[s.len() - 1]));
    }
}

proof fn lemma_solid_push(s: Seq<char>, c: char)
    ensures
        solid(s.push(c)) == if is_space(c) {
            solid(s)
        } else {
            solid(s).push(c)
        },
{
    s.lemma_filter_push(c, solid_pred());
}

/// Trimming removes nothing but white space.
proof fn lemma_solid_of_trim(s: Seq<char>)
    ensures
        solid(trim(s)) == solid(s),
        solid(trim_start(s)) == solid(s),
{
    let p = space_pred();
    let k = prefix_len(s, p) as int;
    lemma_prefix_len(s, p);
    let head = s.take(k);
    let t = trim_start(s);
    assert(s =~= head + t);
    assert forall|i: int| 0 <= i < head.len() implies is_space(#[trigger] head[i]) by {
        assert(p(s[i]));
    }
    lemma_solid_of_spaces(head);
    lemma_solid_add(head, t);
    assert(solid(head) + solid(t) =~= solid(t));
    lemma_trim_end_solid(t);
}

proof fn lemma_trim_end_solid(t: Seq<char>)
    ensures
        solid(trim_end(t)) == solid(t),
    decreases t.len(),
{
    let p = space_pred();
    if t.len() > 0 && p(t.last()) {
        let u = t.drop_last();
        lemma_trim_end_solid(u);
        assert(suffix_len(t, p) == 1 + suffix_len(u, p));
        assert(trim_end(t) =~= trim_end(u)) by {
            lemma_suffix_bound(u);
        }
        assert(u.push(t.last()) =~= t);
        lemma_solid_push(u, t.last());
    } else {
        assert(suffix_len(t, p) == 0);
        assert(trim_end(t) =~= t);
    }
}

proof fn lemma_suffix_bound(s: Seq<char>)
    ensures
        suffix_len(s, space_pred()) <= s.len(),
    decreases s.len(),
{
    if s.len() > 0 && space_pred()(s.last()) {
        lemma_suffix_bound(s.drop_last());
    }
}

/// The lines concatenated as they are.
pub open spec fn all_chars(ls: Seq<Seq<char>>) -> Seq<char>
    decreases ls.len(),
{
    if ls.len() == 0 {
        Seq::empty()
    } else {
        all_chars(ls.drop_last()) + ls.last()
    }
}

proof fn lemma_all_chars_front(l: Seq<char>, rest: Seq<Seq<char>>)
    ensures
        all_chars(seq![l] + rest) == l + all_chars(rest),
    decreases rest.len(),
{
    let whole = seq![l] + rest;
    if rest.len() == 0 {
        assert(whole =~= seq![l]);
        assert(whole.drop_last() =~= Seq::<Seq<char>>::empty());
        assert(all_chars(whole.drop_last()) =~= Seq::<char>::empty());
        assert(all_chars(whole) =~= l + all_chars(rest));
    } else {
        lemma_all_chars_front(l, rest.drop_last());
        assert(whole.drop_last() =~= seq![l] + rest.drop_last());
        assert(whole.last() == rest.last());
        assert(all_chars(whole) =~= l + all_chars(rest));
    }
}

/// Splitting into lines removes nothing but white space.
proof fn lemma_solid_of_lines(m: Seq<char>)
    ensures
        solid(all_chars(lines(m))) == solid(m),
    decreases m.len(),
{
    reveal(Seq::filter);
    if m.len() == 0 {
        assert(all_chars(lines(m)) =~= m);
    } else {
        let k = first_newline(m);
        lemma_prefix_len(m, not_newline_pred());
        if k == m.len() {
            let one = seq![m];
            assert(one.drop_last() =~= Seq::<Seq<char>>::empty());
            assert(all_chars(one.drop_last()) =~= Seq::<char>::empty());
            assert(all_chars(one) =~= m);
        } else {
            let head = m.take(k);
            let rest = m.skip(k + 1);
            lemma_solid_of_lines(rest);
            lemma_all_chars_front(strip_cr(head), lines(rest));
            lemma_solid_add(strip_cr(head), all_chars(lines(rest)));
            assert(m =~= head + seq!['\n'] + rest);
            lemma_solid_add(head + seq!['\n'], rest);
            lemma_solid_add(head, seq!['\n']);
            assert(is_space('\n'));
            assert(Seq::<char>::empty().push('\n') =~= seq!['\n']);
            lemma_solid_push(Seq::<char>::empty(), '\n');
            assert(solid(seq!['\n']) =~= Seq::<char>::empty());
            assert(solid(strip_cr(head)) == solid(head)) by {
                if head.len() > 0 && head.last() == '\r' {
                    assert(is_space('\r'));
                    assert(head.drop_last().push('\r') =~= head);
                    lemma_solid_push(head.drop_last(), '\r');
                }
            }
            assert(solid(head) + Seq::<char>::empty() + solid(rest) =~= solid(head) + solid(rest));
        }
    }
}

proof fn lemma_solid_of_collapse(ls: Seq<Seq<char>>)
    ensures
        solid(collapse_lines(ls)) == solid(all_chars(ls)),
        collapse_lines(ls).len() > 0 ==> collapse_lines(ls).last() == '\n',
    decreases ls.len(),
{
    reveal(Seq::filter);
    if ls.len() > 0 {
        let init = ls.drop_last();
        let line = ls.last();
        lemma_solid_of_collapse(init);
        let acc = collapse_lines(init);
        lemma_solid_add(all_chars(init), line);
        assert(is_space('\n'));
        assert(is_space(' '));
        if brace_line(line) && acc.len() > 0 {
            let cut = acc.drop_last();
            assert(cut.push('\n') =~= acc);
            lemma_solid_push(cut, '\n');
            lemma_solid_of_trim(line);
            let brace = seq!['{'];
            assert(Seq::<char>::empty().push('{') =~= brace);
            lemma_solid_push(Seq::<char>::empty(), '{');
            assert(solid(Seq::<char>::empty()) =~= Seq::<char>::empty());
            assert(solid(brace) =~= brace);
            let glue = seq![' ', '{', '\n'];
            assert(glue =~= Seq::<char>::empty().push(' ').push('{').push('\n'));
            lemma_solid_push(Seq::<char>::empty(), ' ');
            lemma_solid_push(Seq::<char>::empty().push(' '), '{');
            lemma_solid_push(Seq::<char>::empty().push(' ').push('{'), '\n');
            assert(solid(glue) =~= brace);
            lemma_solid_add(cut, glue);
        } else {
            lemma_solid_add(acc + line, seq!['\n']);
            lemma_solid_add(acc, line);
            assert(Seq::<char>::empty().push('\n') =~= seq!['\n']);
            lemma_solid_push(Seq::<char>::empty(), '\n');
            assert(solid(seq!['\n']) =~= Seq::<char>::empty());
            assert(solid(acc) + solid(line) + Seq::<char>::empty() =~= solid(acc) + solid(line));
        }
    } else {
        assert(collapse_lines(ls) =~= all_chars(ls));
    }
}

proof fn lemma_solid_of_strip(s: Seq<char>)
    ensures
        solid(strip_trailing_blank(s)) == solid(s),
    decreases s.len(),
{
    if ends_blank(s) {
        lemma_solid_of_strip(s.drop_last());
        assert(is_space('\n'));
        assert(s.drop_last().push('\n') =~= s);
        lemma_solid_push(s.drop_last(), '\n');
    }
}

/// Collapsing changes nothing but white space: the characters of the
/// collapsed text that are not white space are those of the text, in
/// order.
pub proof fn law_collapse_keeps_solid(m: Seq<char>)
    ensures
        solid(collapsed(m)) == solid(m),
{
    lemma_solid_of_strip(collapse_lines(lines(m)));
    lemma_solid_of_collapse(lines(m));
    lemma_solid_of_lines(m);
}

} // verus!

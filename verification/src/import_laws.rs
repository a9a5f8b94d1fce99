//! The import-set law at the level of texts: the import lines of a merged
//! import region are the merged imports.

use vstd::prelude::*;
use crate::imports::{
    first_import, import_layout, import_line, import_lines, import_pred, merged_import_text,
    merged_imports, plain_pred,
};
use crate::laws::{
    law_layout_imports, lemma_filter_contains_iff, lemma_filter_meets, lemma_merged_are_imports,
};
use crate::region_laws::lemma_join_lines_add;
use crate::text::{
    ends_with_char, first_newline, join_lines, join_with_newline, lemma_join_lines_push,
    lemma_lines_step, lemma_prefix_len, lines, not_newline_pred, strip_cr,
};

verus! {

/// Whether a line holds no line feed and does not end in a carriage
/// return, so that it survives being joined and split again.
pub open spec fn clean_line(l: Seq<char>) -> bool {
    (forall|j: int| 0 <= j < l.len() ==> #[trigger] l[j] != '\n') && !ends_with_char(l, '\r')
}

/// Whether every line of the list is clean.
pub open spec fn clean_lines(ls: Seq<Seq<char>>) -> bool {
    forall|i: int| 0 <= i < ls.len() ==> clean_line(#[trigger] ls[i])
}

/// Whether no line of `text` ends in a carriage return.
pub open spec fn no_cr_lines(text: Seq<char>) -> bool {
    forall|i: int| 0 <= i < lines(text).len() ==> !ends_with_char(#[trigger] lines(text)[i], '\r')
}

/// No line of a text holds a line feed.
pub proof fn lemma_lines_hold_no_newline(s: Seq<char>)
    ensures
        forall|i: int, j: int|
            0 <= i < lines(s).len() && 0 <= j < lines(s)[i].len() ==> (#[trigger] lines(s)[i][j])
                != '\n',
    decreases s.len(),
{
    if s.len() > 0 {
        let k = first_newline(s);
        let p = not_newline_pred();
        lemma_prefix_len(s, p);
        if k == s.len() {
            assert forall|i: int, j: int|
                0 <= i < lines(s).len() && 0 <= j < lines(s)[i].len() implies (#[trigger] lines(
                s,
            )[i][j]) != '\n' by {
                assert(p(s[j]));
            }
        } else {
            let rest = s.skip(k + 1);
            lemma_lines_hold_no_newline(rest);
            let head = strip_cr(s.take(k));
            assert forall|i: int, j: int|
                0 <= i < lines(s).len() && 0 <= j < lines(s)[i].len() implies (#[trigger] lines(
                s,
            )[i][j]) != '\n' by {
                if i == 0 {
                    assert(lines(s)[0] == head);
                    assert(head[j] == s[j]);
                    assert(p(s[j]));
                } else {
                    assert(lines(s)[i] == lines(rest)[i - 1]);
                    assert(lines(rest)[i - 1][j] != '\n');
                }
            }
        }
    }
}

proof fn lemma_join_lines_front(ls: Seq<Seq<char>>)
    requires
        ls.len() > 0,
    ensures
        join_lines(ls) == ls[0] + seq!['\n'] + join_lines(ls.skip(1)),
{
    let one = seq![ls[0]];
    let none = Seq::<Seq<char>>::empty();
    lemma_join_lines_push(none, ls[0]);
    assert(none.push(ls[0]) =~= one);
    assert(join_lines(none) =~= Seq::<char>::empty());
    assert(join_lines(one) =~= ls[0] + seq!['\n']);
    lemma_join_lines_add(one, ls.skip(1));
    assert(one + ls.skip(1) =~= ls);
}

/// Clean lines, each ended by a line feed, split into themselves.
pub proof fn lemma_lines_of_joined(ls: Seq<Seq<char>>)
    requires
        clean_lines(ls),
    ensures
        lines(join_lines(ls)) == ls,
    decreases ls.len(),
{
    if ls.len() == 0 {
        assert(join_lines(ls) =~= Seq::<char>::empty());
    } else {
        let l = ls[0];
        let rest = ls.skip(1);
        lemma_join_lines_front(ls);
        let text = join_lines(ls);
        let k = l.len() as int;
        assert(clean_line(l));
        assert(text[k] == '\n');
        assert forall|i: int| 0 <= i < k implies #[trigger] text[i] != '\n' by {
            assert(text[i] == l[i]);
        }
        lemma_lines_step(text, k);
        assert(text.take(k) =~= l);
        assert(strip_cr(l) == l);
        assert(text.skip(k + 1) =~= join_lines(rest));
        assert forall|i: int| 0 <= i < rest.len() implies clean_line(#[trigger] rest[i]) by {
            assert(rest[i] == ls[i + 1]);
        }
        lemma_lines_of_joined(rest);
        assert(seq![l] + rest =~= ls);
    }
}

/// A text whose last character is neither a line feed nor a carriage
/// return has the same lines with a line feed at its end.
pub proof fn lemma_lines_with_final_newline(t: Seq<char>)
    requires
        t.len() > 0,
        t.last() != '\n',
        t.last() != '\r',
    ensures
        lines(t.push('\n')) == lines(t),
    decreases t.len(),
{
    let p = not_newline_pred();
    let u = t.push('\n');
    let k = first_newline(t);
    lemma_prefix_len(t, p);
    if k == t.len() {
        assert forall|i: int| 0 <= i < t.len() implies #[trigger] u[i] != '\n' by {
            assert(u[i] == t[i]);
            assert(p(t[i]));
        }
        lemma_lines_step(u, t.len() as int);
        assert(u.take(t.len() as int) =~= t);
        assert(strip_cr(t) == t);
        assert(u.skip(t.len() as int + 1) =~= Seq::<char>::empty());
        assert(lines(u.skip(t.len() as int + 1)) =~= Seq::<Seq<char>>::empty());
        assert(seq![t] + Seq::<Seq<char>>::empty() =~= seq![t]);
    } else {
        assert(t[k] == '\n');
        assert forall|i: int| 0 <= i < k implies #[trigger] u[i] != '\n' by {
            assert(u[i] == t[i]);
            assert(p(t[i]));
        }
        assert(u[k] == '\n');
        lemma_lines_step(u, k);
        let rest = t.skip(k + 1);
        assert(k < t.len() - 1);
        assert(rest.last() == t.last());
        lemma_lines_with_final_newline(rest);
        assert(u.skip(k + 1) =~= rest.push('\n'));
        assert(u.take(k) =~= t.take(k));
    }
}

proof fn lemma_join_with_newline_split(ls: Seq<Seq<char>>)
    requires
        ls.len() > 0,
    ensures
        join_with_newline(ls) == join_lines(ls.drop_last()) + ls.last(),
    decreases ls.len(),
{
    if ls.len() == 1 {
        assert(ls.drop_last() =~= Seq::<Seq<char>>::empty());
        assert(join_lines(ls.drop_last()) + ls.last() =~= ls[0]);
    } else {
        let t = ls.drop_last();
        lemma_join_with_newline_split(t);
        assert(join_with_newline(ls) == join_with_newline(t) + seq!['\n'] + ls.last());
        assert(join_lines(t) == join_lines(t.drop_last()) + t.last() + seq!['\n']);
        assert(join_with_newline(t) + seq!['\n'] + ls.last() =~= join_lines(t) + ls.last());
    }
}

proof fn lemma_empty_line_is_no_import()
    ensures
        !import_line(Seq::<char>::empty()),
{
    reveal_strlit("import ");
    reveal_strlit("from ");
    reveal_strlit("use ");
    reveal_strlit("require(");
    reveal_strlit("const ");
    reveal_strlit("package ");
    reveal_strlit("#include ");
    reveal_strlit("using ");
    let e = Seq::<char>::empty();
    assert(crate::text::prefix_len(e, crate::text::space_pred()) == 0);
    assert(crate::text::trim_start(e) =~= e);
}

/// The import lines of clean lines that were joined with line feeds
/// between them, with or without a line feed at the end, are the import
/// lines among them.
pub proof fn lemma_import_lines_of_joined(ls: Seq<Seq<char>>, with_newline: bool)
    requires
        clean_lines(ls),
        with_newline ==> !ends_with_char(join_with_newline(ls), '\n'),
    ensures
        lines(
            if with_newline {
                join_with_newline(ls).push('\n')
            } else {
                join_with_newline(ls)
            },
        ).filter(import_pred()) == ls.filter(import_pred()),
{
    let ip = import_pred();
    let body = join_with_newline(ls);
    let text = if with_newline {
        body.push('\n')
    } else {
        body
    };
    lemma_empty_line_is_no_import();
    reveal(Seq::filter);
    if ls.len() == 0 {
        assert(body =~= Seq::<char>::empty());
        if with_newline {
            let t = seq!['\n'];
            assert(text =~= t);
            lemma_lines_step(t, 0);
            assert(t.take(0) =~= Seq::<char>::empty());
            assert(t.skip(1) =~= Seq::<char>::empty());
            let one = seq![Seq::<char>::empty()];
            assert(lines(t) =~= one);
            assert(one.drop_last() =~= Seq::<Seq<char>>::empty());
            assert(one.filter(ip) =~= Seq::<Seq<char>>::empty());
        }
    } else {
        let init = ls.drop_last();
        let last = ls.last();
        lemma_join_with_newline_split(ls);
        assert(clean_lines(init)) by {
            assert forall|i: int| 0 <= i < init.len() implies clean_line(#[trigger] init[i]) by {
                assert(init[i] == ls[i]);
            }
        }
        assert(clean_line(last)) by {
            assert(last == ls[ls.len() - 1]);
        }
        if last.len() == 0 {
            assert(body =~= join_lines(init));
            assert(last =~= Seq::<char>::empty());
            assert(!ip(last));
            assert(ls.filter(ip) == init.filter(ip));
            if init.len() == 0 {
                assert(body =~= Seq::<char>::empty());
                if with_newline {
                    let t = seq!['\n'];
                    assert(text =~= t);
                    lemma_lines_step(t, 0);
                    assert(t.take(0) =~= Seq::<char>::empty());
                    assert(t.skip(1) =~= Seq::<char>::empty());
                    let one = seq![Seq::<char>::empty()];
                    assert(lines(t) =~= one);
                    assert(one.drop_last() =~= Seq::<Seq<char>>::empty());
                    assert(one.filter(ip) =~= Seq::<Seq<char>>::empty());
                    assert(init.filter(ip) =~= Seq::<Seq<char>>::empty());
                } else {
                    assert(init.filter(ip) =~= Seq::<Seq<char>>::empty());
                }
            } else {
                assert(body.last() == '\n');
                lemma_lines_of_joined(init);
            }
        } else {
            assert(body.last() == last.last());
            assert(last[last.len() - 1] != '\n');
            lemma_join_lines_push(init, last);
            assert(init.push(last) =~= ls);
            assert(body.push('\n') =~= join_lines(ls));
            lemma_lines_of_joined(ls);
            if !with_newline {
                lemma_lines_with_final_newline(body);
            }
        }
    }
}

proof fn lemma_concat_contains(a: Seq<Seq<char>>, b: Seq<Seq<char>>, x: Seq<char>)
    ensures
        (a + b).contains(x) <==> (a.contains(x) || b.contains(x)),
{
    let s = a + b;
    if s.contains(x) {
        let i = choose|i: int| 0 <= i < s.len() && s[i] == x;
        if i < a.len() {
            assert(a[i] == x);
        } else {
            assert(b[i - a.len()] == x);
        }
    }
    if a.contains(x) {
        let i = choose|i: int| 0 <= i < a.len() && a[i] == x;
        assert(s[i] == x);
    }
    if b.contains(x) {
        let i = choose|i: int| 0 <= i < b.len() && b[i] == x;
        assert(s[a.len() + i] == x);
    }
}

proof fn lemma_layout_members(ours: Seq<Seq<char>>, merged: Seq<Seq<char>>, x: Seq<char>)
    requires
        import_layout(ours, merged).contains(x),
    ensures
        ours.contains(x) || merged.contains(x),
{
    let pp = plain_pred();
    let k = first_import(ours);
    lemma_prefix_len(ours, pp);
    if k < ours.len() {
        let head = ours.take(k);
        let tail = ours.skip(k + 1).filter(pp);
        lemma_concat_contains(head + merged, tail, x);
        lemma_concat_contains(head, merged, x);
        if head.contains(x) {
            let i = choose|i: int| 0 <= i < head.len() && head[i] == x;
            assert(ours[i] == x);
        }
        if tail.contains(x) {
            lemma_filter_contains_iff(ours.skip(k + 1), pp, x);
            let rest = ours.skip(k + 1);
            let i = choose|i: int| 0 <= i < rest.len() && rest[i] == x;
            assert(ours[k + 1 + i] == x);
        }
    } else {
        let tail = ours.filter(pp);
        lemma_concat_contains(merged, tail, x);
        if tail.contains(x) {
            lemma_filter_contains_iff(ours, pp, x);
        }
    }
}

/// Import-set law for texts: where no line of the three versions ends in a
/// carriage return, the import lines of the merged text are the merged
/// imports of the three versions, in their order.
pub proof fn law_import_lines_of_merged_text(base: Seq<char>, ours: Seq<char>, theirs: Seq<char>)
    requires
        no_cr_lines(base),
        no_cr_lines(ours),
        no_cr_lines(theirs),
    ensures
        import_lines(merged_import_text(base, ours, theirs)) == merged_imports(
            import_lines(base),
            import_lines(ours),
            import_lines(theirs),
        ),
{
    let ip = import_pred();
    let bi = import_lines(base);
    let oi = import_lines(ours);
    let ti = import_lines(theirs);
    let merged = merged_imports(bi, oi, ti);
    let ol = lines(ours);
    let layout = import_layout(ol, merged);
    lemma_filter_meets(lines(base), ip);
    lemma_filter_meets(ol, ip);
    lemma_filter_meets(lines(theirs), ip);
    lemma_merged_are_imports(bi, oi, ti);
    law_layout_imports(ol, merged);
    lemma_lines_hold_no_newline(base);
    lemma_lines_hold_no_newline(ours);
    lemma_lines_hold_no_newline(theirs);
    assert forall|i: int| 0 <= i < layout.len() implies clean_line(#[trigger] layout[i]) by {
        let x = layout[i];
        assert(layout.contains(x));
        lemma_layout_members(ol, merged, x);
        if !ol.contains(x) {
            crate::laws::lemma_import_membership(bi, oi, ti, x);
            lemma_filter_contains_iff(lines(base), ip, x);
            lemma_filter_contains_iff(ol, ip, x);
            lemma_filter_contains_iff(lines(theirs), ip, x);
            if lines(base).contains(x) {
                let j = choose|j: int| 0 <= j < lines(base).len() && lines(base)[j] == x;
                assert(clean_line(lines(base)[j]));
            } else {
                let j = choose|j: int| 0 <= j < lines(theirs).len() && lines(theirs)[j] == x;
                assert(clean_line(lines(theirs)[j]));
            }
        } else {
            let j = choose|j: int| 0 <= j < ol.len() && ol[j] == x;
            assert(clean_line(ol[j]));
        }
    }
    let body = join_with_newline(layout);
    let push = (ends_with_char(ours, '\n') || ends_with_char(theirs, '\n')) && !ends_with_char(
        body,
        '\n',
    );
    lemma_import_lines_of_joined(layout, push);
}

} // verus!

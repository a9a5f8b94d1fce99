//! Laws of the merge, stated over the spec functions that the contracts of
//! the executable functions use.

use vstd::prelude::*;
use crate::conflict::{
    closing_marker, conflict_complexity, conflict_label, conflict_markers, newline_terminated,
    opening_marker, separator_marker, text_or_empty, zero_stats, ConflictComplexity, ConflictView,
};
use crate::imports::{
    first_import, import_layout, import_line, import_pred, in_both_pred, in_neither_pred,
    merged_imports, plain_pred,
};
use crate::merge::{
    clean_result, entity_outcome, fallback_outcome, fallback_stats, merge_outcome,
    parser_came_up_empty, resolve_ids, too_large, MergeResultView, Parsed, Texts,
};
use crate::text::{lemma_prefix_len, occurs_at, starts_with};

verus! {

/// Identity under agreement: a text merged with itself over itself comes
/// back unchanged, without conflict, and nothing is counted.
pub proof fn law_identity(x: Seq<char>, parsed: Option<Parsed>)
    ensures
        merge_outcome(x, x, x, parsed) == clean_result(x, zero_stats()),
{
}

/// One-sided change: where theirs is the base, the merged text is ours;
/// where ours is the base, the merged text is theirs.
pub proof fn law_one_sided_change(
    base: Seq<char>,
    ours: Seq<char>,
    theirs: Seq<char>,
    parsed: Option<Parsed>,
)
    ensures
        base == theirs ==> merge_outcome(base, ours, theirs, parsed).content == ours,
        base == ours ==> merge_outcome(base, ours, theirs, parsed).content == theirs,
        merge_outcome(base, ours, theirs, parsed).conflicts.len() == 0 <== (base == ours || base
            == theirs),
{
}

/// Determinism: two merges of the same texts for which the parser found
/// the same entities have the same outcome.
pub proof fn law_deterministic(
    first: MergeResultView,
    second: MergeResultView,
    base: Seq<char>,
    ours: Seq<char>,
    theirs: Seq<char>,
    parsed: Option<Parsed>,
)
    requires
        first == merge_outcome(base, ours, theirs, parsed),
        second == merge_outcome(base, ours, theirs, parsed),
    ensures
        first == second,
        first.content == second.content,
{
}

/// Whether a merge of three texts that all differ resolves entities: no
/// text is too large, a parser knows the file, and it found entities.
pub open spec fn resolves_entities(
    base: Seq<char>,
    ours: Seq<char>,
    theirs: Seq<char>,
    parsed: Option<Parsed>,
) -> bool {
    !too_large(base, ours, theirs) && parsed is Some && !parser_came_up_empty(
        base,
        ours,
        theirs,
        parsed->0,
    )
}

proof fn lemma_resolution_keeps_fallback_flag(ids: Seq<Seq<char>>, n: nat, p: Parsed, tx: Texts)
    ensures
        !resolve_ids(ids, n, p, tx).stats.used_fallback,
    decreases n,
{
    if n > 0 {
        lemma_resolution_keeps_fallback_flag(ids, (n - 1) as nat, p, tx);
    }
}

/// Fallback observability: where the three texts all differ, the fallback
/// flag is set exactly when no entity was resolved.
pub proof fn law_fallback_observable(
    base: Seq<char>,
    ours: Seq<char>,
    theirs: Seq<char>,
    parsed: Option<Parsed>,
)
    requires
        ours != theirs,
        base != ours,
        base != theirs,
    ensures
        merge_outcome(base, ours, theirs, parsed).stats.used_fallback <==> !resolves_entities(
            base,
            ours,
            theirs,
            parsed,
        ),
{
    if resolves_entities(base, ours, theirs, parsed) {
        let p = parsed->0;
        let out = entity_outcome(base, ours, theirs, p);
        assert(!out.stats.used_fallback) by {
            let ids = crate::merge::all_ids(p);
            let tx = crate::merge::texts_of(base, ours, theirs, p);
            lemma_resolution_keeps_fallback_flag(ids, ids.len(), p, tx);
        }
    } else {
        assert(fallback_outcome(base, ours, theirs).stats.used_fallback);
    }
}

/// A line is kept by a filter exactly when it is in the list and meets the
/// predicate.
pub proof fn lemma_filter_contains_iff(
    s: Seq<Seq<char>>,
    p: spec_fn(Seq<char>) -> bool,
    x: Seq<char>,
)
    ensures
        s.filter(p).contains(x) <==> (s.contains(x) && p(x)),
    decreases s.len(),
{
    reveal(Seq::filter);
    if s.len() > 0 {
        let t = s.drop_last();
        lemma_filter_contains_iff(t, p, x);
        if s.filter(p).contains(x) {
            if p(s.last()) {
                let i = choose|i: int| 0 <= i < s.filter(p).len() && s.filter(p)[i] == x;
                if i < t.filter(p).len() {
                    assert(t.filter(p)[i] == x);
                    assert(t.filter(p).contains(x));
                    let j = choose|j: int| 0 <= j < t.len() && t[j] == x;
                    assert(s[j] == x);
                } else {
                    assert(s[s.len() - 1] == x);
                }
            } else {
                let j = choose|j: int| 0 <= j < t.len() && t[j] == x;
                assert(s[j] == x);
            }
        }
        if s.contains(x) && p(x) {
            let j = choose|j: int| 0 <= j < s.len() && s[j] == x;
            if j < t.len() {
                assert(t[j] == x);
                assert(t.contains(x));
                let i = choose|i: int| 0 <= i < t.filter(p).len() && t.filter(p)[i] == x;
                if p(s.last()) {
                    assert(s.filter(p)[i] == x);
                }
            } else {
                assert(s.filter(p)[s.filter(p).len() - 1] == x);
            }
        }
    }
}

/// A list whose lines all meet the predicate passes the filter whole.
pub proof fn lemma_filter_all(s: Seq<Seq<char>>, p: spec_fn(Seq<char>) -> bool)
    requires
        forall|i: int| 0 <= i < s.len() ==> p(#[trigger] s[i]),
    ensures
        s.filter(p) == s,
    decreases s.len(),
{
    reveal(Seq::filter);
    if s.len() > 0 {
        let t = s.drop_last();
        assert forall|i: int| 0 <= i < t.len() implies p(#[trigger] t[i]) by {
            assert(t[i] == s[i]);
        }
        lemma_filter_all(t, p);
        assert(p(s[s.len() - 1]));
        assert(t.push(s.last()) =~= s);
    }
}

/// A list none of whose lines meets the predicate leaves nothing.
pub proof fn lemma_filter_none(s: Seq<Seq<char>>, p: spec_fn(Seq<char>) -> bool)
    requires
        forall|i: int| 0 <= i < s.len() ==> !p(#[trigger] s[i]),
    ensures
        s.filter(p) == Seq::<Seq<char>>::empty(),
    decreases s.len(),
{
    reveal(Seq::filter);
    if s.len() > 0 {
        let t = s.drop_last();
        assert forall|i: int| 0 <= i < t.len() implies !p(#[trigger] t[i]) by {
            assert(t[i] == s[i]);
        }
        lemma_filter_none(t, p);
        assert(!p(s[s.len() - 1]));
    }
}

/// Every line that a filter keeps meets the predicate.
pub proof fn lemma_filter_meets(s: Seq<Seq<char>>, p: spec_fn(Seq<char>) -> bool)
    ensures
        forall|i: int| 0 <= i < s.filter(p).len() ==> p(#[trigger] s.filter(p)[i]),
    decreases s.len(),
{
    reveal(Seq::filter);
    if s.len() > 0 {
        lemma_filter_meets(s.drop_last(), p);
    }
}

/// The merged imports are all import lines, where the three lists are.
pub proof fn lemma_merged_are_imports(
    base: Seq<Seq<char>>,
    ours: Seq<Seq<char>>,
    theirs: Seq<Seq<char>>,
)
    requires
        forall|i: int| 0 <= i < base.len() ==> import_line(#[trigger] base[i]),
        forall|i: int| 0 <= i < ours.len() ==> import_line(#[trigger] ours[i]),
        forall|i: int| 0 <= i < theirs.len() ==> import_line(#[trigger] theirs[i]),
    ensures
        forall|i: int|
            0 <= i < merged_imports(base, ours, theirs).len() ==> import_line(
                #[trigger] merged_imports(base, ours, theirs)[i],
            ),
{
    let m = merged_imports(base, ours, theirs);
    assert forall|i: int| 0 <= i < m.len() implies import_line(#[trigger] m[i]) by {
        let x = m[i];
        assert(m.contains(x));
        lemma_import_membership(base, ours, theirs, x);
        if base.contains(x) {
            let j = choose|j: int| 0 <= j < base.len() && base[j] == x;
            assert(import_line(base[j]));
        } else if ours.contains(x) {
            let j = choose|j: int| 0 <= j < ours.len() && ours[j] == x;
            assert(import_line(ours[j]));
        } else {
            let j = choose|j: int| 0 <= j < theirs.len() && theirs[j] == x;
            assert(import_line(theirs[j]));
        }
    }
}

/// A line is among the merged imports exactly when all three lists have
/// it, or the base lacks it and a side has it.
pub proof fn lemma_import_membership(
    base: Seq<Seq<char>>,
    ours: Seq<Seq<char>>,
    theirs: Seq<Seq<char>>,
    x: Seq<char>,
)
    ensures
        merged_imports(base, ours, theirs).contains(x) <==> ((base.contains(x) && ours.contains(x)
            && theirs.contains(x)) || (!base.contains(x) && (ours.contains(x) || theirs.contains(
            x,
        )))),
{
    let kept = base.filter(in_both_pred(ours, theirs));
    let added_ours = ours.filter(in_neither_pred(base, base));
    let added_theirs = theirs.filter(in_neither_pred(base, ours));
    lemma_filter_contains_iff(base, in_both_pred(ours, theirs), x);
    lemma_filter_contains_iff(ours, in_neither_pred(base, base), x);
    lemma_filter_contains_iff(theirs, in_neither_pred(base, ours), x);
    let m = kept + added_ours + added_theirs;
    if m.contains(x) {
        let i = choose|i: int| 0 <= i < m.len() && m[i] == x;
        if i < kept.len() {
            assert(kept[i] == x);
        } else if i < kept.len() + added_ours.len() {
            assert(added_ours[i - kept.len()] == x);
        } else {
            assert(added_theirs[i - kept.len() - added_ours.len()] == x);
        }
    }
    if kept.contains(x) {
        let i = choose|i: int| 0 <= i < kept.len() && kept[i] == x;
        assert(m[i] == x);
    }
    if added_ours.contains(x) {
        let i = choose|i: int| 0 <= i < added_ours.len() && added_ours[i] == x;
        assert(m[kept.len() + i] == x);
    }
    if added_theirs.contains(x) {
        let i = choose|i: int| 0 <= i < added_theirs.len() && added_theirs[i] == x;
        assert(m[kept.len() + added_ours.len() + i] == x);
    }
}

/// Import-set law: as sets of lines, the merged imports are the base's
/// imports without what ours removed and without what theirs removed,
/// together with what ours added and what theirs added. A removal by
/// either side wins over the other side's keeping the line.
pub proof fn law_import_set(base: Seq<Seq<char>>, ours: Seq<Seq<char>>, theirs: Seq<Seq<char>>)
    ensures
        ({
            let b = base.to_set();
            let o = ours.to_set();
            let t = theirs.to_set();
            let ours_deleted = b - o;
            let theirs_deleted = b - t;
            let ours_added = o - b;
            let theirs_added = t - b;
            merged_imports(base, ours, theirs).to_set() == (b - ours_deleted - theirs_deleted)
                + ours_added + theirs_added
        }),
        forall|x: Seq<char>|
            base.contains(x) && !(ours.contains(x) && theirs.contains(x)) ==> !merged_imports(
                base,
                ours,
                theirs,
            ).contains(x),
{
    let b = base.to_set();
    let o = ours.to_set();
    let t = theirs.to_set();
    let m = merged_imports(base, ours, theirs);
    let rhs = (b - (b - o) - (b - t)) + (o - b) + (t - b);
    assert forall|x: Seq<char>| m.to_set().contains(x) <==> rhs.contains(x) by {
        lemma_import_membership(base, ours, theirs, x);
    }
    assert(m.to_set() =~= rhs);
    assert forall|x: Seq<char>|
        base.contains(x) && !(ours.contains(x) && theirs.contains(x)) implies !m.contains(x) by {
        lemma_import_membership(base, ours, theirs, x);
    }
}

proof fn lemma_filter_no_duplicates(s: Seq<Seq<char>>, p: spec_fn(Seq<char>) -> bool)
    requires
        s.no_duplicates(),
    ensures
        s.filter(p).no_duplicates(),
    decreases s.len(),
{
    reveal(Seq::filter);
    if s.len() > 0 {
        let t = s.drop_last();
        assert(t.no_duplicates()) by {
            assert forall|i: int, j: int| 0 <= i < t.len() && 0 <= j < t.len() && i != j implies t[i]
                != t[j] by {
                assert(t[i] == s[i] && t[j] == s[j]);
            }
        }
        lemma_filter_no_duplicates(t, p);
        if p(s.last()) {
            let f = t.filter(p);
            assert(!f.contains(s.last())) by {
                lemma_filter_contains_iff(t, p, s.last());
                if t.contains(s.last()) {
                    let j = choose|j: int| 0 <= j < t.len() && t[j] == s.last();
                    assert(s[j] == s[s.len() - 1]);
                }
            }
            assert forall|i: int, j: int|
                0 <= i < f.push(s.last()).len() && 0 <= j < f.push(s.last()).len() && i
                    != j implies f.push(s.last())[i] != f.push(s.last())[j] by {
                if i < f.len() && j < f.len() {
                } else if i < f.len() {
                    assert(f.contains(f[i]));
                } else {
                    assert(f.contains(f[j]));
                }
            }
        }
    }
}

/// An import that both sides added is kept once: where no list names an
/// import twice, neither does the merged list.
pub proof fn law_imports_not_duplicated(
    base: Seq<Seq<char>>,
    ours: Seq<Seq<char>>,
    theirs: Seq<Seq<char>>,
)
    requires
        base.no_duplicates(),
        ours.no_duplicates(),
        theirs.no_duplicates(),
    ensures
        merged_imports(base, ours, theirs).no_duplicates(),
{
    let pk = in_both_pred(ours, theirs);
    let po = in_neither_pred(base, base);
    let pt = in_neither_pred(base, ours);
    let kept = base.filter(pk);
    let ao = ours.filter(po);
    let at = theirs.filter(pt);
    lemma_filter_no_duplicates(base, pk);
    lemma_filter_no_duplicates(ours, po);
    lemma_filter_no_duplicates(theirs, pt);
    let m = kept + ao + at;
    assert forall|i: int, j: int| 0 <= i < m.len() && 0 <= j < m.len() && i < j implies m[i]
        != m[j] by {
        let x = m[i];
        let y = m[j];
        lemma_filter_contains_iff(base, pk, x);
        lemma_filter_contains_iff(ours, po, x);
        lemma_filter_contains_iff(theirs, pt, x);
        lemma_filter_contains_iff(base, pk, y);
        lemma_filter_contains_iff(ours, po, y);
        lemma_filter_contains_iff(theirs, pt, y);
        if j < kept.len() {
            assert(kept[i] == x && kept[j] == y);
        } else if j < kept.len() + ao.len() {
            assert(ao[j - kept.len()] == y);
            assert(ao.contains(y));
            if i < kept.len() {
                assert(kept[i] == x);
                assert(kept.contains(x));
            } else {
                assert(ao[i - kept.len()] == x);
            }
        } else {
            assert(at[j - kept.len() - ao.len()] == y);
            assert(at.contains(y));
            if i < kept.len() {
                assert(kept[i] == x);
                assert(kept.contains(x));
            } else if i < kept.len() + ao.len() {
                assert(ao[i - kept.len()] == x);
                assert(ao.contains(x));
            } else {
                assert(at[i - kept.len() - ao.len()] == x);
            }
        }
    }
}

/// The import lines of the merged region are the merged imports, in their
/// order: our lines that are laid around them are not imports.
pub proof fn law_layout_imports(ours: Seq<Seq<char>>, merged: Seq<Seq<char>>)
    requires
        forall|i: int| 0 <= i < merged.len() ==> import_line(#[trigger] merged[i]),
    ensures
        import_layout(ours, merged).filter(import_pred()) == merged,
{
    let ip = import_pred();
    let pp = plain_pred();
    let k = first_import(ours);
    lemma_prefix_len(ours, pp);
    assert forall|i: int| 0 <= i < merged.len() implies ip(#[trigger] merged[i]) by {}
    lemma_filter_all(merged, ip);
    let head = if k < ours.len() {
        ours.take(k)
    } else {
        Seq::<Seq<char>>::empty()
    };
    let tail = if k < ours.len() {
        ours.skip(k + 1).filter(pp)
    } else {
        ours.filter(pp)
    };
    assert forall|i: int| 0 <= i < head.len() implies !ip(#[trigger] head[i]) by {
        assert(pp(ours[i]));
    }
    lemma_filter_none(head, ip);
    assert forall|i: int| 0 <= i < tail.len() implies !ip(#[trigger] tail[i]) by {
        if k < ours.len() {
            lemma_filter_meets(ours.skip(k + 1), pp);
            assert(pp(tail[i]));
        } else {
            lemma_filter_meets(ours, pp);
            assert(pp(tail[i]));
        }
    }
    lemma_filter_none(tail, ip);
    Seq::filter_distributes_over_add(head + merged, tail, ip);
    Seq::filter_distributes_over_add(head, merged, ip);
    assert(import_layout(ours, merged) =~= head + merged + tail);
    assert(head.filter(ip) + merged.filter(ip) + tail.filter(ip) =~= merged);
}

/// Seven times the character `c`.
pub open spec fn marker_run(c: char) -> Seq<char> {
    seq![c, c, c, c, c, c, c]
}

/// Marker well-formedness of a rendered conflict: the block begins with
/// the opening marker, a separator line follows our text, the closing
/// marker follows their text, each marker begins a line, and the block
/// ends with the end of a line.
pub proof fn law_marker_block(c: ConflictView)
    ensures
        ({
            let m = conflict_markers(c);
            let ours = newline_terminated(text_or_empty(c.ours_content));
            let theirs = newline_terminated(text_or_empty(c.theirs_content));
            let sep_at = (opening_marker(c).len() + ours.len()) as int;
            let close_at = sep_at + 8 + theirs.len();
            &&& starts_with(m, marker_run('<'))
            &&& occurs_at(m, marker_run('=').push('\n'), sep_at)
            &&& occurs_at(m, marker_run('>'), close_at)
            &&& 7 < sep_at < close_at < m.len()
            &&& m[sep_at - 1] == '\n'
            &&& m[close_at - 1] == '\n'
            &&& m.last() == '\n'
            &&& m.subrange(opening_marker(c).len() as int, sep_at) == ours
            &&& m.subrange(sep_at + 8, close_at) == theirs
        }),
{
    reveal_strlit("<<<<<<< ours \u{2014} ");
    reveal_strlit(">>>>>>> theirs \u{2014} ");
    reveal_strlit("=======\n");
    reveal_strlit("\n");
    let m = conflict_markers(c);
    let open = opening_marker(c);
    let close = closing_marker(c);
    let sep = separator_marker();
    let ours = newline_terminated(text_or_empty(c.ours_content));
    let theirs = newline_terminated(text_or_empty(c.theirs_content));
    let label = conflict_label(c);
    let sep_at = (open.len() + ours.len()) as int;
    let close_at = sep_at + 8 + theirs.len();
    assert(sep.len() == 8);
    assert(open.len() == 15 + label.len() + 1);
    assert(close.len() == 17 + label.len() + 1);
    assert(m.len() == open.len() + ours.len() + 8 + theirs.len() + close.len());
    assert(open.last() == '\n');
    assert(close.last() == '\n');
    assert(m.take(7) =~= marker_run('<'));
    assert(m.subrange(sep_at, sep_at + 8) =~= marker_run('=').push('\n'));
    assert(m.subrange(close_at, close_at + 7) =~= marker_run('>'));
    assert(m[sep_at - 1] == '\n') by {
        if ours.len() > 0 {
            assert(m[sep_at - 1] == ours.last());
        } else {
            assert(m[sep_at - 1] == open.last());
        }
    }
    assert(m[close_at - 1] == '\n') by {
        if theirs.len() > 0 {
            assert(m[close_at - 1] == theirs.last());
        } else {
            assert(m[close_at - 1] == sep.last());
        }
    }
    assert(m.subrange(open.len() as int, sep_at) =~= ours);
    assert(m.subrange(sep_at + 8, close_at) =~= theirs);
}

/// The class of a conflict does not depend on which side is called ours,
/// and versions that all agree are classed as unknown.
pub proof fn law_classification(
    base: Option<Seq<char>>,
    ours: Option<Seq<char>>,
    theirs: Option<Seq<char>>,
)
    ensures
        conflict_complexity(base, ours, theirs) == conflict_complexity(base, theirs, ours),
        text_or_empty(base) == text_or_empty(ours) && text_or_empty(base) == text_or_empty(theirs)
            ==> conflict_complexity(base, ours, theirs) == ConflictComplexity::Unknown,
{
}

/// Fallback observability, counted: a merge of three texts that all differ
/// and that fell back is the line-level merge of the texts; it counts no
/// entity but, where the lines conflict, the one conflict of the file.
pub proof fn law_fallback_counts(
    base: Seq<char>,
    ours: Seq<char>,
    theirs: Seq<char>,
    parsed: Option<Parsed>,
)
    requires
        ours != theirs,
        base != ours,
        base != theirs,
        merge_outcome(base, ours, theirs, parsed).stats.used_fallback,
    ensures
        merge_outcome(base, ours, theirs, parsed) == fallback_outcome(base, ours, theirs),
        ({
            let out = merge_outcome(base, ours, theirs, parsed);
            &&& out.stats == fallback_stats(out.conflicts.len() == 1)
            &&& out.conflicts.len() <= 1
            &&& out.stats.entities_conflicted == out.conflicts.len()
        }),
{
    law_fallback_observable(base, ours, theirs, parsed);
}

} // verus!

//! Laws of the counters: each counts the identities that were resolved its
//! way.

use vstd::prelude::*;
use crate::conflict::{ConflictKind, MergeStats};
use crate::linemerge::line_merge;
use crate::merge::{
    all_ids, entity_outcome, last_with_id, resolution_of, resolve_ids, texts_of, Parsed, Texts,
};
use crate::outcome_laws::{
    contended_at, law_disjoint_changes_merge, law_each_identity_once, law_every_entity_counted,
    lemma_all_ids_contains, lemma_counts, lemma_last_with_id, lemma_no_conflicts, side_disjoint,
    swapped, uncontended,
};
use crate::reconstruct::ids_of;
use crate::region::{region_of, EntityView};
use crate::resolve::{
    conflict_of, counted, needs_line_merge, side_text, total, ResolvedView, Tally,
};
use crate::text::has_sub;

verus! {

/// The counter that a tally adds to.
pub open spec fn counter(s: MergeStats, t: Tally) -> int {
    match t {
        Tally::Unchanged => s.entities_unchanged as int,
        Tally::OursOnly => s.entities_ours_only as int,
        Tally::TheirsOnly => s.entities_theirs_only as int,
        Tally::BothMerged => s.entities_both_changed_merged as int,
        Tally::Conflicted => s.entities_conflicted as int,
        Tally::AddedOurs => s.entities_added_ours as int,
        Tally::AddedTheirs => s.entities_added_theirs as int,
        Tally::Deleted => s.entities_deleted as int,
        Tally::Nothing => 0,
    }
}

/// The number of identities among the first `n` that were resolved with
/// the tally `t`.
pub open spec fn tallied(ids: Seq<Seq<char>>, n: nat, p: Parsed, tx: Texts, t: Tally) -> nat
    decreases n,
{
    if n == 0 {
        0
    } else {
        tallied(ids, (n - 1) as nat, p, tx, t) + if resolution_of(ids[n - 1], p, tx).tally == t {
            1nat
        } else {
            0nat
        }
    }
}

/// Whether every one of the identities is known to some version.
pub open spec fn all_known(ids: Seq<Seq<char>>, n: nat, p: Parsed) -> bool {
    forall|k: int|
        0 <= k < n ==> last_with_id(p.ours, #[trigger] ids[k]) is Some || last_with_id(
            p.theirs,
            ids[k],
        ) is Some || last_with_id(p.base, ids[k]) is Some
}

proof fn lemma_counted(s: MergeStats, by: Tally, t: Tally)
    requires
        total(s) < usize::MAX,
        !(t is Nothing),
    ensures
        counter(counted(s, by), t) == counter(s, t) + if by == t {
            1int
        } else {
            0int
        },
{
}

proof fn lemma_tally(ids: Seq<Seq<char>>, n: nat, p: Parsed, tx: Texts, t: Tally)
    requires
        n <= ids.len(),
        n <= usize::MAX,
        all_known(ids, n, p),
        !(t is Nothing),
    ensures
        counter(resolve_ids(ids, n, p, tx).stats, t) == tallied(ids, n, p, tx, t),
    decreases n,
{
    if n > 0 {
        lemma_tally(ids, (n - 1) as nat, p, tx, t);
        lemma_counts(ids, (n - 1) as nat, p, tx);
        let prev = resolve_ids(ids, (n - 1) as nat, p, tx).stats;
        let by = resolution_of(ids[n - 1], p, tx).tally;
        assert(resolve_ids(ids, n, p, tx).stats == counted(prev, by));
        lemma_counted(prev, by, t);
    }
}

proof fn lemma_untouched(ids: Seq<Seq<char>>, n: nat, p: Parsed, tx: Texts)
    ensures
        !resolve_ids(ids, n, p, tx).stats.used_fallback,
        resolve_ids(ids, n, p, tx).stats.semantic_warnings == 0,
        resolve_ids(ids, n, p, tx).stats.resolved_via_diffy == 0,
        resolve_ids(ids, n, p, tx).stats.resolved_via_inner_merge == 0,
    decreases n,
{
    if n > 0 {
        lemma_untouched(ids, (n - 1) as nat, p, tx);
    }
}

proof fn lemma_all_ids_known(p: Parsed)
    ensures
        all_known(all_ids(p), all_ids(p).len(), p),
{
    let ids = all_ids(p);
    assert forall|k: int| 0 <= k < ids.len() implies last_with_id(p.ours, #[trigger] ids[k])
        is Some || last_with_id(p.theirs, ids[k]) is Some || last_with_id(p.base, ids[k])
        is Some by {
        assert(ids.contains(ids[k]));
        lemma_all_ids_contains(p, ids[k]);
        lemma_last_with_id(p.ours, ids[k]);
        lemma_last_with_id(p.theirs, ids[k]);
        lemma_last_with_id(p.base, ids[k]);
    }
}

/// The counters count: after an entity merge, each counter holds the
/// number of identities that were resolved its way; nothing else is
/// counted, and the fallback flag is not set.
pub proof fn law_counters_count(
    base: Seq<char>,
    ours: Seq<char>,
    theirs: Seq<char>,
    p: Parsed,
    t: Tally,
)
    requires
        all_ids(p).len() <= usize::MAX,
        !(t is Nothing),
    ensures
        counter(entity_outcome(base, ours, theirs, p).stats, t) == tallied(
            all_ids(p),
            all_ids(p).len(),
            p,
            texts_of(base, ours, theirs, p),
            t,
        ),
        !entity_outcome(base, ours, theirs, p).stats.used_fallback,
        entity_outcome(base, ours, theirs, p).stats.semantic_warnings == 0,
        entity_outcome(base, ours, theirs, p).stats.resolved_via_diffy == 0,
        entity_outcome(base, ours, theirs, p).stats.resolved_via_inner_merge == 0,
{
    let ids = all_ids(p);
    let tx = texts_of(base, ours, theirs, p);
    lemma_all_ids_known(p);
    lemma_tally(ids, ids.len(), p, tx, t);
    lemma_untouched(ids, ids.len(), p, tx);
}

/// Where the identity at `k` alone is resolved with the tally `t`, one
/// identity is; where none is, none.
pub proof fn lemma_tallied_once(ids: Seq<Seq<char>>, n: nat, p: Parsed, tx: Texts, t: Tally, k: int)
    requires
        n <= ids.len(),
        forall|j: int|
            0 <= j < n ==> ((#[trigger] resolution_of(ids[j], p, tx)).tally == t <==> j == k),
    ensures
        tallied(ids, n, p, tx, t) == if 0 <= k < n {
            1nat
        } else {
            0nat
        },
    decreases n,
{
    if n > 0 {
        lemma_tallied_once(ids, (n - 1) as nat, p, tx, t, k);
        let r = resolution_of(ids[n - 1], p, tx);
        assert(r.tally == t <==> n - 1 == k);
    }
}

/// Whether `side` holds the entities of `base` and one more, `a`.
pub open spec fn adds_one(base: Seq<EntityView>, side: Seq<EntityView>, a: Seq<char>) -> bool {
    &&& !ids_of(base).contains(a)
    &&& forall|x: Seq<char>|
        #[trigger] ids_of(side).contains(x) <==> (ids_of(base).contains(x) || x == a)
}

/// How an identity is resolved where each side adds one entity and changes
/// nothing else: an entity of the base is unchanged, and each addition is
/// its side's.
proof fn lemma_addition_tally(p: Parsed, tx: Texts, a: Seq<char>, b: Seq<char>, x: Seq<char>)
    requires
        side_disjoint(p),
        adds_one(p.base, p.ours, a),
        adds_one(p.base, p.theirs, b),
        a != b,
        all_ids(p).contains(x),
    ensures
        resolution_of(x, p, tx).tally == if ids_of(p.base).contains(x) {
            Tally::Unchanged
        } else if x == a {
            Tally::AddedOurs
        } else {
            Tally::AddedTheirs
        },
        !ids_of(p.base).contains(x) ==> x == a || x == b,
{
    lemma_all_ids_contains(p, x);
    lemma_last_with_id(p.base, x);
    lemma_last_with_id(p.ours, x);
    lemma_last_with_id(p.theirs, x);
    // The sides are disjoint at `x` in particular.
    let at_x = last_with_id(p.base, x);
    assert(ids_of(p.ours).contains(x) <==> (ids_of(p.base).contains(x) || x == a));
    assert(ids_of(p.theirs).contains(x) <==> (ids_of(p.base).contains(x) || x == b));
}

/// The counters where each side adds one entity and changes nothing else.
pub open spec fn two_additions_stats(unchanged: usize) -> MergeStats {
    MergeStats {
        entities_unchanged: unchanged,
        entities_ours_only: 0,
        entities_theirs_only: 0,
        entities_both_changed_merged: 0,
        entities_conflicted: 0,
        entities_added_ours: 1,
        entities_added_theirs: 1,
        entities_deleted: 0,
        used_fallback: false,
        semantic_warnings: 0,
        resolved_via_diffy: 0,
        resolved_via_inner_merge: 0,
    }
}

/// Side-disjoint additions, counted: where ours adds the entity `a` to the
/// base, theirs adds the entity `b`, and neither changes anything else,
/// the merge is clean, one entity is counted as added by each side, every
/// other as unchanged, and nothing else is counted.
pub proof fn law_two_additions_counted(
    base: Seq<char>,
    ours: Seq<char>,
    theirs: Seq<char>,
    p: Parsed,
    a: Seq<char>,
    b: Seq<char>,
)
    requires
        side_disjoint(p),
        adds_one(p.base, p.ours, a),
        adds_one(p.base, p.theirs, b),
        a != b,
        all_ids(p).len() <= usize::MAX,
    ensures
        all_ids(p).len() >= 2,
        entity_outcome(base, ours, theirs, p).conflicts.len() == 0,
        entity_outcome(base, ours, theirs, p).stats == two_additions_stats(
            (all_ids(p).len() - 2) as usize,
        ),
{
    let ids = all_ids(p);
    let n = ids.len();
    let tx = texts_of(base, ours, theirs, p);
    let stats = entity_outcome(base, ours, theirs, p).stats;
    law_each_identity_once(p);
    lemma_no_conflicts(ids, n, p, tx);
    law_every_entity_counted(base, ours, theirs, p);
    lemma_all_ids_contains(p, a);
    lemma_all_ids_contains(p, b);
    assert(ids_of(p.ours).contains(a));
    assert(ids_of(p.theirs).contains(b));
    let ka = choose|k: int| 0 <= k < n && ids[k] == a;
    let kb = choose|k: int| 0 <= k < n && ids[k] == b;
    assert(ka != kb);
    assert forall|j: int| 0 <= j < n implies (#[trigger] resolution_of(ids[j], p, tx)).tally == (
    if j == ka {
        Tally::AddedOurs
    } else if j == kb {
        Tally::AddedTheirs
    } else {
        Tally::Unchanged
    }) by {
        assert(ids.contains(ids[j]));
        lemma_addition_tally(p, tx, a, b, ids[j]);
    }
    lemma_tallied_once(ids, n, p, tx, Tally::AddedOurs, ka);
    lemma_tallied_once(ids, n, p, tx, Tally::AddedTheirs, kb);
    lemma_tallied_once(ids, n, p, tx, Tally::OursOnly, -1);
    lemma_tallied_once(ids, n, p, tx, Tally::TheirsOnly, -1);
    lemma_tallied_once(ids, n, p, tx, Tally::BothMerged, -1);
    lemma_tallied_once(ids, n, p, tx, Tally::Conflicted, -1);
    lemma_tallied_once(ids, n, p, tx, Tally::Deleted, -1);
    law_counters_count(base, ours, theirs, p, Tally::AddedOurs);
    law_counters_count(base, ours, theirs, p, Tally::AddedTheirs);
    law_counters_count(base, ours, theirs, p, Tally::OursOnly);
    law_counters_count(base, ours, theirs, p, Tally::TheirsOnly);
    law_counters_count(base, ours, theirs, p, Tally::BothMerged);
    law_counters_count(base, ours, theirs, p, Tally::Conflicted);
    law_counters_count(base, ours, theirs, p, Tally::Deleted);
    assert(total(stats) == n);
}

/// Commutativity of side-disjoint additions, counted: with the sides in
/// each other's place the merge counts the same.
pub proof fn law_two_additions_commute(
    base: Seq<char>,
    ours: Seq<char>,
    theirs: Seq<char>,
    p: Parsed,
    a: Seq<char>,
    b: Seq<char>,
)
    requires
        side_disjoint(p),
        adds_one(p.base, p.ours, a),
        adds_one(p.base, p.theirs, b),
        a != b,
        all_ids(p).len() <= usize::MAX,
    ensures
        entity_outcome(base, theirs, ours, swapped(p)).stats == entity_outcome(
            base,
            ours,
            theirs,
            p,
        ).stats,
        entity_outcome(base, theirs, ours, swapped(p)).conflicts.len() == 0,
        entity_outcome(base, ours, theirs, p).conflicts.len() == 0,
{
    let q = swapped(p);
    assert(side_disjoint(q)) by {
        assert forall|x: Seq<char>| #![trigger last_with_id(q.base, x)]
            {
                let at_b = last_with_id(q.base, x);
                let at_o = last_with_id(q.ours, x);
                let at_t = last_with_id(q.theirs, x);
                &&& at_b is Some ==> at_o is Some && at_t is Some && at_o->0.content_hash
                    == at_b->0.content_hash && at_t->0.content_hash == at_b->0.content_hash
                &&& !(at_b is None && at_o is Some && at_t is Some)
            } by {
            // The sides are disjoint at `x` as they stand.
            let at_x = last_with_id(p.base, x);
        }
    }
    law_each_identity_once(p);
    law_each_identity_once(q);
    let ids = all_ids(p);
    let qids = all_ids(q);
    assert(ids.to_set() =~= qids.to_set()) by {
        assert forall|x: Seq<char>| ids.contains(x) <==> qids.contains(x) by {
            lemma_all_ids_contains(p, x);
            lemma_all_ids_contains(q, x);
        }
    }
    ids.unique_seq_to_set();
    qids.unique_seq_to_set();
    law_two_additions_counted(base, ours, theirs, p, a, b);
    law_two_additions_counted(base, theirs, ours, q, b, a);
}

/// Whether `side` has the entities of `base` and differs from it in the
/// content of the entity `a` alone.
pub open spec fn edits_one(base: Seq<EntityView>, side: Seq<EntityView>, a: Seq<char>) -> bool {
    &&& last_with_id(base, a) is Some
    &&& forall|x: Seq<char>|
        #![trigger last_with_id(side, x)]
        {
            &&& last_with_id(base, x) is Some <==> last_with_id(side, x) is Some
            &&& last_with_id(base, x) is Some ==> (last_with_id(side, x)->0.content_hash
                != last_with_id(base, x)->0.content_hash <==> x == a)
        }
}

/// The counters where each side changes one entity and nothing else.
pub open spec fn two_edits_stats(unchanged: usize) -> MergeStats {
    MergeStats {
        entities_unchanged: unchanged,
        entities_ours_only: 1,
        entities_theirs_only: 1,
        entities_both_changed_merged: 0,
        entities_conflicted: 0,
        entities_added_ours: 0,
        entities_added_theirs: 0,
        entities_deleted: 0,
        used_fallback: false,
        semantic_warnings: 0,
        resolved_via_diffy: 0,
        resolved_via_inner_merge: 0,
    }
}

proof fn lemma_edit_tally(p: Parsed, tx: Texts, a: Seq<char>, b: Seq<char>, x: Seq<char>)
    requires
        edits_one(p.base, p.ours, a),
        edits_one(p.base, p.theirs, b),
        a != b,
    ensures
        !contended_at(p, x),
        all_ids(p).contains(x) ==> last_with_id(p.base, x) is Some && resolution_of(x, p, tx).tally
            == if x == a {
            Tally::OursOnly
        } else if x == b {
            Tally::TheirsOnly
        } else {
            Tally::Unchanged
        },
{
    lemma_all_ids_contains(p, x);
    lemma_last_with_id(p.base, x);
    lemma_last_with_id(p.ours, x);
    lemma_last_with_id(p.theirs, x);
    // Each side edits one entity; here is what that says of `x`.
    let in_ours = last_with_id(p.ours, x);
    let in_theirs = last_with_id(p.theirs, x);
}

/// Different entities changed: where ours changes the content of the
/// entity `a` alone and theirs that of another entity `b` alone, the merge
/// is clean; `a` stands in the merged text with our text, `b` with theirs,
/// every other entity with the text it has in ours; one entity is counted
/// as changed by each side and every other as unchanged.
pub proof fn law_two_edits(
    base: Seq<char>,
    ours: Seq<char>,
    theirs: Seq<char>,
    p: Parsed,
    a: Seq<char>,
    b: Seq<char>,
)
    requires
        edits_one(p.base, p.ours, a),
        edits_one(p.base, p.theirs, b),
        a != b,
        all_ids(p).len() <= usize::MAX,
    ensures
        all_ids(p).len() >= 2,
        entity_outcome(base, ours, theirs, p).conflicts.len() == 0,
        entity_outcome(base, ours, theirs, p).stats == two_edits_stats(
            (all_ids(p).len() - 2) as usize,
        ),
        has_sub(
            entity_outcome(base, ours, theirs, p).content,
            side_text(last_with_id(p.theirs, b), texts_of(base, ours, theirs, p).theirs),
        ),
        forall|x: Seq<char>|
            #![trigger last_with_id(p.ours, x)]
            last_with_id(p.base, x) is Some && x != b ==> has_sub(
                entity_outcome(base, ours, theirs, p).content,
                side_text(last_with_id(p.ours, x), texts_of(base, ours, theirs, p).ours),
            ),
{
    let ids = all_ids(p);
    let n = ids.len();
    let tx = texts_of(base, ours, theirs, p);
    let out = entity_outcome(base, ours, theirs, p);
    law_each_identity_once(p);
    law_every_entity_counted(base, ours, theirs, p);
    assert(uncontended(p)) by {
        assert forall|x: Seq<char>| !#[trigger] contended_at(p, x) by {
            lemma_edit_tally(p, tx, a, b, x);
        }
    }
    lemma_last_with_id(p.base, a);
    lemma_last_with_id(p.base, b);
    lemma_all_ids_contains(p, a);
    lemma_all_ids_contains(p, b);
    let ka = choose|k: int| 0 <= k < n && ids[k] == a;
    let kb = choose|k: int| 0 <= k < n && ids[k] == b;
    assert(ka != kb);
    assert forall|j: int| 0 <= j < n implies (#[trigger] resolution_of(ids[j], p, tx)).tally == (
    if j == ka {
        Tally::OursOnly
    } else if j == kb {
        Tally::TheirsOnly
    } else {
        Tally::Unchanged
    }) by {
        assert(ids.contains(ids[j]));
        lemma_edit_tally(p, tx, a, b, ids[j]);
    }
    lemma_tallied_once(ids, n, p, tx, Tally::OursOnly, ka);
    lemma_tallied_once(ids, n, p, tx, Tally::TheirsOnly, kb);
    lemma_tallied_once(ids, n, p, tx, Tally::AddedOurs, -1);
    lemma_tallied_once(ids, n, p, tx, Tally::AddedTheirs, -1);
    lemma_tallied_once(ids, n, p, tx, Tally::BothMerged, -1);
    lemma_tallied_once(ids, n, p, tx, Tally::Conflicted, -1);
    lemma_tallied_once(ids, n, p, tx, Tally::Deleted, -1);
    law_counters_count(base, ours, theirs, p, Tally::OursOnly);
    law_counters_count(base, ours, theirs, p, Tally::TheirsOnly);
    law_counters_count(base, ours, theirs, p, Tally::AddedOurs);
    law_counters_count(base, ours, theirs, p, Tally::AddedTheirs);
    law_counters_count(base, ours, theirs, p, Tally::BothMerged);
    law_counters_count(base, ours, theirs, p, Tally::Conflicted);
    law_counters_count(base, ours, theirs, p, Tally::Deleted);
    assert(total(out.stats) == n);
    assert(has_sub(out.content, side_text(last_with_id(p.theirs, b), tx.theirs))) by {
        lemma_last_with_id(p.theirs, b);
        lemma_edit_tally(p, tx, a, b, b);
        let in_ours = last_with_id(p.ours, b);
        let in_theirs = last_with_id(p.theirs, b);
        law_disjoint_changes_merge(base, ours, theirs, p, b);
    }
    assert forall|x: Seq<char>|
        #![trigger last_with_id(p.ours, x)]
        last_with_id(p.base, x) is Some && x != b implies has_sub(
        out.content,
        side_text(last_with_id(p.ours, x), tx.ours),
    ) by {
        lemma_last_with_id(p.ours, x);
        let in_theirs = last_with_id(p.theirs, x);
        law_disjoint_changes_merge(base, ours, theirs, p, x);
    }
}

/// One conflict for each contended entity: the conflicts listed are as
/// many as the identities that were resolved as conflicts, and each
/// identity is resolved once.
pub proof fn law_conflicts_counted(base: Seq<char>, ours: Seq<char>, theirs: Seq<char>, p: Parsed)
    requires
        all_ids(p).len() <= usize::MAX,
    ensures
        all_ids(p).no_duplicates(),
        entity_outcome(base, ours, theirs, p).conflicts.len() == tallied(
            all_ids(p),
            all_ids(p).len(),
            p,
            texts_of(base, ours, theirs, p),
            Tally::Conflicted,
        ),
{
    law_each_identity_once(p);
    law_every_entity_counted(base, ours, theirs, p);
    law_counters_count(base, ours, theirs, p, Tally::Conflicted);
}

/// Same entity changed by both sides: an entity that all three versions
/// have and that both sides changed in different ways takes the line merge
/// of its three texts where they merge, under our identity; where they do
/// not, it is a conflict of the kind "both modified" that holds the three
/// texts.
pub proof fn law_both_modified(p: Parsed, tx: Texts, id: Seq<char>)
    requires
        needs_line_merge(
            last_with_id(p.base, id),
            last_with_id(p.ours, id),
            last_with_id(p.theirs, id),
        ),
    ensures
        ({
            let o = last_with_id(p.ours, id)->0;
            let bt = side_text(last_with_id(p.base, id), tx.base);
            let ot = side_text(last_with_id(p.ours, id), tx.ours);
            let tt = side_text(last_with_id(p.theirs, id), tx.theirs);
            resolution_of(id, p, tx).entity == match line_merge(bt, ot, tt) {
                Ok(m) => ResolvedView::Clean(region_of(o, m)),
                Err(_) => ResolvedView::Conflict(
                    conflict_of(o, ConflictKind::BothModified, Some(bt), Some(ot), Some(tt)),
                ),
            }
        }),
{
}

} // verus!

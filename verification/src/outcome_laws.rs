//! Laws of the entity merge as a whole: where resolved entities and
//! conflicts stand in the merged text.

use vstd::prelude::*;
use crate::conflict::{conflict_markers, ConflictView};
use crate::merge::{
    all_ids, distinct, entity_outcome, last_with_id, plan_of, resolution_of, resolve_ids,
    texts_of, Parsed, Texts,
};
use crate::order_laws::{
    around, in_order, law_anchored_in_place, law_entity_in_place, law_skeleton_order,
    law_unanchored_in_place, lemma_anchor_is_ours, lemma_around_has_sub, lemma_has_sub_trans,
    lemma_inserted_has,
};
use crate::reconstruct::{anchor, emitted, ids_of, inserted_all, resolved_text};
use crate::region::{file_regions, region_of, EntityView};
use crate::region_laws::{
    law_regions_cover, lemma_key_has_region, lemma_region_has_key, lemma_sorted_ids,
};
use crate::resolve::{needs_line_merge, side_text, total, ResolvedView};
use crate::text::has_sub;

verus! {

/// A list without repetitions has the elements of the list it was made of.
pub proof fn lemma_distinct_contains(s: Seq<Seq<char>>, x: Seq<char>)
    ensures
        distinct(s).contains(x) <==> s.contains(x),
    decreases s.len(),
{
    if s.len() > 0 {
        let t = s.drop_last();
        lemma_distinct_contains(t, x);
        let d = distinct(t);
        if s.contains(x) {
            let j = choose|j: int| 0 <= j < s.len() && s[j] == x;
            if j < t.len() {
                assert(t[j] == x);
            }
        }
        if t.contains(x) {
            let j = choose|j: int| 0 <= j < t.len() && t[j] == x;
            assert(s[j] == x);
        }
        if !d.contains(s.last()) {
            let e = d.push(s.last());
            if e.contains(x) {
                let i = choose|i: int| 0 <= i < e.len() && e[i] == x;
                if i < d.len() {
                    assert(d[i] == x);
                } else {
                    assert(s[s.len() - 1] == x);
                }
            }
            if d.contains(x) {
                let i = choose|i: int| 0 <= i < d.len() && d[i] == x;
                assert(e[i] == x);
            }
            if x == s.last() {
                assert(e[e.len() - 1] == x);
            }
        } else {
            if x == s.last() {
                assert(d.contains(x));
            }
        }
    }
}

proof fn lemma_distinct_no_duplicates(s: Seq<Seq<char>>)
    ensures
        distinct(s).no_duplicates(),
    decreases s.len(),
{
    if s.len() > 0 {
        let t = s.drop_last();
        lemma_distinct_no_duplicates(t);
        let d = distinct(t);
        if !d.contains(s.last()) {
            let e = d.push(s.last());
            assert forall|i: int, j: int| 0 <= i < e.len() && 0 <= j < e.len() && i != j implies e[i]
                != e[j] by {
                if i < d.len() && j < d.len() {
                } else if i < d.len() {
                    assert(d.contains(d[i]));
                } else {
                    assert(d.contains(d[j]));
                }
            }
        }
    }
}

/// Every identity of the three versions is resolved once.
pub proof fn law_each_identity_once(p: Parsed)
    ensures
        all_ids(p).no_duplicates(),
{
    lemma_distinct_no_duplicates(ids_of(p.ours) + ids_of(p.theirs) + ids_of(p.base));
}

/// An identity is found among the entities exactly when one of them has
/// it, and what is found has it.
pub proof fn lemma_last_with_id(es: Seq<EntityView>, id: Seq<char>)
    ensures
        last_with_id(es, id) is Some <==> ids_of(es).contains(id),
        last_with_id(es, id) matches Some(e) ==> e.id == id && es.contains(e),
    decreases es.len(),
{
    if es.len() > 0 {
        let t = es.drop_last();
        lemma_last_with_id(t, id);
        if es.last().id == id {
            assert(ids_of(es)[es.len() - 1] == id);
            assert(es[es.len() - 1] == es.last());
        } else {
            if ids_of(es).contains(id) {
                let j = choose|j: int| 0 <= j < ids_of(es).len() && ids_of(es)[j] == id;
                assert(ids_of(t)[j] == id);
            }
            if ids_of(t).contains(id) {
                let j = choose|j: int| 0 <= j < ids_of(t).len() && ids_of(t)[j] == id;
                assert(ids_of(es)[j] == id);
            }
            if last_with_id(t, id) is Some {
                let e = last_with_id(t, id)->0;
                let j = choose|j: int| 0 <= j < t.len() && t[j] == e;
                assert(es[j] == e);
            }
        }
    }
}

/// An identity of ours, theirs or the base is among the identities that
/// are resolved.
pub proof fn lemma_all_ids_contains(p: Parsed, id: Seq<char>)
    ensures
        all_ids(p).contains(id) <==> (ids_of(p.ours).contains(id) || ids_of(p.theirs).contains(id)
            || ids_of(p.base).contains(id)),
{
    let o = ids_of(p.ours);
    let t = ids_of(p.theirs);
    let b = ids_of(p.base);
    let s = o + t + b;
    lemma_distinct_contains(s, id);
    if s.contains(id) {
        let i = choose|i: int| 0 <= i < s.len() && s[i] == id;
        if i < o.len() {
            assert(o[i] == id);
        } else if i < o.len() + t.len() {
            assert(t[i - o.len()] == id);
        } else {
            assert(b[i - o.len() - t.len()] == id);
        }
    }
    if o.contains(id) {
        let i = choose|i: int| 0 <= i < o.len() && o[i] == id;
        assert(s[i] == id);
    }
    if t.contains(id) {
        let i = choose|i: int| 0 <= i < t.len() && t[i] == id;
        assert(s[o.len() + i] == id);
    }
    if b.contains(id) {
        let i = choose|i: int| 0 <= i < b.len() && b[i] == id;
        assert(s[o.len() + t.len() + i] == id);
    }
}

/// Each identity that was resolved is recorded with its outcome.
pub proof fn lemma_resolved_at(ids: Seq<Seq<char>>, n: nat, p: Parsed, tx: Texts, k: int)
    requires
        0 <= k < n <= ids.len(),
    ensures
        resolve_ids(ids, n, p, tx).resolved.contains_key(ids[k]),
        resolve_ids(ids, n, p, tx).resolved[ids[k]] == resolution_of(ids[k], p, tx).entity,
    decreases n,
{
    if k < n - 1 {
        lemma_resolved_at(ids, (n - 1) as nat, p, tx, k);
    }
}

/// The conflicts found are the conflicting outcomes of the identities
/// resolved.
pub proof fn lemma_conflicts_found(ids: Seq<Seq<char>>, n: nat, p: Parsed, tx: Texts, c: ConflictView)
    requires
        n <= ids.len(),
    ensures
        resolve_ids(ids, n, p, tx).conflicts.contains(c) <==> exists|k: int|
            0 <= k < n && #[trigger] resolution_of(ids[k], p, tx).entity == ResolvedView::Conflict(
                c,
            ),
    decreases n,
{
    if n > 0 {
        lemma_conflicts_found(ids, (n - 1) as nat, p, tx, c);
        let prev = resolve_ids(ids, (n - 1) as nat, p, tx).conflicts;
        let now = resolve_ids(ids, n, p, tx).conflicts;
        let r = resolution_of(ids[n - 1], p, tx).entity;
        if now.contains(c) {
            let i = choose|i: int| 0 <= i < now.len() && now[i] == c;
            if i < prev.len() {
                assert(prev[i] == c);
                assert(prev.contains(c));
            } else {
                assert(r == ResolvedView::Conflict(c));
            }
        }
        if exists|k: int|
            0 <= k < n && #[trigger] resolution_of(ids[k], p, tx).entity == ResolvedView::Conflict(
                c,
            ) {
            let k = choose|k: int|
                0 <= k < n && #[trigger] resolution_of(ids[k], p, tx).entity
                    == ResolvedView::Conflict(c);
            if k < n - 1 {
                assert(prev.contains(c));
                let i = choose|i: int| 0 <= i < prev.len() && prev[i] == c;
                assert(now[i] == c);
            } else {
                assert(now[now.len() - 1] == c);
            }
        }
    }
}

/// What an entity of ours or theirs resolved to stands in the merged text:
/// a resolved entity as its text, a conflict as its marker block.
pub proof fn law_resolved_entity_stands(
    base: Seq<char>,
    ours: Seq<char>,
    theirs: Seq<char>,
    p: Parsed,
    id: Seq<char>,
)
    requires
        ids_of(p.ours).contains(id) || ids_of(p.theirs).contains(id),
    ensures
        has_sub(
            entity_outcome(base, ours, theirs, p).content,
            resolved_text(resolution_of(id, p, texts_of(base, ours, theirs, p)).entity),
        ),
{
    let tx = texts_of(base, ours, theirs, p);
    let plan = plan_of(base, ours, theirs, p);
    let skeleton = file_regions(ours, p.ours);
    let content = entity_outcome(base, ours, theirs, p).content;
    let ids = all_ids(p);
    lemma_all_ids_contains(p, id);
    let k = choose|k: int| 0 <= k < ids.len() && ids[k] == id;
    lemma_resolved_at(ids, ids.len(), p, tx, k);
    let x = resolved_text(resolution_of(id, p, tx).entity);
    assert(emitted(plan.resolved, id) == x);
    if ids_of(p.ours).contains(id) {
        lemma_sorted_ids(p.ours, id);
        law_regions_cover(ours, p.ours);
        lemma_key_has_region(skeleton, id);
        let i = choose|i: int|
            0 <= i < skeleton.len() && (#[trigger] skeleton[i]) is Entity && skeleton[i].key() == id;
        law_entity_in_place(plan, skeleton, i);
    } else {
        let j = choose|j: int| 0 <= j < ids_of(p.theirs).len() && ids_of(p.theirs)[j] == id;
        lemma_inserted_has(plan, j, plan.theirs.len());
        let a = anchor(plan.theirs, plan.ours, j);
        let (b, t) = choose|b: Seq<char>, t: Seq<char>|
            inserted_all(plan, a) == #[trigger] around(b, x, t);
        lemma_around_has_sub(b, x, t);
        match a {
            None => {
                law_unanchored_in_place(plan, skeleton);
            },
            Some(aid) => {
                lemma_anchor_is_ours(plan.theirs, plan.ours, j);
                lemma_sorted_ids(p.ours, aid);
                law_regions_cover(ours, p.ours);
                lemma_key_has_region(skeleton, aid);
                let i = choose|i: int|
                    0 <= i < skeleton.len() && (#[trigger] skeleton[i]) is Entity
                        && skeleton[i].key() == aid;
                law_anchored_in_place(plan, skeleton, i);
            },
        }
        lemma_has_sub_trans(content, inserted_all(plan, a), x);
    }
}

/// Conflict localization: every conflict that an entity merge reports
/// stands in the merged text as its marker block.
pub proof fn law_conflicts_are_marked(
    base: Seq<char>,
    ours: Seq<char>,
    theirs: Seq<char>,
    p: Parsed,
    k: int,
)
    requires
        0 <= k < entity_outcome(base, ours, theirs, p).conflicts.len(),
    ensures
        has_sub(
            entity_outcome(base, ours, theirs, p).content,
            conflict_markers(entity_outcome(base, ours, theirs, p).conflicts[k]),
        ),
{
    let out = entity_outcome(base, ours, theirs, p);
    let c = out.conflicts[k];
    let tx = texts_of(base, ours, theirs, p);
    let ids = all_ids(p);
    assert(out.conflicts.contains(c));
    lemma_conflicts_found(ids, ids.len(), p, tx, c);
    let i = choose|i: int|
        0 <= i < ids.len() && #[trigger] resolution_of(ids[i], p, tx).entity
            == ResolvedView::Conflict(c);
    let id = ids[i];
    lemma_last_with_id(p.ours, id);
    lemma_last_with_id(p.theirs, id);
    assert(last_with_id(p.ours, id) is Some || last_with_id(p.theirs, id) is Some);
    law_resolved_entity_stands(base, ours, theirs, p, id);
}

/// Whether the two sides keep out of each other's way: every entity of the
/// base is in both sides with the base's content hash, and no entity was
/// added by both.
pub open spec fn side_disjoint(p: Parsed) -> bool {
    forall|id: Seq<char>|
        #![trigger last_with_id(p.base, id)]
        {
            let b = last_with_id(p.base, id);
            let o = last_with_id(p.ours, id);
            let t = last_with_id(p.theirs, id);
            &&& b is Some ==> o is Some && t is Some && o->0.content_hash == b->0.content_hash
                && t->0.content_hash == b->0.content_hash
            &&& !(b is None && o is Some && t is Some)
        }
}

/// Sides that keep out of each other's way leave no conflict.
pub proof fn lemma_no_conflicts(ids: Seq<Seq<char>>, n: nat, p: Parsed, tx: Texts)
    requires
        n <= ids.len(),
        side_disjoint(p),
    ensures
        resolve_ids(ids, n, p, tx).conflicts.len() == 0,
    decreases n,
{
    if n > 0 {
        lemma_no_conflicts(ids, (n - 1) as nat, p, tx);
        let id = ids[n - 1];
        // The sides are disjoint at `id` in particular.
        let b = last_with_id(p.base, id);
        assert(!(resolution_of(id, p, tx).entity is Conflict));
    }
}

/// Side-disjoint additions: where each side adds entities of its own and
/// changes nothing else, the merge is clean, and the text of every entity
/// of ours and of every entity that only theirs has stands in the merged
/// text.
pub proof fn law_side_disjoint_additions(
    base: Seq<char>,
    ours: Seq<char>,
    theirs: Seq<char>,
    p: Parsed,
)
    requires
        side_disjoint(p),
    ensures
        entity_outcome(base, ours, theirs, p).conflicts.len() == 0,
        forall|id: Seq<char>|
            #![trigger last_with_id(p.ours, id)]
            ids_of(p.ours).contains(id) ==> has_sub(
                entity_outcome(base, ours, theirs, p).content,
                side_text(last_with_id(p.ours, id), texts_of(base, ours, theirs, p).ours),
            ),
        forall|id: Seq<char>|
            #![trigger last_with_id(p.theirs, id)]
            ids_of(p.theirs).contains(id) && !ids_of(p.ours).contains(id) ==> has_sub(
                entity_outcome(base, ours, theirs, p).content,
                side_text(last_with_id(p.theirs, id), texts_of(base, ours, theirs, p).theirs),
            ),
{
    let tx = texts_of(base, ours, theirs, p);
    let ids = all_ids(p);
    let content = entity_outcome(base, ours, theirs, p).content;
    lemma_no_conflicts(ids, ids.len(), p, tx);
    assert forall|id: Seq<char>|
        #![trigger last_with_id(p.ours, id)]
        ids_of(p.ours).contains(id) implies has_sub(
        content,
        side_text(last_with_id(p.ours, id), tx.ours),
    ) by {
        lemma_last_with_id(p.ours, id);
        // The sides are disjoint at `id` in particular.
        let b = last_with_id(p.base, id);
        law_resolved_entity_stands(base, ours, theirs, p, id);
        let o = last_with_id(p.ours, id)->0;
        assert(resolution_of(id, p, tx).entity == ResolvedView::Clean(
            region_of(o, side_text(Some(o), tx.ours)),
        ));
    }
    assert forall|id: Seq<char>|
        #![trigger last_with_id(p.theirs, id)]
        ids_of(p.theirs).contains(id) && !ids_of(p.ours).contains(id) implies has_sub(
        content,
        side_text(last_with_id(p.theirs, id), tx.theirs),
    ) by {
        lemma_last_with_id(p.ours, id);
        lemma_last_with_id(p.theirs, id);
        // The sides are disjoint at `id` in particular.
        let b = last_with_id(p.base, id);
        law_resolved_entity_stands(base, ours, theirs, p, id);
        let t = last_with_id(p.theirs, id)->0;
        assert(resolution_of(id, p, tx).entity == ResolvedView::Clean(
            region_of(t, side_text(Some(t), tx.theirs)),
        ));
    }
}

/// What the entity region `i` of our regions resolved to is what the plan
/// of the merge holds for it.
proof fn lemma_our_region_is_resolved(
    base: Seq<char>,
    ours: Seq<char>,
    theirs: Seq<char>,
    p: Parsed,
    i: int,
)
    requires
        0 <= i < file_regions(ours, p.ours).len(),
        file_regions(ours, p.ours)[i] is Entity,
    ensures
        emitted(plan_of(base, ours, theirs, p).resolved, file_regions(ours, p.ours)[i].key())
            == resolved_text(
            resolution_of(
                file_regions(ours, p.ours)[i].key(),
                p,
                texts_of(base, ours, theirs, p),
            ).entity,
        ),
{
    let skeleton = file_regions(ours, p.ours);
    let id = skeleton[i].key();
    let ids = all_ids(p);
    lemma_region_has_key(skeleton, i);
    law_regions_cover(ours, p.ours);
    lemma_sorted_ids(p.ours, id);
    lemma_all_ids_contains(p, id);
    let k = choose|k: int| 0 <= k < ids.len() && ids[k] == id;
    lemma_resolved_at(ids, ids.len(), p, texts_of(base, ours, theirs, p), k);
}

/// Skeleton ordering: of two entities of ours, the one that comes first in
/// our file comes first in the merged text, each as what it resolved to.
pub proof fn law_our_order_is_kept(
    base: Seq<char>,
    ours: Seq<char>,
    theirs: Seq<char>,
    p: Parsed,
    i: int,
    j: int,
)
    requires
        0 <= i < j < file_regions(ours, p.ours).len(),
        file_regions(ours, p.ours)[i] is Entity,
        file_regions(ours, p.ours)[j] is Entity,
    ensures
        exists|before: Seq<char>, between: Seq<char>, after: Seq<char>|
            entity_outcome(base, ours, theirs, p).content == #[trigger] in_order(
                before,
                resolved_text(
                    resolution_of(
                        file_regions(ours, p.ours)[i].key(),
                        p,
                        texts_of(base, ours, theirs, p),
                    ).entity,
                ),
                between,
                resolved_text(
                    resolution_of(
                        file_regions(ours, p.ours)[j].key(),
                        p,
                        texts_of(base, ours, theirs, p),
                    ).entity,
                ),
                after,
            ),
{
    let skeleton = file_regions(ours, p.ours);
    let plan = plan_of(base, ours, theirs, p);
    lemma_our_region_is_resolved(base, ours, theirs, p, i);
    lemma_our_region_is_resolved(base, ours, theirs, p, j);
    law_skeleton_order(plan, skeleton, i, j);
    let x = emitted(plan.resolved, skeleton[i].key());
    let y = emitted(plan.resolved, skeleton[j].key());
    let (b, m, a) = choose|b: Seq<char>, m: Seq<char>, a: Seq<char>|
        crate::reconstruct::reconstructed(plan, skeleton) == #[trigger] in_order(b, x, m, y, a);
    assert(entity_outcome(base, ours, theirs, p).content == in_order(b, x, m, y, a));
}

/// Every identity that some version has adds one to the counters, and a
/// conflict to the list where it is one.
pub proof fn lemma_counts(ids: Seq<Seq<char>>, n: nat, p: Parsed, tx: Texts)
    requires
        n <= ids.len(),
        n <= usize::MAX,
        forall|k: int|
            0 <= k < n ==> last_with_id(p.ours, #[trigger] ids[k]) is Some || last_with_id(
                p.theirs,
                ids[k],
            ) is Some || last_with_id(p.base, ids[k]) is Some,
    ensures
        total(resolve_ids(ids, n, p, tx).stats) == n,
        resolve_ids(ids, n, p, tx).stats.entities_conflicted == resolve_ids(
            ids,
            n,
            p,
            tx,
        ).conflicts.len(),
    decreases n,
{
    if n > 0 {
        lemma_counts(ids, (n - 1) as nat, p, tx);
        let id = ids[n - 1];
        let r = resolution_of(id, p, tx);
        assert(!(r.tally is Nothing));
        assert(r.tally is Conflicted <==> r.entity is Conflict);
    }
}

/// Every identity is counted once: the counters of an entity merge add up
/// to the number of identities, and the conflicts counted are the
/// conflicts reported.
pub proof fn law_every_entity_counted(
    base: Seq<char>,
    ours: Seq<char>,
    theirs: Seq<char>,
    p: Parsed,
)
    requires
        all_ids(p).len() <= usize::MAX,
    ensures
        total(entity_outcome(base, ours, theirs, p).stats) == all_ids(p).len(),
        entity_outcome(base, ours, theirs, p).stats.entities_conflicted == entity_outcome(
            base,
            ours,
            theirs,
            p,
        ).conflicts.len(),
{
    let ids = all_ids(p);
    assert forall|k: int| 0 <= k < ids.len() implies last_with_id(p.ours, #[trigger] ids[k])
        is Some || last_with_id(p.theirs, ids[k]) is Some || last_with_id(p.base, ids[k])
        is Some by {
        assert(ids.contains(ids[k]));
        lemma_all_ids_contains(p, ids[k]);
        lemma_last_with_id(p.ours, ids[k]);
        lemma_last_with_id(p.theirs, ids[k]);
        lemma_last_with_id(p.base, ids[k]);
    }
    lemma_counts(ids, ids.len(), p, texts_of(base, ours, theirs, p));
}

/// The entities with ours and theirs in each other's place.
pub open spec fn swapped(p: Parsed) -> Parsed {
    Parsed { base: p.base, ours: p.theirs, theirs: p.ours }
}

/// Commutativity of side-disjoint additions: where the sides keep out of
/// each other's way, the merge is clean whichever side is taken as ours,
/// and either way the merged text holds the text of every entity that one
/// side alone has.
pub proof fn law_side_disjoint_commutes(
    base: Seq<char>,
    ours: Seq<char>,
    theirs: Seq<char>,
    p: Parsed,
    id: Seq<char>,
)
    requires
        side_disjoint(p),
        ids_of(p.ours).contains(id) != ids_of(p.theirs).contains(id),
    ensures
        side_disjoint(swapped(p)),
        entity_outcome(base, ours, theirs, p).conflicts.len() == 0,
        entity_outcome(base, theirs, ours, swapped(p)).conflicts.len() == 0,
        ({
            let text = if ids_of(p.ours).contains(id) {
                side_text(last_with_id(p.ours, id), texts_of(base, ours, theirs, p).ours)
            } else {
                side_text(last_with_id(p.theirs, id), texts_of(base, ours, theirs, p).theirs)
            };
            has_sub(entity_outcome(base, ours, theirs, p).content, text) && has_sub(
                entity_outcome(base, theirs, ours, swapped(p)).content,
                text,
            )
        }),
{
    let q = swapped(p);
    assert(side_disjoint(q)) by {
        assert forall|x: Seq<char>| #![trigger last_with_id(q.base, x)]
            {
                let b = last_with_id(q.base, x);
                let o = last_with_id(q.ours, x);
                let t = last_with_id(q.theirs, x);
                &&& b is Some ==> o is Some && t is Some && o->0.content_hash == b->0.content_hash
                    && t->0.content_hash == b->0.content_hash
                &&& !(b is None && o is Some && t is Some)
            } by {
            // The sides are disjoint at `x` as they stand.
            let b = last_with_id(p.base, x);
        }
    }
    law_side_disjoint_additions(base, ours, theirs, p);
    law_side_disjoint_additions(base, theirs, ours, q);
    let tx = texts_of(base, ours, theirs, p);
    let txq = texts_of(base, theirs, ours, q);
    assert(txq.ours == tx.theirs && txq.theirs == tx.ours);
}

/// Whether the two sides contend for an entity: both changed it in
/// different ways, one changed it and the other removed it, or both added
/// it with different content.
pub open spec fn contended(
    b: Option<EntityView>,
    o: Option<EntityView>,
    t: Option<EntityView>,
) -> bool {
    ||| needs_line_merge(b, o, t)
    ||| (b is Some && o is Some && t is None && o->0.content_hash != b->0.content_hash)
    ||| (b is Some && o is None && t is Some && t->0.content_hash != b->0.content_hash)
    ||| (b is None && o is Some && t is Some && o->0.content_hash != t->0.content_hash)
}

/// Whether the sides contend for the entity `id`.
pub open spec fn contended_at(p: Parsed, id: Seq<char>) -> bool {
    contended(last_with_id(p.base, id), last_with_id(p.ours, id), last_with_id(p.theirs, id))
}

/// The side whose text an entity takes without any merging: ours
/// (`Some(true)`) where theirs left it as the base has it, where ours alone
/// has it, or where both sides hold the same content; theirs
/// (`Some(false)`) where only theirs changed or added it; neither where it
/// was removed or is contended for.
pub open spec fn settled_side(
    b: Option<EntityView>,
    o: Option<EntityView>,
    t: Option<EntityView>,
) -> Option<bool> {
    if o is Some && t is Some {
        if b is Some && t->0.content_hash == b->0.content_hash {
            Some(true)
        } else if b is Some && o->0.content_hash == b->0.content_hash {
            Some(false)
        } else if o->0.content_hash == t->0.content_hash {
            Some(true)
        } else {
            None
        }
    } else if b is None && o is Some {
        Some(true)
    } else if b is None && t is Some {
        Some(false)
    } else {
        None
    }
}

/// Conflicts arise from contention alone, and an entity that one side
/// settles takes that side's region text, byte for byte.
pub proof fn law_single_sided(p: Parsed, tx: Texts, id: Seq<char>)
    ensures
        resolution_of(id, p, tx).entity is Conflict ==> contended_at(p, id),
        settled_side(
            last_with_id(p.base, id),
            last_with_id(p.ours, id),
            last_with_id(p.theirs, id),
        ) == Some(true) ==> resolved_text(resolution_of(id, p, tx).entity) == side_text(
            last_with_id(p.ours, id),
            tx.ours,
        ),
        settled_side(
            last_with_id(p.base, id),
            last_with_id(p.ours, id),
            last_with_id(p.theirs, id),
        ) == Some(false) ==> resolved_text(resolution_of(id, p, tx).entity) == side_text(
            last_with_id(p.theirs, id),
            tx.theirs,
        ),
{
}

/// Whether the sides contend for no entity.
pub open spec fn uncontended(p: Parsed) -> bool {
    forall|id: Seq<char>| !#[trigger] contended_at(p, id)
}

proof fn lemma_uncontended(ids: Seq<Seq<char>>, n: nat, p: Parsed, tx: Texts)
    requires
        n <= ids.len(),
        uncontended(p),
    ensures
        resolve_ids(ids, n, p, tx).conflicts.len() == 0,
    decreases n,
{
    if n > 0 {
        lemma_uncontended(ids, (n - 1) as nat, p, tx);
        law_single_sided(p, tx, ids[n - 1]);
        assert(!contended_at(p, ids[n - 1]));
    }
}

/// Changes to different entities never collide: where the sides contend
/// for no entity, the merge is clean, and every entity that a side settles
/// stands in the merged text with that side's region text.
pub proof fn law_disjoint_changes_merge(
    base: Seq<char>,
    ours: Seq<char>,
    theirs: Seq<char>,
    p: Parsed,
    id: Seq<char>,
)
    requires
        uncontended(p),
        ids_of(p.ours).contains(id) || ids_of(p.theirs).contains(id),
    ensures
        entity_outcome(base, ours, theirs, p).conflicts.len() == 0,
        settled_side(
            last_with_id(p.base, id),
            last_with_id(p.ours, id),
            last_with_id(p.theirs, id),
        ) == Some(true) ==> has_sub(
            entity_outcome(base, ours, theirs, p).content,
            side_text(last_with_id(p.ours, id), texts_of(base, ours, theirs, p).ours),
        ),
        settled_side(
            last_with_id(p.base, id),
            last_with_id(p.ours, id),
            last_with_id(p.theirs, id),
        ) == Some(false) ==> has_sub(
            entity_outcome(base, ours, theirs, p).content,
            side_text(last_with_id(p.theirs, id), texts_of(base, ours, theirs, p).theirs),
        ),
{
    let tx = texts_of(base, ours, theirs, p);
    let ids = all_ids(p);
    lemma_uncontended(ids, ids.len(), p, tx);
    law_single_sided(p, tx, id);
    law_resolved_entity_stands(base, ours, theirs, p, id);
}

} // verus!

//! Laws of the reassembly: what stands where in the merged text.

use vstd::prelude::*;
use crate::reconstruct::{
    anchor, emitted, inserted, inserted_all, inserted_at, piece, rebuild, reconstructed, Plan,
};
use crate::region::FileRegionView;
use crate::text::{has_sub, occurs_at};

verus! {

/// `x` set between `before` and `after`.
pub open spec fn around(before: Seq<char>, x: Seq<char>, after: Seq<char>) -> Seq<char> {
    before + x + after
}

/// `x` and then `y`, with text before, between and after them.
pub open spec fn in_order(
    before: Seq<char>,
    x: Seq<char>,
    between: Seq<char>,
    y: Seq<char>,
    after: Seq<char>,
) -> Seq<char> {
    before + x + between + y + after
}

/// A text that is set between two others occurs in the whole.
pub proof fn lemma_around_has_sub(before: Seq<char>, x: Seq<char>, after: Seq<char>)
    ensures
        has_sub(around(before, x, after), x),
{
    let s = around(before, x, after);
    assert(s.subrange(before.len() as int, (before.len() + x.len()) as int) =~= x);
    assert(occurs_at(s, x, before.len() as int));
}

/// The text that the regions `from..to` of the skeleton add.
pub open spec fn stretch(p: Plan, skeleton: Seq<FileRegionView>, from: nat, to: nat) -> Seq<char>
    decreases to,
{
    if to <= from {
        Seq::empty()
    } else {
        stretch(p, skeleton, from, (to - 1) as nat) + piece(
            p,
            skeleton[to - 1],
            !rebuild(p, skeleton, (to - 1) as nat).seen_entity,
        )
    }
}

/// What follows the last region: their entities without an anchor, where
/// the skeleton has no entity.
pub open spec fn closing(p: Plan, skeleton: Seq<FileRegionView>) -> Seq<char> {
    if rebuild(p, skeleton, skeleton.len()).seen_entity {
        Seq::empty()
    } else {
        inserted_all(p, None)
    }
}

/// The assembly over `to` regions is the assembly over `from` of them,
/// followed by what the regions in between add.
pub proof fn lemma_rebuild_extends(p: Plan, skeleton: Seq<FileRegionView>, from: nat, to: nat)
    requires
        from <= to,
    ensures
        rebuild(p, skeleton, to).text == rebuild(p, skeleton, from).text + stretch(
            p,
            skeleton,
            from,
            to,
        ),
    decreases to,
{
    if to > from {
        lemma_rebuild_extends(p, skeleton, from, (to - 1) as nat);
        let prev = rebuild(p, skeleton, (to - 1) as nat);
        let add = piece(p, skeleton[to - 1], !prev.seen_entity);
        assert(rebuild(p, skeleton, to).text == prev.text + add);
        assert(rebuild(p, skeleton, from).text + (stretch(p, skeleton, from, (to - 1) as nat) + add)
            =~= rebuild(p, skeleton, from).text + stretch(p, skeleton, from, (to - 1) as nat)
            + add);
    } else {
        assert(rebuild(p, skeleton, from).text + Seq::<char>::empty() =~= rebuild(
            p,
            skeleton,
            from,
        ).text);
    }
}

/// Once an entity region has been passed, it stays passed.
pub proof fn lemma_seen_entity(p: Plan, skeleton: Seq<FileRegionView>, i: int, n: nat)
    requires
        0 <= i < n,
        skeleton[i] is Entity,
    ensures
        rebuild(p, skeleton, n).seen_entity,
    decreases n,
{
    if n - 1 > i {
        lemma_seen_entity(p, skeleton, i, (n - 1) as nat);
    }
}

/// The text before what the entity region `i` resolved to.
pub open spec fn before_entity(p: Plan, skeleton: Seq<FileRegionView>, i: int) -> Seq<char> {
    let prev = rebuild(p, skeleton, i as nat);
    prev.text + if prev.seen_entity {
        Seq::empty()
    } else {
        inserted_all(p, None)
    }
}

/// The text after what the entity region `i` resolved to.
pub open spec fn after_entity(p: Plan, skeleton: Seq<FileRegionView>, i: int) -> Seq<char> {
    inserted_all(p, Some(skeleton[i].key())) + stretch(
        p,
        skeleton,
        (i + 1) as nat,
        skeleton.len(),
    ) + closing(p, skeleton)
}

/// Localization: what an entity of the skeleton resolved to stands in the
/// merged text at the entity's place: behind everything that the regions
/// before it gave, and before everything that the regions after it give.
pub proof fn law_entity_in_place(p: Plan, skeleton: Seq<FileRegionView>, i: int)
    requires
        0 <= i < skeleton.len(),
        skeleton[i] is Entity,
    ensures
        reconstructed(p, skeleton) == around(
            before_entity(p, skeleton, i),
            emitted(p.resolved, skeleton[i].key()),
            after_entity(p, skeleton, i),
        ),
        has_sub(reconstructed(p, skeleton), emitted(p.resolved, skeleton[i].key())),
{
    let n = skeleton.len();
    let prev = rebuild(p, skeleton, i as nat);
    let id = skeleton[i].key();
    lemma_rebuild_extends(p, skeleton, (i + 1) as nat, n);
    let here = piece(p, skeleton[i], !prev.seen_entity);
    assert(rebuild(p, skeleton, (i + 1) as nat).text == prev.text + here);
    let whole = reconstructed(p, skeleton);
    assert(whole == rebuild(p, skeleton, n).text + closing(p, skeleton));
    assert(whole =~= around(
        before_entity(p, skeleton, i),
        emitted(p.resolved, id),
        after_entity(p, skeleton, i),
    ));
    lemma_around_has_sub(
        before_entity(p, skeleton, i),
        emitted(p.resolved, id),
        after_entity(p, skeleton, i),
    );
}

/// Skeleton ordering: of two entities of the skeleton, the one that comes
/// first there comes first in the merged text.
pub proof fn law_skeleton_order(p: Plan, skeleton: Seq<FileRegionView>, i: int, j: int)
    requires
        0 <= i < j < skeleton.len(),
        skeleton[i] is Entity,
        skeleton[j] is Entity,
    ensures
        exists|before: Seq<char>, between: Seq<char>, after: Seq<char>|
            reconstructed(p, skeleton) == #[trigger] in_order(
                before,
                emitted(p.resolved, skeleton[i].key()),
                between,
                emitted(p.resolved, skeleton[j].key()),
                after,
            ),
{
    let n = skeleton.len();
    law_entity_in_place(p, skeleton, j);
    lemma_rebuild_extends(p, skeleton, (i + 1) as nat, j as nat);
    lemma_seen_entity(p, skeleton, i, j as nat);
    let prev = rebuild(p, skeleton, i as nat);
    let x = emitted(p.resolved, skeleton[i].key());
    let y = emitted(p.resolved, skeleton[j].key());
    let before = before_entity(p, skeleton, i);
    let between = inserted_all(p, Some(skeleton[i].key())) + stretch(
        p,
        skeleton,
        (i + 1) as nat,
        j as nat,
    );
    let after = after_entity(p, skeleton, j);
    assert(rebuild(p, skeleton, (i + 1) as nat).text == prev.text + piece(
        p,
        skeleton[i],
        !prev.seen_entity,
    ));
    assert(before_entity(p, skeleton, j) =~= before + x + between);
    assert(reconstructed(p, skeleton) =~= in_order(before, x, between, y, after));
}

/// The text that the entity region `i` of the skeleton brings with it:
/// their entities anchored at it.
pub proof fn law_anchored_in_place(p: Plan, skeleton: Seq<FileRegionView>, i: int)
    requires
        0 <= i < skeleton.len(),
        skeleton[i] is Entity,
    ensures
        has_sub(reconstructed(p, skeleton), inserted_all(p, Some(skeleton[i].key()))),
{
    law_entity_in_place(p, skeleton, i);
    let id = skeleton[i].key();
    let b = before_entity(p, skeleton, i) + emitted(p.resolved, id);
    let x = inserted_all(p, Some(id));
    let a = stretch(p, skeleton, (i + 1) as nat, skeleton.len()) + closing(p, skeleton);
    assert(reconstructed(p, skeleton) =~= around(b, x, a));
    lemma_around_has_sub(b, x, a);
}

/// Index of the first entity region among the first `n` regions, or `n`.
pub open spec fn first_entity(skeleton: Seq<FileRegionView>, n: nat) -> nat
    decreases n,
{
    if n == 0 {
        0
    } else {
        let k = first_entity(skeleton, (n - 1) as nat);
        if k < n - 1 {
            k
        } else if skeleton[n - 1] is Entity {
            (n - 1) as nat
        } else {
            n
        }
    }
}

proof fn lemma_first_entity(p: Plan, skeleton: Seq<FileRegionView>, n: nat)
    ensures
        first_entity(skeleton, n) <= n,
        first_entity(skeleton, n) < n ==> skeleton[first_entity(skeleton, n) as int] is Entity
            && !rebuild(p, skeleton, first_entity(skeleton, n)).seen_entity,
        first_entity(skeleton, n) == n ==> !rebuild(p, skeleton, n).seen_entity,
    decreases n,
{
    if n > 0 {
        lemma_first_entity(p, skeleton, (n - 1) as nat);
    }
}

/// Their entities without an anchor stand in the merged text.
pub proof fn law_unanchored_in_place(p: Plan, skeleton: Seq<FileRegionView>)
    ensures
        has_sub(reconstructed(p, skeleton), inserted_all(p, None)),
{
    let n = skeleton.len();
    let k = first_entity(skeleton, n);
    lemma_first_entity(p, skeleton, n);
    let x = inserted_all(p, None);
    if k < n {
        law_entity_in_place(p, skeleton, k as int);
        let b = rebuild(p, skeleton, k).text;
        let a = emitted(p.resolved, skeleton[k as int].key()) + after_entity(p, skeleton, k as int);
        assert(reconstructed(p, skeleton) =~= around(b, x, a));
        lemma_around_has_sub(b, x, a);
    } else {
        let b = rebuild(p, skeleton, n).text;
        assert(reconstructed(p, skeleton) =~= around(b, x, Seq::empty()));
        lemma_around_has_sub(b, x, Seq::empty());
    }
}

/// What one of their entities that is theirs alone resolved to stands among
/// the text inserted at its anchor.
pub proof fn lemma_inserted_has(p: Plan, j: int, n: nat)
    requires
        0 <= j < n <= p.theirs.len(),
        !p.ours.contains(p.theirs[j]),
    ensures
        exists|before: Seq<char>, after: Seq<char>|
            inserted(p, anchor(p.theirs, p.ours, j), n) == #[trigger] around(
                before,
                emitted(p.resolved, p.theirs[j]),
                after,
            ),
    decreases n,
{
    let a = anchor(p.theirs, p.ours, j);
    let x = emitted(p.resolved, p.theirs[j]);
    if j == n - 1 {
        assert(inserted_at(p, a, j));
        let b = inserted(p, a, (n - 1) as nat);
        assert(inserted(p, a, n) =~= around(b, x, Seq::empty()));
    } else {
        lemma_inserted_has(p, j, (n - 1) as nat);
        let (b, t) = choose|b: Seq<char>, t: Seq<char>|
            inserted(p, a, (n - 1) as nat) == #[trigger] around(b, x, t);
        if inserted_at(p, a, n - 1) {
            let more = emitted(p.resolved, p.theirs[n - 1]);
            assert(inserted(p, a, n) =~= around(b, x, t + more));
        } else {
            assert(inserted(p, a, n) == around(b, x, t));
        }
    }
}

/// The anchor of one of their entities is an entity that ours has too.
pub proof fn lemma_anchor_is_ours(theirs: Seq<Seq<char>>, ours: Seq<Seq<char>>, j: int)
    ensures
        anchor(theirs, ours, j) matches Some(id) ==> ours.contains(id),
    decreases j,
{
    if j > 0 && !ours.contains(theirs[j - 1]) {
        lemma_anchor_is_ours(theirs, ours, j - 1);
    }
}

/// A text that occurs in a part of a text occurs in the whole.
pub proof fn lemma_has_sub_trans(s: Seq<char>, mid: Seq<char>, x: Seq<char>)
    requires
        has_sub(s, mid),
        has_sub(mid, x),
    ensures
        has_sub(s, x),
{
    let i = choose|i: int| occurs_at(s, mid, i);
    let j = choose|j: int| occurs_at(mid, x, j);
    assert(s.subrange(i, i + mid.len()).subrange(j, j + x.len()) =~= s.subrange(
        i + j,
        i + j + x.len(),
    ));
    assert(occurs_at(s, x, i + j));
}

/// Their entities that are theirs alone keep their order: of two with the
/// same anchor, the one that comes first in theirs comes first in the text
/// inserted at the anchor.
pub proof fn law_inserted_order(p: Plan, j: int, k: int)
    requires
        0 <= j < k < p.theirs.len(),
        !p.ours.contains(p.theirs[j]),
        !p.ours.contains(p.theirs[k]),
        anchor(p.theirs, p.ours, j) == anchor(p.theirs, p.ours, k),
    ensures
        exists|before: Seq<char>, between: Seq<char>, after: Seq<char>|
            inserted_all(p, anchor(p.theirs, p.ours, j)) == #[trigger] in_order(
                before,
                emitted(p.resolved, p.theirs[j]),
                between,
                emitted(p.resolved, p.theirs[k]),
                after,
            ),
{
    let a = anchor(p.theirs, p.ours, j);
    let x = emitted(p.resolved, p.theirs[j]);
    let y = emitted(p.resolved, p.theirs[k]);
    lemma_inserted_has(p, j, k as nat);
    let (b, t) = choose|b: Seq<char>, t: Seq<char>|
        inserted(p, a, k as nat) == #[trigger] around(b, x, t);
    assert(inserted_at(p, a, k));
    assert(inserted(p, a, (k + 1) as nat) == inserted(p, a, k as nat) + y);
    lemma_inserted_tail(p, a, (k + 1) as nat, p.theirs.len());
    let rest = inserted_span(p, a, (k + 1) as nat, p.theirs.len());
    assert(inserted_all(p, a) =~= in_order(b, x, t, y, rest));
}

/// The text inserted at the anchor `a` for their entities `from..to`.
pub open spec fn inserted_span(p: Plan, a: Option<Seq<char>>, from: nat, to: nat) -> Seq<char>
    decreases to,
{
    if to <= from {
        Seq::empty()
    } else {
        inserted_span(p, a, from, (to - 1) as nat) + if inserted_at(p, a, to - 1) {
            emitted(p.resolved, p.theirs[to - 1])
        } else {
            Seq::empty()
        }
    }
}

/// What is inserted among more of their entities extends what is inserted
/// among fewer.
pub proof fn lemma_inserted_tail(p: Plan, a: Option<Seq<char>>, from: nat, to: nat)
    requires
        from <= to,
    ensures
        inserted(p, a, to) == inserted(p, a, from) + inserted_span(p, a, from, to),
    decreases to,
{
    if to == from {
        assert(inserted(p, a, to) =~= inserted(p, a, from) + Seq::<char>::empty());
    } else {
        lemma_inserted_tail(p, a, from, (to - 1) as nat);
        let rest = inserted_span(p, a, from, (to - 1) as nat);
        if inserted_at(p, a, to - 1) {
            let more = emitted(p.resolved, p.theirs[to - 1]);
            assert(inserted(p, a, to) =~= inserted(p, a, from) + (rest + more));
        } else {
            assert(inserted(p, a, to) =~= inserted(p, a, from) + (rest + Seq::<char>::empty()));
        }
    }
}

/// Two texts that each hold a part hold the parts in their order when
/// they stand in a whole in theirs.
proof fn lemma_two_blocks(
    whole: Seq<char>,
    pre: Seq<char>,
    first: Seq<char>,
    mid: Seq<char>,
    second: Seq<char>,
    post: Seq<char>,
    b1: Seq<char>,
    x: Seq<char>,
    t1: Seq<char>,
    b2: Seq<char>,
    y: Seq<char>,
    t2: Seq<char>,
)
    requires
        whole == pre + first + mid + second + post,
        first == around(b1, x, t1),
        second == around(b2, y, t2),
    ensures
        whole == in_order(pre + b1, x, t1 + mid + b2, y, t2 + post),
{
    assert(whole =~= in_order(pre + b1, x, t1 + mid + b2, y, t2 + post));
}

/// The text between the entity regions `i1` and `i2` of the skeleton, each
/// without what is anchored at it.
pub open spec fn between_anchors(p: Plan, skeleton: Seq<FileRegionView>, i1: int, i2: int) -> Seq<
    char,
> {
    stretch(p, skeleton, (i1 + 1) as nat, i2 as nat) + emitted(p.resolved, skeleton[i2].key())
}

/// The merged text, laid out around what is anchored at two entities of
/// the skeleton.
proof fn lemma_anchored_blocks(p: Plan, skeleton: Seq<FileRegionView>, i1: int, i2: int)
    requires
        0 <= i1 < i2 < skeleton.len(),
        skeleton[i1] is Entity,
        skeleton[i2] is Entity,
    ensures
        reconstructed(p, skeleton) == (before_entity(p, skeleton, i1) + emitted(
            p.resolved,
            skeleton[i1].key(),
        )) + inserted_all(p, Some(skeleton[i1].key())) + between_anchors(p, skeleton, i1, i2)
            + inserted_all(p, Some(skeleton[i2].key())) + (stretch(
            p,
            skeleton,
            (i2 + 1) as nat,
            skeleton.len(),
        ) + closing(p, skeleton)),
{
    let n = skeleton.len();
    let whole = reconstructed(p, skeleton);
    let e1 = emitted(p.resolved, skeleton[i1].key());
    let e2 = emitted(p.resolved, skeleton[i2].key());
    let in1 = inserted_all(p, Some(skeleton[i1].key()));
    let in2 = inserted_all(p, Some(skeleton[i2].key()));
    let st = stretch(p, skeleton, (i1 + 1) as nat, i2 as nat);
    let post = stretch(p, skeleton, (i2 + 1) as nat, n) + closing(p, skeleton);
    let lead = before_entity(p, skeleton, i1);
    let upto = rebuild(p, skeleton, i2 as nat).text;
    assert(whole == upto + e2 + (in2 + post)) by {
        law_entity_in_place(p, skeleton, i2);
        lemma_seen_entity(p, skeleton, i1, i2 as nat);
        assert(before_entity(p, skeleton, i2) =~= upto);
        assert(after_entity(p, skeleton, i2) =~= in2 + post);
    }
    assert(upto == lead + e1 + in1 + st) by {
        lemma_rebuild_extends(p, skeleton, (i1 + 1) as nat, i2 as nat);
        let at1 = rebuild(p, skeleton, i1 as nat);
        assert(rebuild(p, skeleton, (i1 + 1) as nat).text == at1.text + piece(
            p,
            skeleton[i1],
            !at1.seen_entity,
        ));
        assert(at1.text + piece(p, skeleton[i1], !at1.seen_entity) =~= lead + e1 + in1);
    }
    assert(whole =~= (lead + e1) + in1 + (st + e2) + in2 + post);
}

/// Our order decides between their entities with different anchors: of two
/// entities that only theirs has, the one anchored at the earlier entity of
/// the skeleton comes first in the merged text.
pub proof fn law_anchor_order(
    p: Plan,
    skeleton: Seq<FileRegionView>,
    j: int,
    k: int,
    i1: int,
    i2: int,
)
    requires
        0 <= j < p.theirs.len(),
        0 <= k < p.theirs.len(),
        !p.ours.contains(p.theirs[j]),
        !p.ours.contains(p.theirs[k]),
        0 <= i1 < i2 < skeleton.len(),
        skeleton[i1] is Entity,
        skeleton[i2] is Entity,
        anchor(p.theirs, p.ours, j) == Some(skeleton[i1].key()),
        anchor(p.theirs, p.ours, k) == Some(skeleton[i2].key()),
    ensures
        exists|before: Seq<char>, between: Seq<char>, after: Seq<char>|
            reconstructed(p, skeleton) == #[trigger] in_order(
                before,
                emitted(p.resolved, p.theirs[j]),
                between,
                emitted(p.resolved, p.theirs[k]),
                after,
            ),
{
    let x = emitted(p.resolved, p.theirs[j]);
    let y = emitted(p.resolved, p.theirs[k]);
    let in1 = inserted_all(p, Some(skeleton[i1].key()));
    let in2 = inserted_all(p, Some(skeleton[i2].key()));
    let pre = before_entity(p, skeleton, i1) + emitted(p.resolved, skeleton[i1].key());
    let mid = between_anchors(p, skeleton, i1, i2);
    let post = stretch(p, skeleton, (i2 + 1) as nat, skeleton.len()) + closing(p, skeleton);
    lemma_anchored_blocks(p, skeleton, i1, i2);
    lemma_inserted_has(p, j, p.theirs.len());
    lemma_inserted_has(p, k, p.theirs.len());
    let (b1, t1) = choose|b: Seq<char>, t: Seq<char>| in1 == #[trigger] around(b, x, t);
    let (b2, t2) = choose|b: Seq<char>, t: Seq<char>| in2 == #[trigger] around(b, y, t);
    lemma_two_blocks(reconstructed(p, skeleton), pre, in1, mid, in2, post, b1, x, t1, b2, y, t2);
}

/// The merged text, laid out around their entities without an anchor and
/// what is anchored at an entity of the skeleton.
proof fn lemma_unanchored_blocks(p: Plan, skeleton: Seq<FileRegionView>, i: int) -> (r: (
    Seq<char>,
    Seq<char>,
))
    requires
        0 <= i < skeleton.len(),
        skeleton[i] is Entity,
    ensures
        reconstructed(p, skeleton) == r.0 + inserted_all(p, None) + r.1 + inserted_all(
            p,
            Some(skeleton[i].key()),
        ) + (stretch(p, skeleton, (i + 1) as nat, skeleton.len()) + closing(p, skeleton)),
{
    let n = skeleton.len();
    let whole = reconstructed(p, skeleton);
    let e2 = emitted(p.resolved, skeleton[i].key());
    let in0 = inserted_all(p, None);
    let in2 = inserted_all(p, Some(skeleton[i].key()));
    let post = stretch(p, skeleton, (i + 1) as nat, n) + closing(p, skeleton);
    let f = first_entity(skeleton, n);
    lemma_first_entity(p, skeleton, n);
    lemma_seen_entity(p, skeleton, i, n);
    if f > i {
        lemma_seen_entity(p, skeleton, i, f);
    }
    let lead = rebuild(p, skeleton, f).text;
    assert(before_entity(p, skeleton, f as int) == lead + in0);
    if f == i {
        assert(whole == (lead + in0) + e2 + (in2 + post)) by {
            law_entity_in_place(p, skeleton, i);
            assert(after_entity(p, skeleton, i) =~= in2 + post);
        }
        assert(whole =~= lead + in0 + e2 + in2 + post);
        (lead, e2)
    } else {
        lemma_anchored_blocks(p, skeleton, f as int, i);
        let mid = emitted(p.resolved, skeleton[f as int].key()) + inserted_all(
            p,
            Some(skeleton[f as int].key()),
        ) + between_anchors(p, skeleton, f as int, i);
        assert(whole =~= lead + in0 + mid + in2 + post);
        (lead, mid)
    }
}

/// Their entities without an anchor come before those that have one: an
/// entity that only theirs has and that no shared entity precedes comes
/// before every entity anchored in the skeleton.
pub proof fn law_unanchored_first(
    p: Plan,
    skeleton: Seq<FileRegionView>,
    j: int,
    k: int,
    i: int,
)
    requires
        0 <= j < p.theirs.len(),
        0 <= k < p.theirs.len(),
        !p.ours.contains(p.theirs[j]),
        !p.ours.contains(p.theirs[k]),
        0 <= i < skeleton.len(),
        skeleton[i] is Entity,
        anchor(p.theirs, p.ours, j) is None,
        anchor(p.theirs, p.ours, k) == Some(skeleton[i].key()),
    ensures
        exists|before: Seq<char>, between: Seq<char>, after: Seq<char>|
            reconstructed(p, skeleton) == #[trigger] in_order(
                before,
                emitted(p.resolved, p.theirs[j]),
                between,
                emitted(p.resolved, p.theirs[k]),
                after,
            ),
{
    let x = emitted(p.resolved, p.theirs[j]);
    let y = emitted(p.resolved, p.theirs[k]);
    let in0 = inserted_all(p, None);
    let in2 = inserted_all(p, Some(skeleton[i].key()));
    let post = stretch(p, skeleton, (i + 1) as nat, skeleton.len()) + closing(p, skeleton);
    let (pre, mid) = lemma_unanchored_blocks(p, skeleton, i);
    lemma_inserted_has(p, j, p.theirs.len());
    lemma_inserted_has(p, k, p.theirs.len());
    let (b1, t1) = choose|b: Seq<char>, t: Seq<char>| in0 == #[trigger] around(b, x, t);
    let (b2, t2) = choose|b: Seq<char>, t: Seq<char>| in2 == #[trigger] around(b, y, t);
    lemma_two_blocks(reconstructed(p, skeleton), pre, in0, mid, in2, post, b1, x, t1, b2, y, t2);
}

} // verus!

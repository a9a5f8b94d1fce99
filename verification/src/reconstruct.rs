//! Reassembly of the merged file from our regions as the skeleton, the
//! resolved entities and the merged interstitials.

use vstd::prelude::*;
use crate::conflict::{conflict_markers, opt_string_view};
use crate::maps::TextMap;
use crate::region::{Entity, EntityView, FileRegion, FileRegionView};
use crate::resolve::{ResolvedEntity, ResolvedView};
use crate::text::{append_chars, append_str, string_of, view_all};

verus! {

/// The identities of the entities, in order.
pub open spec fn ids_of(es: Seq<EntityView>) -> Seq<Seq<char>> {
    Seq::new(es.len(), |i: int| es[i].id)
}

/// What a reconstruction works from.
pub struct Plan {
    /// The identities of their entities, in their order.
    pub theirs: Seq<Seq<char>>,
    /// The identities of our entities.
    pub ours: Seq<Seq<char>>,
    /// The resolved entities by identity.
    pub resolved: Map<Seq<char>, ResolvedView>,
    /// The merged interstitials by position key.
    pub gaps: Map<Seq<char>, Seq<char>>,
}

/// The text that a resolved entity contributes: its region's text when it
/// was resolved, its marker block when it is in conflict, nothing when it
/// was removed.
pub open spec fn resolved_text(r: ResolvedView) -> Seq<char> {
    match r {
        ResolvedView::Clean(r) => r.content,
        ResolvedView::Conflict(c) => conflict_markers(c),
        ResolvedView::Deleted => Seq::empty(),
    }
}

/// The text that the entity `id` contributes; nothing where it is unknown.
pub open spec fn emitted(resolved: Map<Seq<char>, ResolvedView>, id: Seq<char>) -> Seq<char> {
    if resolved.contains_key(id) {
        resolved_text(resolved[id])
    } else {
        Seq::empty()
    }
}

/// The anchor of their entity `j`: the nearest entity before it in their
/// order that ours has too, if there is one.
pub open spec fn anchor(theirs: Seq<Seq<char>>, ours: Seq<Seq<char>>, j: int) -> Option<Seq<char>>
    decreases j,
{
    if j <= 0 {
        None
    } else if ours.contains(theirs[j - 1]) {
        Some(theirs[j - 1])
    } else {
        anchor(theirs, ours, j - 1)
    }
}

/// Whether their entity `j` is theirs alone and anchored at `a`.
pub open spec fn inserted_at(p: Plan, a: Option<Seq<char>>, j: int) -> bool {
    !p.ours.contains(p.theirs[j]) && anchor(p.theirs, p.ours, j) == a
}

/// The text of the entities that are theirs alone and anchored at `a`,
/// among their first `n` entities, in their order.
pub open spec fn inserted(p: Plan, a: Option<Seq<char>>, n: nat) -> Seq<char>
    decreases n,
{
    if n == 0 {
        Seq::empty()
    } else {
        let rest = inserted(p, a, (n - 1) as nat);
        if inserted_at(p, a, n - 1) {
            rest + emitted(p.resolved, p.theirs[n - 1])
        } else {
            rest
        }
    }
}

/// All the text that is inserted at the anchor `a`.
pub open spec fn inserted_all(p: Plan, a: Option<Seq<char>>) -> Seq<char> {
    inserted(p, a, p.theirs.len())
}

/// The text for one region of the skeleton.
///
/// An interstitial gives its merged text, or its own where none was
/// merged. An entity gives what it resolved to, followed by their entities
/// anchored at it; the first entity of the skeleton is preceded by their
/// entities that have no anchor.
pub open spec fn piece(p: Plan, region: FileRegionView, first_entity: bool) -> Seq<char> {
    match region {
        FileRegionView::Interstitial(g) => if p.gaps.contains_key(g.position_key) {
            p.gaps[g.position_key]
        } else {
            g.content
        },
        FileRegionView::Entity(e) => (if first_entity {
            inserted_all(p, None)
        } else {
            Seq::empty()
        }) + emitted(p.resolved, e.entity_id) + inserted_all(p, Some(e.entity_id)),
    }
}

/// Text assembled so far and whether an entity region has been passed.
pub struct Rebuild {
    pub text: Seq<char>,
    pub seen_entity: bool,
}

/// The assembly over the first `n` regions of the skeleton.
pub open spec fn rebuild(p: Plan, skeleton: Seq<FileRegionView>, n: nat) -> Rebuild
    decreases n,
{
    if n == 0 {
        Rebuild { text: Seq::empty(), seen_entity: false }
    } else {
        let prev = rebuild(p, skeleton, (n - 1) as nat);
        let region = skeleton[n - 1];
        Rebuild {
            text: prev.text + piece(p, region, !prev.seen_entity),
            seen_entity: prev.seen_entity || region is Entity,
        }
    }
}

/// The merged file: the pieces of the skeleton in order. Where the
/// skeleton has no entity, their entities without an anchor come last.
pub open spec fn reconstructed(p: Plan, skeleton: Seq<FileRegionView>) -> Seq<char> {
    let r = rebuild(p, skeleton, skeleton.len());
    if r.seen_entity {
        r.text
    } else {
        r.text + inserted_all(p, None)
    }
}

/// The identities of the entities, in order.
pub fn entity_ids(entities: &Vec<Entity>) -> (r: Vec<String>)
    ensures
        view_all(r@) == ids_of(view_all(entities@)),
{
    let mut out: Vec<String> = Vec::new();
    let mut i: usize = 0;
    while i < entities.len()
        invariant
            i <= entities.len(),
            out.len() == i,
            forall|k: int| 0 <= k < i ==> (#[trigger] out[k])@ == entities[k].id@,
        decreases entities.len() - i,
    {
        out.push(entities[i].id.clone());
        i += 1;
    }
    assert(view_all(out@) =~= ids_of(view_all(entities@)));
    out
}

/// Whether `id` is among `ids`.
pub fn id_in(ids: &Vec<String>, id: &String) -> (r: bool)
    ensures
        r == view_all(ids@).contains(id@),
{
    let mut i: usize = 0;
    while i < ids.len()
        invariant
            i <= ids.len(),
            forall|k: int| 0 <= k < i ==> view_all(ids@)[k] != id@,
        decreases ids.len() - i,
    {
        if ids[i] == *id {
            assert(view_all(ids@)[i as int] == id@);
            return true;
        }
        i += 1;
    }
    false
}

fn same_opt(a: &Option<String>, b: &Option<String>) -> (r: bool)
    ensures
        r == (opt_string_view(*a) == opt_string_view(*b)),
{
    match (a, b) {
        (Some(x), Some(y)) => *x == *y,
        (None, None) => true,
        _ => false,
    }
}

fn append_emitted(out: &mut Vec<char>, resolved: &TextMap<ResolvedEntity>, id: &String)
    ensures
        final(out)@ == old(out)@ + emitted(resolved@, id@),
{
    match resolved.get(id) {
        Some(ResolvedEntity::Clean(r)) => {
            append_str(out, r.content.as_str());
        },
        Some(ResolvedEntity::Conflict(c)) => {
            let m = c.marker_chars();
            append_chars(out, &m);
        },
        Some(ResolvedEntity::Deleted) => {
            assert(out@ == old(out)@ + Seq::<char>::empty());
        },
        None => {
            assert(out@ == old(out)@ + Seq::<char>::empty());
        },
    }
}

/// Where each of their entities goes: whether it is theirs alone, and its
/// anchor.
struct Placement {
    only: Vec<bool>,
    anchors: Vec<Option<String>>,
}

fn place(theirs: &Vec<String>, ours: &Vec<String>) -> (r: Placement)
    ensures
        r.only.len() == theirs.len(),
        r.anchors.len() == theirs.len(),
        forall|j: int|
            0 <= j < theirs.len() ==> (#[trigger] r.only[j]) == !view_all(ours@).contains(
                view_all(theirs@)[j],
            ),
        forall|j: int|
            0 <= j < theirs.len() ==> opt_string_view(#[trigger] r.anchors[j]) == anchor(
                view_all(theirs@),
                view_all(ours@),
                j,
            ),
{
    let ghost tv = view_all(theirs@);
    let ghost ov = view_all(ours@);
    let mut only: Vec<bool> = Vec::new();
    let mut anchors: Vec<Option<String>> = Vec::new();
    let mut last: Option<String> = None;
    let mut j: usize = 0;
    while j < theirs.len()
        invariant
            j <= theirs.len(),
            tv == view_all(theirs@),
            ov == view_all(ours@),
            only.len() == j,
            anchors.len() == j,
            opt_string_view(last) == anchor(tv, ov, j as int),
            forall|k: int| 0 <= k < j ==> (#[trigger] only[k]) == !ov.contains(tv[k]),
            forall|k: int|
                0 <= k < j ==> opt_string_view(#[trigger] anchors[k]) == anchor(tv, ov, k),
        decreases theirs.len() - j,
    {
        let present = id_in(ours, &theirs[j]);
        let here = match &last {
            Some(s) => Some(s.clone()),
            None => None,
        };
        anchors.push(here);
        only.push(!present);
        if present {
            last = Some(theirs[j].clone());
        }
        assert(tv[j as int] == theirs@[j as int]@);
        j += 1;
    }
    Placement { only, anchors }
}

fn append_inserted(
    out: &mut Vec<char>,
    theirs: &Vec<String>,
    placement: &Placement,
    resolved: &TextMap<ResolvedEntity>,
    a: &Option<String>,
    Ghost(p): Ghost<Plan>,
)
    requires
        p.theirs == view_all(theirs@),
        p.resolved == resolved@,
        placement.only.len() == theirs.len(),
        placement.anchors.len() == theirs.len(),
        forall|j: int|
            0 <= j < theirs.len() ==> (#[trigger] placement.only[j]) == !p.ours.contains(
                p.theirs[j],
            ),
        forall|j: int|
            0 <= j < theirs.len() ==> opt_string_view(#[trigger] placement.anchors[j]) == anchor(
                p.theirs,
                p.ours,
                j,
            ),
    ensures
        final(out)@ == old(out)@ + inserted_all(p, opt_string_view(*a)),
{
    let ghost av = opt_string_view(*a);
    let mut j: usize = 0;
    assert(out@ == old(out)@ + inserted(p, av, 0));
    while j < theirs.len()
        invariant
            j <= theirs.len(),
            av == opt_string_view(*a),
            p.theirs == view_all(theirs@),
            p.resolved == resolved@,
            placement.only.len() == theirs.len(),
            placement.anchors.len() == theirs.len(),
            forall|k: int|
                0 <= k < theirs.len() ==> (#[trigger] placement.only[k]) == !p.ours.contains(
                    p.theirs[k],
                ),
            forall|k: int|
                0 <= k < theirs.len() ==> opt_string_view(#[trigger] placement.anchors[k])
                    == anchor(p.theirs, p.ours, k),
            out@ == old(out)@ + inserted(p, av, j as nat),
        decreases theirs.len() - j,
    {
        let ghost before = out@;
        if placement.only[j] && same_opt(&placement.anchors[j], a) {
            assert(inserted_at(p, av, j as int));
            append_emitted(out, resolved, &theirs[j]);
            assert(p.theirs[j as int] == theirs@[j as int]@);
            assert(out@ == old(out)@ + (inserted(p, av, j as nat) + emitted(
                p.resolved,
                p.theirs[j as int],
            )));
        } else {
            assert(!inserted_at(p, av, j as int));
        }
        j += 1;
    }
}

/// Reassembles the merged file.
///
/// Our regions give the order. An interstitial is replaced by its merged
/// text, an entity by what it resolved to. An entity that only theirs has
/// follows the nearest entity before it in their order that ours has too;
/// without such an entity it stands before our first entity, or at the end
/// where ours has none.
pub fn reconstruct(
    ours_regions: &Vec<FileRegion>,
    theirs_entities: &Vec<Entity>,
    ours_entities: &Vec<Entity>,
    resolved: &TextMap<ResolvedEntity>,
    gaps: &TextMap<String>,
) -> (r: String)
    ensures
        r@ == reconstructed(
            Plan {
                theirs: ids_of(view_all(theirs_entities@)),
                ours: ids_of(view_all(ours_entities@)),
                resolved: resolved@,
                gaps: gaps@,
            },
            view_all(ours_regions@),
        ),
{
    let theirs = entity_ids(theirs_entities);
    let ours = entity_ids(ours_entities);
    let ghost p = Plan {
        theirs: ids_of(view_all(theirs_entities@)),
        ours: ids_of(view_all(ours_entities@)),
        resolved: resolved@,
        gaps: gaps@,
    };
    let ghost skeleton = view_all(ours_regions@);
    let placement = place(&theirs, &ours);
    let none: Option<String> = None;
    let mut out: Vec<char> = Vec::new();
    let mut seen_entity = false;
    let mut i: usize = 0;
    while i < ours_regions.len()
        invariant
            i <= ours_regions.len(),
            skeleton == view_all(ours_regions@),
            p.theirs == view_all(theirs@),
            p.ours == view_all(ours@),
            p.resolved == resolved@,
            p.gaps == gaps@,
            none is None,
            placement.only.len() == theirs.len(),
            placement.anchors.len() == theirs.len(),
            forall|j: int|
                0 <= j < theirs.len() ==> (#[trigger] placement.only[j]) == !p.ours.contains(
                    p.theirs[j],
                ),
            forall|j: int|
                0 <= j < theirs.len() ==> opt_string_view(#[trigger] placement.anchors[j])
                    == anchor(p.theirs, p.ours, j),
            rebuild(p, skeleton, i as nat) == (Rebuild { text: out@, seen_entity: seen_entity }),
        decreases ours_regions.len() - i,
    {
        let ghost before = out@;
        assert(skeleton[i as int] == ours_regions@[i as int]@);
        match &ours_regions[i] {
            FileRegion::Interstitial(g) => {
                match gaps.get(&g.position_key) {
                    Some(t) => append_str(&mut out, t.as_str()),
                    None => append_str(&mut out, g.content.as_str()),
                }
                assert(out@ == before + piece(p, skeleton[i as int], !seen_entity));
            },
            FileRegion::Entity(e) => {
                if !seen_entity {
                    append_inserted(&mut out, &theirs, &placement, resolved, &none, Ghost(p));
                }
                let ghost lead = out@;
                append_emitted(&mut out, resolved, &e.entity_id);
                let here = Some(e.entity_id.clone());
                append_inserted(&mut out, &theirs, &placement, resolved, &here, Ghost(p));
                assert(out@ == before + piece(p, skeleton[i as int], !seen_entity)) by {
                    if seen_entity {
                        assert(lead == before + Seq::<char>::empty());
                    }
                    assert(out@ == lead + emitted(p.resolved, e.entity_id@) + inserted_all(
                        p,
                        Some(e.entity_id@),
                    ));
                }
                seen_entity = true;
            },
        }
        i += 1;
    }
    if !seen_entity {
        append_inserted(&mut out, &theirs, &placement, resolved, &none, Ghost(p));
    }
    string_of(&out)
}

} // verus!

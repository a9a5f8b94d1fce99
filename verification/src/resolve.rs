//! Resolution of one entity from its presence and its content hash in the
//! three versions.

use vstd::prelude::*;
use crate::conflict::{
    classify_conflict, conflict_complexity, ConflictKind, ConflictView, EntityConflict, MergeStats,
};
use crate::linemerge::{line_merge, merge3, result_view};
use crate::maps::TextMap;
use crate::region::{region_of, Entity, EntityRegion, EntityRegionView, EntityView};

verus! {

/// What became of one entity in the merge.
#[derive(Debug, Clone)]
pub enum ResolvedEntity {
    /// Resolved: this region stands in the merged file.
    Clean(EntityRegion),
    /// Unresolved: a marker block stands in the merged file.
    Conflict(EntityConflict),
    /// Removed: nothing stands in the merged file.
    Deleted,
}

/// The mathematical content of a [`ResolvedEntity`].
pub enum ResolvedView {
    Clean(EntityRegionView),
    Conflict(ConflictView),
    Deleted,
}

impl View for ResolvedEntity {
    type V = ResolvedView;

    open spec fn view(&self) -> ResolvedView {
        match self {
            ResolvedEntity::Clean(r) => ResolvedView::Clean(r@),
            ResolvedEntity::Conflict(c) => ResolvedView::Conflict(c@),
            ResolvedEntity::Deleted => ResolvedView::Deleted,
        }
    }
}

impl ResolvedEntity {
    /// A copy of this resolution.
    pub fn copy(&self) -> (r: ResolvedEntity)
        ensures
            r@ == self@,
    {
        match self {
            ResolvedEntity::Clean(r) => ResolvedEntity::Clean(r.copy()),
            ResolvedEntity::Conflict(c) => ResolvedEntity::Conflict(c.copy()),
            ResolvedEntity::Deleted => ResolvedEntity::Deleted,
        }
    }
}

/// The counter that a resolution adds to.
pub enum Tally {
    Unchanged,
    OursOnly,
    TheirsOnly,
    BothMerged,
    Conflicted,
    AddedOurs,
    AddedTheirs,
    Deleted,
    Nothing,
}

/// The sum of the counters that count entities by how they were resolved.
pub open spec fn total(s: MergeStats) -> int {
    s.entities_unchanged + s.entities_ours_only + s.entities_theirs_only
        + s.entities_both_changed_merged + s.entities_conflicted + s.entities_added_ours
        + s.entities_added_theirs + s.entities_deleted
}

/// The counters after one more entity was resolved.
pub open spec fn counted(s: MergeStats, t: Tally) -> MergeStats {
    match t {
        Tally::Unchanged => MergeStats {
            entities_unchanged: (s.entities_unchanged + 1) as usize,
            ..s
        },
        Tally::OursOnly => MergeStats {
            entities_ours_only: (s.entities_ours_only + 1) as usize,
            ..s
        },
        Tally::TheirsOnly => MergeStats {
            entities_theirs_only: (s.entities_theirs_only + 1) as usize,
            ..s
        },
        Tally::BothMerged => MergeStats {
            entities_both_changed_merged: (s.entities_both_changed_merged + 1) as usize,
            ..s
        },
        Tally::Conflicted => MergeStats {
            entities_conflicted: (s.entities_conflicted + 1) as usize,
            ..s
        },
        Tally::AddedOurs => MergeStats {
            entities_added_ours: (s.entities_added_ours + 1) as usize,
            ..s
        },
        Tally::AddedTheirs => MergeStats {
            entities_added_theirs: (s.entities_added_theirs + 1) as usize,
            ..s
        },
        Tally::Deleted => MergeStats { entities_deleted: (s.entities_deleted + 1) as usize, ..s },
        Tally::Nothing => s,
    }
}

/// The text of an entity in one version: its region's text where the
/// version's regions have one for its identity, else the parser's
/// extraction. The text of an absent entity is empty.
pub open spec fn side_text(e: Option<EntityView>, texts: Map<Seq<char>, Seq<char>>) -> Seq<char> {
    match e {
        Some(e) => if texts.contains_key(e.id) {
            texts[e.id]
        } else {
            e.content
        },
        None => Seq::empty(),
    }
}

/// The conflict on entity `e` of the given kind between the given texts.
pub open spec fn conflict_of(
    e: EntityView,
    kind: ConflictKind,
    base: Option<Seq<char>>,
    ours: Option<Seq<char>>,
    theirs: Option<Seq<char>>,
) -> ConflictView {
    ConflictView {
        entity_name: e.name,
        entity_type: e.entity_type,
        kind: kind,
        complexity: conflict_complexity(base, ours, theirs),
        ours_content: ours,
        theirs_content: theirs,
        base_content: base,
    }
}

/// Whether the entity is present in all three versions and was changed by
/// both sides in different ways, so that only a merge of the texts can
/// resolve it.
pub open spec fn needs_line_merge(
    b: Option<EntityView>,
    o: Option<EntityView>,
    t: Option<EntityView>,
) -> bool {
    b is Some && o is Some && t is Some && o->0.content_hash != b->0.content_hash
        && t->0.content_hash != b->0.content_hash && o->0.content_hash != t->0.content_hash
}

/// The outcome for one entity and the counter it adds to.
pub struct Resolution {
    pub entity: ResolvedView,
    pub tally: Tally,
}

/// The clean outcome: entity `e` with the text `text`.
pub open spec fn clean(e: EntityView, text: Seq<char>, tally: Tally) -> Resolution {
    Resolution { entity: ResolvedView::Clean(region_of(e, text)), tally: tally }
}

/// The conflicting outcome.
pub open spec fn conflicting(c: ConflictView) -> Resolution {
    Resolution { entity: ResolvedView::Conflict(c), tally: Tally::Conflicted }
}

/// The outcome for an entity by its presence in base, ours and theirs
/// (`b`, `o`, `t`), its texts there (`bt`, `ot`, `tt`), and the result
/// `merged` of merging those texts line by line.
///
/// Present in all three: unchanged or changed by one side, that side's
/// region; changed by both to the same content, our region; changed by both
/// differently, the merged text under our identity, or a conflict where the
/// texts do not merge. Present in the base and one side: removed when that
/// side left it unchanged, else a conflict. Absent from the base: the
/// adding side's region; added by both, our region when the contents agree,
/// else a conflict. Present in the base alone: removed.
pub open spec fn resolution(
    b: Option<EntityView>,
    o: Option<EntityView>,
    t: Option<EntityView>,
    bt: Seq<char>,
    ot: Seq<char>,
    tt: Seq<char>,
    merged: Result<Seq<char>, Seq<char>>,
) -> Resolution {
    match (b, o, t) {
        (Some(b), Some(o), Some(t)) => {
            let ours_modified = o.content_hash != b.content_hash;
            let theirs_modified = t.content_hash != b.content_hash;
            if !ours_modified && !theirs_modified {
                clean(o, ot, Tally::Unchanged)
            } else if ours_modified && !theirs_modified {
                clean(o, ot, Tally::OursOnly)
            } else if !ours_modified && theirs_modified {
                clean(t, tt, Tally::TheirsOnly)
            } else if o.content_hash == t.content_hash {
                clean(o, ot, Tally::BothMerged)
            } else {
                match merged {
                    Ok(m) => clean(o, m, Tally::BothMerged),
                    Err(_) => conflicting(
                        conflict_of(o, ConflictKind::BothModified, Some(bt), Some(ot), Some(tt)),
                    ),
                }
            }
        },
        (Some(b), Some(o), None) => {
            if o.content_hash != b.content_hash {
                conflicting(
                    conflict_of(
                        o,
                        ConflictKind::ModifyDelete { modified_in_ours: true },
                        Some(bt),
                        Some(ot),
                        None,
                    ),
                )
            } else {
                Resolution { entity: ResolvedView::Deleted, tally: Tally::Deleted }
            }
        },
        (Some(b), None, Some(t)) => {
            if t.content_hash != b.content_hash {
                conflicting(
                    conflict_of(
                        t,
                        ConflictKind::ModifyDelete { modified_in_ours: false },
                        Some(bt),
                        None,
                        Some(tt),
                    ),
                )
            } else {
                Resolution { entity: ResolvedView::Deleted, tally: Tally::Deleted }
            }
        },
        (None, Some(o), None) => clean(o, ot, Tally::AddedOurs),
        (None, None, Some(t)) => clean(t, tt, Tally::AddedTheirs),
        (None, Some(o), Some(t)) => {
            if o.content_hash == t.content_hash {
                clean(o, ot, Tally::AddedOurs)
            } else {
                conflicting(conflict_of(o, ConflictKind::BothAdded, None, Some(ot), Some(tt)))
            }
        },
        (Some(_), None, None) => Resolution {
            entity: ResolvedView::Deleted,
            tally: Tally::Deleted,
        },
        (None, None, None) => Resolution { entity: ResolvedView::Deleted, tally: Tally::Nothing },
    }
}

/// The outcome for an entity, given the region texts of the three versions
/// by entity identity.
pub open spec fn entity_resolution(
    b: Option<EntityView>,
    o: Option<EntityView>,
    t: Option<EntityView>,
    base_texts: Map<Seq<char>, Seq<char>>,
    ours_texts: Map<Seq<char>, Seq<char>>,
    theirs_texts: Map<Seq<char>, Seq<char>>,
) -> Resolution {
    let bt = side_text(b, base_texts);
    let ot = side_text(o, ours_texts);
    let tt = side_text(t, theirs_texts);
    resolution(b, o, t, bt, ot, tt, line_merge(bt, ot, tt))
}

/// The view of an optional entity.
pub open spec fn opt_entity_view(e: Option<&Entity>) -> Option<EntityView> {
    match e {
        Some(e) => Some(e@),
        None => None,
    }
}

fn region_with(e: &Entity, text: String) -> (r: EntityRegion)
    ensures
        r@ == region_of(e@, text@),
{
    EntityRegion {
        entity_id: e.id.clone(),
        entity_name: e.name.clone(),
        entity_type: e.entity_type.clone(),
        content: text,
        start_line: e.start_line,
        end_line: e.end_line,
    }
}

fn conflict_with(
    e: &Entity,
    kind: ConflictKind,
    base: Option<&String>,
    ours: Option<&String>,
    theirs: Option<&String>,
) -> (r: EntityConflict)
    ensures
        r@ == conflict_of(e@, kind, opt_text(base), opt_text(ours), opt_text(theirs)),
{
    let b = match base {
        Some(s) => Some(s.as_str()),
        None => None,
    };
    let o = match ours {
        Some(s) => Some(s.as_str()),
        None => None,
    };
    let t = match theirs {
        Some(s) => Some(s.as_str()),
        None => None,
    };
    let complexity = classify_conflict(b, o, t);
    EntityConflict {
        entity_name: e.name.clone(),
        entity_type: e.entity_type.clone(),
        kind: kind,
        complexity: complexity,
        ours_content: match ours {
            Some(s) => Some(s.clone()),
            None => None,
        },
        theirs_content: match theirs {
            Some(s) => Some(s.clone()),
            None => None,
        },
        base_content: match base {
            Some(s) => Some(s.clone()),
            None => None,
        },
    }
}

/// The view of an optional string reference.
pub open spec fn opt_text(o: Option<&String>) -> Option<Seq<char>> {
    match o {
        Some(s) => Some(s@),
        None => None,
    }
}

/// Whether only a merge of the texts can resolve the entity.
pub fn must_merge_lines(base: Option<&Entity>, ours: Option<&Entity>, theirs: Option<&Entity>) -> (r:
    bool)
    ensures
        r == needs_line_merge(
            opt_entity_view(base),
            opt_entity_view(ours),
            opt_entity_view(theirs),
        ),
{
    match (base, ours, theirs) {
        (Some(b), Some(o), Some(t)) => {
            !(o.content_hash == b.content_hash) && !(t.content_hash == b.content_hash) && !(
            o.content_hash == t.content_hash)
        },
        _ => false,
    }
}

fn count(stats: &mut MergeStats, Ghost(t): Ghost<Tally>, which: u8)
    requires
        total(*old(stats)) < usize::MAX,
        which == match t {
            Tally::Unchanged => 0u8,
            Tally::OursOnly => 1u8,
            Tally::TheirsOnly => 2u8,
            Tally::BothMerged => 3u8,
            Tally::Conflicted => 4u8,
            Tally::AddedOurs => 5u8,
            Tally::AddedTheirs => 6u8,
            Tally::Deleted => 7u8,
            Tally::Nothing => 8u8,
        },
    ensures
        *final(stats) == counted(*old(stats), t),
{
    if which == 0 {
        stats.entities_unchanged = stats.entities_unchanged + 1;
    } else if which == 1 {
        stats.entities_ours_only = stats.entities_ours_only + 1;
    } else if which == 2 {
        stats.entities_theirs_only = stats.entities_theirs_only + 1;
    } else if which == 3 {
        stats.entities_both_changed_merged = stats.entities_both_changed_merged + 1;
    } else if which == 4 {
        stats.entities_conflicted = stats.entities_conflicted + 1;
    } else if which == 5 {
        stats.entities_added_ours = stats.entities_added_ours + 1;
    } else if which == 6 {
        stats.entities_added_theirs = stats.entities_added_theirs + 1;
    } else if which == 7 {
        stats.entities_deleted = stats.entities_deleted + 1;
    }
}

/// Resolves one entity, given the result of merging its three texts.
///
/// `merged` is read only where the entity is present in all three versions
/// and was changed by both sides in different ways.
pub fn resolve_with(
    base: Option<&Entity>,
    ours: Option<&Entity>,
    theirs: Option<&Entity>,
    base_text: &String,
    ours_text: &String,
    theirs_text: &String,
    merged: Result<String, String>,
    stats: &mut MergeStats,
) -> (r: ResolvedEntity)
    requires
        total(*old(stats)) < usize::MAX,
    ensures
        r@ == resolution(
            opt_entity_view(base),
            opt_entity_view(ours),
            opt_entity_view(theirs),
            base_text@,
            ours_text@,
            theirs_text@,
            result_view(merged),
        ).entity,
        *final(stats) == counted(
            *old(stats),
            resolution(
                opt_entity_view(base),
                opt_entity_view(ours),
                opt_entity_view(theirs),
                base_text@,
                ours_text@,
                theirs_text@,
                result_view(merged),
            ).tally,
        ),
{
    match (base, ours, theirs) {
        (Some(b), Some(o), Some(t)) => {
            let ours_modified = !(o.content_hash == b.content_hash);
            let theirs_modified = !(t.content_hash == b.content_hash);
            if !ours_modified && !theirs_modified {
                count(stats, Ghost(Tally::Unchanged), 0);
                ResolvedEntity::Clean(region_with(o, ours_text.clone()))
            } else if ours_modified && !theirs_modified {
                count(stats, Ghost(Tally::OursOnly), 1);
                ResolvedEntity::Clean(region_with(o, ours_text.clone()))
            } else if !ours_modified && theirs_modified {
                count(stats, Ghost(Tally::TheirsOnly), 2);
                ResolvedEntity::Clean(region_with(t, theirs_text.clone()))
            } else if o.content_hash == t.content_hash {
                count(stats, Ghost(Tally::BothMerged), 3);
                ResolvedEntity::Clean(region_with(o, ours_text.clone()))
            } else {
                match merged {
                    Ok(m) => {
                        count(stats, Ghost(Tally::BothMerged), 3);
                        ResolvedEntity::Clean(region_with(o, m))
                    },
                    Err(_) => {
                        count(stats, Ghost(Tally::Conflicted), 4);
                        ResolvedEntity::Conflict(
                            conflict_with(
                                o,
                                ConflictKind::BothModified,
                                Some(base_text),
                                Some(ours_text),
                                Some(theirs_text),
                            ),
                        )
                    },
                }
            }
        },
        (Some(b), Some(o), None) => {
            if !(o.content_hash == b.content_hash) {
                count(stats, Ghost(Tally::Conflicted), 4);
                ResolvedEntity::Conflict(
                    conflict_with(
                        o,
                        ConflictKind::ModifyDelete { modified_in_ours: true },
                        Some(base_text),
                        Some(ours_text),
                        None,
                    ),
                )
            } else {
                count(stats, Ghost(Tally::Deleted), 7);
                ResolvedEntity::Deleted
            }
        },
        (Some(b), None, Some(t)) => {
            if !(t.content_hash == b.content_hash) {
                count(stats, Ghost(Tally::Conflicted), 4);
                ResolvedEntity::Conflict(
                    conflict_with(
                        t,
                        ConflictKind::ModifyDelete { modified_in_ours: false },
                        Some(base_text),
                        None,
                        Some(theirs_text),
                    ),
                )
            } else {
                count(stats, Ghost(Tally::Deleted), 7);
                ResolvedEntity::Deleted
            }
        },
        (None, Some(o), None) => {
            count(stats, Ghost(Tally::AddedOurs), 5);
            ResolvedEntity::Clean(region_with(o, ours_text.clone()))
        },
        (None, None, Some(t)) => {
            count(stats, Ghost(Tally::AddedTheirs), 6);
            ResolvedEntity::Clean(region_with(t, theirs_text.clone()))
        },
        (None, Some(o), Some(t)) => {
            if o.content_hash == t.content_hash {
                count(stats, Ghost(Tally::AddedOurs), 5);
                ResolvedEntity::Clean(region_with(o, ours_text.clone()))
            } else {
                count(stats, Ghost(Tally::Conflicted), 4);
                ResolvedEntity::Conflict(
                    conflict_with(
                        o,
                        ConflictKind::BothAdded,
                        None,
                        Some(ours_text),
                        Some(theirs_text),
                    ),
                )
            }
        },
        (Some(_), None, None) => {
            count(stats, Ghost(Tally::Deleted), 7);
            ResolvedEntity::Deleted
        },
        (None, None, None) => ResolvedEntity::Deleted,
    }
}

/// The text of an entity in one version.
pub fn side_text_of(e: Option<&Entity>, texts: &TextMap<String>) -> (r: String)
    ensures
        r@ == side_text(opt_entity_view(e), texts@),
{
    match e {
        Some(e) => match texts.get(&e.id) {
            Some(t) => t.clone(),
            None => e.content.clone(),
        },
        None => String::new(),
    }
}

/// Resolves one entity from its presence and content hash in the three
/// versions, merging its texts line by line where both sides changed it in
/// different ways.
pub fn resolve_entity(
    base: Option<&Entity>,
    ours: Option<&Entity>,
    theirs: Option<&Entity>,
    base_texts: &TextMap<String>,
    ours_texts: &TextMap<String>,
    theirs_texts: &TextMap<String>,
    stats: &mut MergeStats,
) -> (r: ResolvedEntity)
    requires
        total(*old(stats)) < usize::MAX,
    ensures
        r@ == entity_resolution(
            opt_entity_view(base),
            opt_entity_view(ours),
            opt_entity_view(theirs),
            base_texts@,
            ours_texts@,
            theirs_texts@,
        ).entity,
        *final(stats) == counted(
            *old(stats),
            entity_resolution(
                opt_entity_view(base),
                opt_entity_view(ours),
                opt_entity_view(theirs),
                base_texts@,
                ours_texts@,
                theirs_texts@,
            ).tally,
        ),
{
    let bt = side_text_of(base, base_texts);
    let ot = side_text_of(ours, ours_texts);
    let tt = side_text_of(theirs, theirs_texts);
    let merged = if must_merge_lines(base, ours, theirs) {
        merge3(bt.as_str(), ot.as_str(), tt.as_str())
    } else {
        Err(String::new())
    };
    resolve_with(base, ours, theirs, &bt, &ot, &tt, merged, stats)
}

} // verus!

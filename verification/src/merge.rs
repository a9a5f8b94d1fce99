//! The merge driver: fast paths, the size gate, the parser, entity-level
//! resolution, and the line-level fallback.

use vstd::prelude::*;
use sem_core::parser::plugins::create_default_registry;
use sem_core::parser::registry::ParserRegistry;
use crate::conflict::{
    classify_conflict, conflict_complexity, zero_stats, ConflictKind, ConflictView,
    EntityConflict, MergeStats,
};
use crate::interstitial::{
    build_region_content_map, entity_texts, gap_texts, merge_interstitials, merged_gaps,
};
use crate::linemerge::{line_merge, merge3, result_view};
use crate::maps::TextMap;
use crate::parser::{parse_entities, parsed_names, top_level};
use crate::reconstruct::{id_in, ids_of, reconstruct, reconstructed, Plan};
use crate::region::{extract_regions, file_regions, Entity, EntityView};
use crate::resolve::{
    counted, entity_resolution, opt_entity_view, resolve_entity, total, Resolution,
    ResolvedEntity, ResolvedView,
};
use crate::separators::{collapse_separators, collapsed, expand_separators, expanded};
use crate::text::{blank, chars_of, is_blank, lemma_view_all_push, view_all};

verus! {

/// The outcome of a merge.
#[derive(Debug)]
pub struct MergeResult {
    /// The merged text, with marker blocks where conflicts remain.
    pub content: String,
    /// The conflicts that remain, in the order in which they were found.
    pub conflicts: Vec<EntityConflict>,
    pub stats: MergeStats,
}

/// The mathematical content of a [`MergeResult`].
pub struct MergeResultView {
    pub content: Seq<char>,
    pub conflicts: Seq<ConflictView>,
    pub stats: MergeStats,
}

impl View for MergeResult {
    type V = MergeResultView;

    open spec fn view(&self) -> MergeResultView {
        MergeResultView {
            content: self.content@,
            conflicts: view_all(self.conflicts@),
            stats: self.stats,
        }
    }
}

impl MergeResult {
    /// Whether the merge left no conflict.
    pub fn is_clean(&self) -> (r: bool)
        ensures
            r == (self@.conflicts.len() == 0),
    {
        self.conflicts.len() == 0
    }
}

/// The entities of the three versions.
pub struct Parsed {
    pub base: Seq<EntityView>,
    pub ours: Seq<EntityView>,
    pub theirs: Seq<EntityView>,
}

/// The texts of the entity regions of the three versions, by identity.
pub struct Texts {
    pub base: Map<Seq<char>, Seq<char>>,
    pub ours: Map<Seq<char>, Seq<char>>,
    pub theirs: Map<Seq<char>, Seq<char>>,
}

/// The last entity of `es` with the identity `id`.
pub open spec fn last_with_id(es: Seq<EntityView>, id: Seq<char>) -> Option<EntityView>
    decreases es.len(),
{
    if es.len() == 0 {
        None
    } else if es.last().id == id {
        Some(es.last())
    } else {
        last_with_id(es.drop_last(), id)
    }
}

/// The elements of `s` in order of first occurrence, each once.
pub open spec fn distinct(s: Seq<Seq<char>>) -> Seq<Seq<char>>
    decreases s.len(),
{
    if s.len() == 0 {
        Seq::empty()
    } else {
        let d = distinct(s.drop_last());
        if d.contains(s.last()) {
            d
        } else {
            d.push(s.last())
        }
    }
}

/// Every identity of the three versions, once: ours in our order, then
/// those that theirs adds, then those that only the base has.
pub open spec fn all_ids(p: Parsed) -> Seq<Seq<char>> {
    distinct(ids_of(p.ours) + ids_of(p.theirs) + ids_of(p.base))
}

/// What the resolution of entities has produced so far.
pub struct Progress {
    pub stats: MergeStats,
    pub conflicts: Seq<ConflictView>,
    pub resolved: Map<Seq<char>, ResolvedView>,
}

/// The outcome for the entity `id` among the entities `p` with the region
/// texts `tx`.
pub open spec fn resolution_of(id: Seq<char>, p: Parsed, tx: Texts) -> Resolution {
    entity_resolution(
        last_with_id(p.base, id),
        last_with_id(p.ours, id),
        last_with_id(p.theirs, id),
        tx.base,
        tx.ours,
        tx.theirs,
    )
}

/// The progress after the entity `id` was resolved.
pub open spec fn resolve_step(prev: Progress, id: Seq<char>, p: Parsed, tx: Texts) -> Progress {
    let r = resolution_of(id, p, tx);
    Progress {
        stats: counted(prev.stats, r.tally),
        conflicts: match r.entity {
            ResolvedView::Conflict(c) => prev.conflicts.push(c),
            _ => prev.conflicts,
        },
        resolved: prev.resolved.insert(id, r.entity),
    }
}

/// The progress after the first `n` of `ids` were resolved in order.
pub open spec fn resolve_ids(ids: Seq<Seq<char>>, n: nat, p: Parsed, tx: Texts) -> Progress
    decreases n,
{
    if n == 0 {
        Progress { stats: zero_stats(), conflicts: Seq::empty(), resolved: Map::empty() }
    } else {
        resolve_step(resolve_ids(ids, (n - 1) as nat, p, tx), ids[n - 1], p, tx)
    }
}

/// The texts of the entity regions of the three versions.
pub open spec fn texts_of(base: Seq<char>, ours: Seq<char>, theirs: Seq<char>, p: Parsed) -> Texts {
    Texts {
        base: entity_texts(file_regions(base, p.base)),
        ours: entity_texts(file_regions(ours, p.ours)),
        theirs: entity_texts(file_regions(theirs, p.theirs)),
    }
}

/// Every entity of the three versions resolved, in the order of
/// [`all_ids`].
pub open spec fn resolved_all(
    base: Seq<char>,
    ours: Seq<char>,
    theirs: Seq<char>,
    p: Parsed,
) -> Progress {
    let ids = all_ids(p);
    resolve_ids(ids, ids.len(), p, texts_of(base, ours, theirs, p))
}

/// What the merged file is reassembled from.
pub open spec fn plan_of(base: Seq<char>, ours: Seq<char>, theirs: Seq<char>, p: Parsed) -> Plan {
    Plan {
        theirs: ids_of(p.theirs),
        ours: ids_of(p.ours),
        resolved: resolved_all(base, ours, theirs, p).resolved,
        gaps: merged_gaps(
            gap_texts(file_regions(base, p.base)),
            gap_texts(file_regions(ours, p.ours)),
            gap_texts(file_regions(theirs, p.theirs)),
        ),
    }
}

/// The merge at the level of entities.
///
/// Each version is split into regions; every identity is resolved; the
/// interstitials are merged by position key; the file is reassembled along
/// our regions.
pub open spec fn entity_outcome(
    base: Seq<char>,
    ours: Seq<char>,
    theirs: Seq<char>,
    p: Parsed,
) -> MergeResultView {
    let done = resolved_all(base, ours, theirs, p);
    MergeResultView {
        content: reconstructed(plan_of(base, ours, theirs, p), file_regions(ours, p.ours)),
        conflicts: done.conflicts,
        stats: done.stats,
    }
}

/// The counters of a fallback merge.
pub open spec fn fallback_stats(conflicted: bool) -> MergeStats {
    MergeStats {
        used_fallback: true,
        entities_conflicted: if conflicted {
            1
        } else {
            0
        },
        ..zero_stats()
    }
}

/// The conflict that stands for a whole file.
pub open spec fn file_conflict(base: Seq<char>, ours: Seq<char>, theirs: Seq<char>) -> ConflictView {
    ConflictView {
        entity_name: "(file)"@,
        entity_type: "file"@,
        kind: ConflictKind::BothModified,
        complexity: conflict_complexity(Some(base), Some(ours), Some(theirs)),
        ours_content: Some(ours),
        theirs_content: Some(theirs),
        base_content: Some(base),
    }
}

/// The fallback merge, given the line merge of the expanded texts
/// (`wide`) and the line merge of the texts as they are (`plain`).
///
/// Where the expanded texts merge, the merged text is collapsed. Else the
/// texts as they are decide: merged, their merge; in conflict, the text
/// with its markers and one conflict for the file.
pub open spec fn fallback_from(
    base: Seq<char>,
    ours: Seq<char>,
    theirs: Seq<char>,
    wide: Result<Seq<char>, Seq<char>>,
    plain: Result<Seq<char>, Seq<char>>,
) -> MergeResultView {
    match wide {
        Ok(m) => MergeResultView {
            content: collapsed(m),
            conflicts: Seq::empty(),
            stats: fallback_stats(false),
        },
        Err(_) => match plain {
            Ok(m) => MergeResultView {
                content: m,
                conflicts: Seq::empty(),
                stats: fallback_stats(false),
            },
            Err(c) => MergeResultView {
                content: c,
                conflicts: seq![file_conflict(base, ours, theirs)],
                stats: fallback_stats(true),
            },
        },
    }
}

/// The line-level fallback merge.
pub open spec fn fallback_outcome(base: Seq<char>, ours: Seq<char>, theirs: Seq<char>) -> MergeResultView {
    fallback_from(
        base,
        ours,
        theirs,
        line_merge(expanded(base), expanded(ours), expanded(theirs)),
        line_merge(base, ours, theirs),
    )
}

/// Whether the parser found nothing where there was something to find: no
/// entity in a base that is not blank, or none in ours and none in theirs
/// though neither is blank.
pub open spec fn parser_came_up_empty(
    base: Seq<char>,
    ours: Seq<char>,
    theirs: Seq<char>,
    p: Parsed,
) -> bool {
    (p.base.len() == 0 && !is_blank(base)) || (p.ours.len() == 0 && !is_blank(ours)
        && p.theirs.len() == 0 && !is_blank(theirs))
}

/// The merge of three texts whose entities are known.
pub open spec fn parsed_outcome(
    base: Seq<char>,
    ours: Seq<char>,
    theirs: Seq<char>,
    p: Parsed,
) -> MergeResultView {
    if parser_came_up_empty(base, ours, theirs, p) {
        fallback_outcome(base, ours, theirs)
    } else {
        entity_outcome(base, ours, theirs, p)
    }
}

/// The length of `t` in bytes, as a machine integer.
pub open spec fn byte_len(t: Seq<char>) -> usize {
    vstd::utf8::encode_utf8(t).len() as usize
}

/// The largest input, in bytes, that is merged at the level of entities.
pub const MAX_ENTITY_MERGE_BYTES: usize = 1_000_000;

/// Whether any of the three texts is too large for the entity merge.
pub open spec fn too_large(base: Seq<char>, ours: Seq<char>, theirs: Seq<char>) -> bool {
    byte_len(base) > MAX_ENTITY_MERGE_BYTES || byte_len(ours) > MAX_ENTITY_MERGE_BYTES || byte_len(
        theirs,
    ) > MAX_ENTITY_MERGE_BYTES
}

/// A clean result with the given text and counters.
pub open spec fn clean_result(content: Seq<char>, stats: MergeStats) -> MergeResultView {
    MergeResultView { content: content, conflicts: Seq::empty(), stats: stats }
}

/// The merge of `ours` and `theirs`, both derived from `base`, where
/// `parsed` holds the entities of the three, or `None` where no parser
/// knows the file.
///
/// In order: where both sides agree, their text; where one side left the
/// base untouched, the other side's text; where a text is too large or no
/// parser knows the file, the fallback; else the merge of the parsed texts.
pub open spec fn merge_outcome(
    base: Seq<char>,
    ours: Seq<char>,
    theirs: Seq<char>,
    parsed: Option<Parsed>,
) -> MergeResultView {
    if ours == theirs {
        clean_result(ours, zero_stats())
    } else if base == ours {
        clean_result(theirs, MergeStats { entities_theirs_only: 1, ..zero_stats() })
    } else if base == theirs {
        clean_result(ours, MergeStats { entities_ours_only: 1, ..zero_stats() })
    } else if too_large(base, ours, theirs) {
        fallback_outcome(base, ours, theirs)
    } else {
        match parsed {
            None => fallback_outcome(base, ours, theirs),
            Some(p) => parsed_outcome(base, ours, theirs, p),
        }
    }
}

/// Whether none of the entities is nested in another.
pub open spec fn top_level_only(p: Parsed) -> bool {
    top_level(p.base) == p.base && top_level(p.ours) == p.ours && top_level(p.theirs) == p.theirs
}

fn fallback_counters(conflicted: bool) -> (r: MergeStats)
    ensures
        r == fallback_stats(conflicted),
{
    MergeStats {
        entities_unchanged: 0,
        entities_ours_only: 0,
        entities_theirs_only: 0,
        entities_both_changed_merged: 0,
        entities_conflicted: if conflicted {
            1
        } else {
            0
        },
        entities_added_ours: 0,
        entities_added_theirs: 0,
        entities_deleted: 0,
        used_fallback: true,
        semantic_warnings: 0,
        resolved_via_diffy: 0,
        resolved_via_inner_merge: 0,
    }
}

/// The fallback merge, given the line merge of the expanded texts and the
/// line merge of the texts as they are. `plain` is read only where `wide`
/// is a conflict.
pub fn fallback_with(
    base: &str,
    ours: &str,
    theirs: &str,
    wide: Result<String, String>,
    plain: Result<String, String>,
) -> (r: MergeResult)
    ensures
        r@ == fallback_from(base@, ours@, theirs@, result_view(wide), result_view(plain)),
{
    match wide {
        Ok(m) => {
            let r = MergeResult {
                content: collapse_separators(m.as_str(), base),
                conflicts: Vec::new(),
                stats: fallback_counters(false),
            };
            assert(view_all(r.conflicts@) =~= Seq::empty());
            r
        },
        Err(_) => match plain {
            Ok(m) => {
                let r = MergeResult {
                    content: m,
                    conflicts: Vec::new(),
                    stats: fallback_counters(false),
                };
                assert(view_all(r.conflicts@) =~= Seq::empty());
                r
            },
            Err(c) => {
                let conflict = EntityConflict {
                    entity_name: "(file)".to_owned(),
                    entity_type: "file".to_owned(),
                    kind: ConflictKind::BothModified,
                    complexity: classify_conflict(Some(base), Some(ours), Some(theirs)),
                    ours_content: Some(ours.to_owned()),
                    theirs_content: Some(theirs.to_owned()),
                    base_content: Some(base.to_owned()),
                };
                let mut conflicts: Vec<EntityConflict> = Vec::new();
                conflicts.push(conflict);
                let r = MergeResult {
                    content: c,
                    conflicts: conflicts,
                    stats: fallback_counters(true),
                };
                assert(view_all(r.conflicts@) =~= seq![file_conflict(base@, ours@, theirs@)]);
                r
            },
        },
    }
}

/// Merges line by line where the entity merge cannot be had.
///
/// The three texts are first merged with their separators on lines of
/// their own, which lets changes in different blocks line up; where that
/// conflicts, they are merged as they are.
pub fn line_level_fallback(base: &str, ours: &str, theirs: &str) -> (r: MergeResult)
    ensures
        r@ == fallback_outcome(base@, ours@, theirs@),
{
    let wide_base = expand_separators(base);
    let wide_ours = expand_separators(ours);
    let wide_theirs = expand_separators(theirs);
    let wide = merge3(wide_base.as_str(), wide_ours.as_str(), wide_theirs.as_str());
    let plain = if wide.is_err() {
        merge3(base, ours, theirs)
    } else {
        Err(String::new())
    };
    fallback_with(base, ours, theirs, wide, plain)
}

/// The last entity with the identity `id`.
pub fn find_entity<'a>(entities: &'a Vec<Entity>, id: &String) -> (r: Option<&'a Entity>)
    ensures
        opt_entity_view(r) == last_with_id(view_all(entities@), id@),
{
    let ghost es = view_all(entities@);
    let mut i: usize = entities.len();
    proof {
        assert(es.take(i as int) =~= es);
    }
    while i > 0
        invariant
            i <= entities.len(),
            es == view_all(entities@),
            last_with_id(es, id@) == last_with_id(es.take(i as int), id@),
        decreases i,
    {
        proof {
            assert(es.take(i as int).drop_last() =~= es.take(i - 1));
            assert(es.take(i as int).last() == entities@[i - 1]@);
        }
        if entities[i - 1].id == *id {
            return Some(&entities[i - 1]);
        }
        i -= 1;
    }
    None
}

/// Adds to `out` the identities of `entities` that it does not hold yet.
fn add_new_ids(out: &mut Vec<String>, entities: &Vec<Entity>, Ghost(before): Ghost<Seq<Seq<char>>>)
    requires
        view_all(old(out)@) == distinct(before),
    ensures
        view_all(final(out)@) == distinct(before + ids_of(view_all(entities@))),
{
    let ghost ids = ids_of(view_all(entities@));
    let mut i: usize = 0;
    proof {
        assert(before + ids.take(0) =~= before);
    }
    while i < entities.len()
        invariant
            i <= entities.len(),
            ids == ids_of(view_all(entities@)),
            view_all(out@) == distinct(before + ids.take(i as int)),
        decreases entities.len() - i,
    {
        let id = &entities[i].id;
        proof {
            let s = before + ids.take(i + 1);
            assert(s.drop_last() =~= before + ids.take(i as int));
            assert(s.last() == id@);
        }
        if !id_in(out, id) {
            let c = id.clone();
            proof {
                lemma_view_all_push(out@, c);
            }
            out.push(c);
        }
        i += 1;
    }
    assert(ids.take(entities.len() as int) =~= ids);
}

/// Every identity of the three versions, once: ours first.
pub fn collect_ids(ours: &Vec<Entity>, theirs: &Vec<Entity>, base: &Vec<Entity>) -> (r: Vec<String>)
    ensures
        view_all(r@) == distinct(
            ids_of(view_all(ours@)) + ids_of(view_all(theirs@)) + ids_of(view_all(base@)),
        ),
{
    let mut out: Vec<String> = Vec::new();
    let ghost o = ids_of(view_all(ours@));
    let ghost t = ids_of(view_all(theirs@));
    proof {
        assert(view_all(out@) =~= distinct(Seq::empty()));
    }
    add_new_ids(&mut out, ours, Ghost(Seq::empty()));
    assert(Seq::<Seq<char>>::empty() + o =~= o);
    add_new_ids(&mut out, theirs, Ghost(o));
    add_new_ids(&mut out, base, Ghost(o + t));
    out
}

/// Merges three texts whose entities are known.
///
/// Where the parser found nothing in a text that is not blank, the texts
/// are merged line by line. Else every entity is resolved by its presence
/// and content hash in the three versions, the text between entities is
/// merged by position, and the file is reassembled in our order.
pub fn merge_entities(
    base: &str,
    ours: &str,
    theirs: &str,
    base_entities: &Vec<Entity>,
    ours_entities: &Vec<Entity>,
    theirs_entities: &Vec<Entity>,
) -> (r: MergeResult)
    ensures
        r@ == parsed_outcome(
            base@,
            ours@,
            theirs@,
            Parsed {
                base: view_all(base_entities@),
                ours: view_all(ours_entities@),
                theirs: view_all(theirs_entities@),
            },
        ),
{
    let ghost p = Parsed {
        base: view_all(base_entities@),
        ours: view_all(ours_entities@),
        theirs: view_all(theirs_entities@),
    };
    if base_entities.len() == 0 && !blank(&chars_of(base)) {
        return line_level_fallback(base, ours, theirs);
    }
    if ours_entities.len() == 0 && !blank(&chars_of(ours)) && theirs_entities.len() == 0 && !blank(
        &chars_of(theirs),
    ) {
        return line_level_fallback(base, ours, theirs);
    }
    assert(!parser_came_up_empty(base@, ours@, theirs@, p));
    let base_regions = extract_regions(base, base_entities.as_slice());
    let ours_regions = extract_regions(ours, ours_entities.as_slice());
    let theirs_regions = extract_regions(theirs, theirs_entities.as_slice());
    let base_texts = build_region_content_map(&base_regions);
    let ours_texts = build_region_content_map(&ours_regions);
    let theirs_texts = build_region_content_map(&theirs_regions);
    let ghost tx = Texts { base: base_texts@, ours: ours_texts@, theirs: theirs_texts@ };
    let ids = collect_ids(ours_entities, theirs_entities, base_entities);
    let ghost idv = view_all(ids@);

    let mut stats = MergeStats::default();
    let mut conflicts: Vec<EntityConflict> = Vec::new();
    let mut resolved: TextMap<ResolvedEntity> = TextMap::new();
    let mut i: usize = 0;
    proof {
        assert(view_all(conflicts@) =~= Seq::empty());
    }
    while i < ids.len()
        invariant
            i <= ids.len(),
            idv == view_all(ids@),
            p.base == view_all(base_entities@),
            p.ours == view_all(ours_entities@),
            p.theirs == view_all(theirs_entities@),
            tx.base == base_texts@,
            tx.ours == ours_texts@,
            tx.theirs == theirs_texts@,
            total(stats) <= i,
            resolve_ids(idv, i as nat, p, tx) == (Progress {
                stats: stats,
                conflicts: view_all(conflicts@),
                resolved: resolved@,
            }),
        decreases ids.len() - i,
    {
        let id = &ids[i];
        assert(idv[i as int] == id@);
        let in_base = find_entity(base_entities, id);
        let in_ours = find_entity(ours_entities, id);
        let in_theirs = find_entity(theirs_entities, id);
        let resolution = resolve_entity(
            in_base,
            in_ours,
            in_theirs,
            &base_texts,
            &ours_texts,
            &theirs_texts,
            &mut stats,
        );
        match &resolution {
            ResolvedEntity::Conflict(c) => {
                let copy = c.copy();
                proof {
                    lemma_view_all_push(conflicts@, copy);
                }
                conflicts.push(copy);
            },
            _ => {},
        }
        resolved.insert(id.clone(), resolution);
        i += 1;
    }
    let gaps = merge_interstitials(&base_regions, &ours_regions, &theirs_regions);
    let content = reconstruct(&ours_regions, theirs_entities, ours_entities, &resolved, &gaps);
    MergeResult { content, conflicts, stats }
}

/// Merges `ours` and `theirs`, both derived from `base`, with the parsers
/// of `registry` for the file named `file_path`.
///
/// The result is the merge of the three texts for what the parsers found:
/// for top-level entities exactly where `registry` has a parser for the
/// file, and for no parser where it has none. Which entities a parser finds
/// is its own affair; the merge is the same function of them whatever they
/// are.
pub fn entity_merge_with_registry(
    base: &str,
    ours: &str,
    theirs: &str,
    file_path: &str,
    registry: &ParserRegistry,
) -> (r: MergeResult)
    ensures
        exists|parsed: Option<Parsed>|
            (parsed is Some <==> parsed_names(*registry).contains(file_path@)) && (parsed matches Some(
                p,
            ) ==> top_level_only(p)) && r@ == #[trigger] merge_outcome(
                base@,
                ours@,
                theirs@,
                parsed,
            ),
        ours@ != theirs@ && base@ != ours@ && base@ != theirs@ && (too_large(base@, ours@, theirs@)
            || !parsed_names(*registry).contains(file_path@)) ==> r@ == fallback_outcome(
            base@,
            ours@,
            theirs@,
        ),
        ours@ != theirs@ && base@ != ours@ && base@ != theirs@ && r@.stats.used_fallback ==> r@
            == fallback_outcome(base@, ours@, theirs@),
{
    // Where the texts decide alone, any parse that fits the registry will do.
    let ghost fit: Option<Parsed> = if parsed_names(*registry).contains(file_path@) {
        Some(Parsed { base: Seq::empty(), ours: Seq::empty(), theirs: Seq::empty() })
    } else {
        None
    };
    proof {
        reveal(Seq::filter);
        assert(top_level(Seq::<EntityView>::empty()) == Seq::<EntityView>::empty());
    }
    let base_s = base.to_owned();
    let ours_s = ours.to_owned();
    let theirs_s = theirs.to_owned();
    if ours_s == theirs_s {
        let r = MergeResult {
            content: ours_s,
            conflicts: Vec::new(),
            stats: MergeStats::default(),
        };
        assert(view_all(r.conflicts@) =~= Seq::empty());
        assert(r@ == merge_outcome(base@, ours@, theirs@, fit));
        return r;
    }
    if base_s == ours_s {
        let mut stats = MergeStats::default();
        stats.entities_theirs_only = 1;
        let r = MergeResult { content: theirs_s, conflicts: Vec::new(), stats: stats };
        assert(view_all(r.conflicts@) =~= Seq::empty());
        assert(r@ == merge_outcome(base@, ours@, theirs@, fit));
        return r;
    }
    if base_s == theirs_s {
        let mut stats = MergeStats::default();
        stats.entities_ours_only = 1;
        let r = MergeResult { content: ours_s, conflicts: Vec::new(), stats: stats };
        assert(view_all(r.conflicts@) =~= Seq::empty());
        assert(r@ == merge_outcome(base@, ours@, theirs@, fit));
        return r;
    }
    if base.len() > MAX_ENTITY_MERGE_BYTES || ours.len() > MAX_ENTITY_MERGE_BYTES || theirs.len()
        > MAX_ENTITY_MERGE_BYTES {
        let r = line_level_fallback(base, ours, theirs);
        assert(r@ == merge_outcome(base@, ours@, theirs@, fit));
        return r;
    }
    let parsed = match parse_all(registry, base, ours, theirs, file_path) {
        Some(p) => p,
        None => {
            let r = line_level_fallback(base, ours, theirs);
            assert(r@ == merge_outcome(base@, ours@, theirs@, fit));
            return r;
        },
    };
    let ghost p = Parsed {
        base: view_all(parsed.0@),
        ours: view_all(parsed.1@),
        theirs: view_all(parsed.2@),
    };
    let r = merge_entities(base, ours, theirs, &parsed.0, &parsed.1, &parsed.2);
    assert(r@ == merge_outcome(base@, ours@, theirs@, Some(p)));
    proof {
        if r@.stats.used_fallback {
            crate::laws::law_fallback_counts(base@, ours@, theirs@, Some(p));
        }
    }
    r
}

/// The top-level entities of the three texts, in the order base, ours,
/// theirs; `None` exactly where the registry has no parser for the file.
fn parse_all(registry: &ParserRegistry, base: &str, ours: &str, theirs: &str, path: &str) -> (r:
    Option<(Vec<Entity>, Vec<Entity>, Vec<Entity>)>)
    ensures
        r is Some <==> parsed_names(*registry).contains(path@),
        r matches Some(v) ==> top_level_only(
            Parsed { base: view_all(v.0@), ours: view_all(v.1@), theirs: view_all(v.2@) },
        ),
{
    let base_entities = match parse_entities(registry, base, path) {
        Some(es) => es,
        None => {
            return None;
        },
    };
    let ours_entities = match parse_entities(registry, ours, path) {
        Some(es) => es,
        None => {
            return None;
        },
    };
    let theirs_entities = match parse_entities(registry, theirs, path) {
        Some(es) => es,
        None => {
            return None;
        },
    };
    Some((base_entities, ours_entities, theirs_entities))
}

/// Merges `ours` and `theirs`, both derived from `base`, with the parsers
/// that are compiled in, for the file named `file_path`.
///
/// The result is that of [`entity_merge_with_registry`] for the registry
/// of those parsers: the merge of the three texts for what the parsers
/// found, for top-level entities exactly where that registry has a parser
/// for the file.
pub fn entity_merge(base: &str, ours: &str, theirs: &str, file_path: &str) -> (r: MergeResult)
    ensures
        exists|registry: ParserRegistry, parsed: Option<Parsed>|
            #![trigger parsed_names(registry), merge_outcome(base@, ours@, theirs@, parsed)]
            (parsed is Some <==> parsed_names(registry).contains(file_path@)) && (parsed matches Some(
                p,
            ) ==> top_level_only(p)) && r@ == merge_outcome(base@, ours@, theirs@, parsed),
        ours@ != theirs@ && base@ != ours@ && base@ != theirs@ && (too_large(base@, ours@, theirs@)
            || r@.stats.used_fallback) ==> r@ == fallback_outcome(base@, ours@, theirs@),
{
    let registry = create_default_registry();
    entity_merge_with_registry(base, ours, theirs, file_path, &registry)
}

} // verus!

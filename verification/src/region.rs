//! Partition of a file's text into entity regions and the interstitial
//! regions between and around them.

use vstd::prelude::*;
use crate::region_laws::tiles;
use crate::text::{
    append_str, chars_of, ends_with_char, join_line_range, join_lines, lemma_view_all_push, lines,
    seqs_of, split_lines, string_of, view_all,
};

verus! {

/// A declaration that a parser found in a file.
#[derive(Debug, Clone)]
pub struct Entity {
    /// Identity that survives cosmetic edits; the join key across versions.
    pub id: String,
    pub name: String,
    pub entity_type: String,
    /// Fingerprint of the entity's text, compared to tell changed from unchanged.
    pub content_hash: String,
    /// First line, 1-based, inclusive.
    pub start_line: usize,
    /// Last line, 1-based, inclusive.
    pub end_line: usize,
    /// The parser's own extraction of the entity's text.
    pub content: String,
    /// Identity of the enclosing entity, for an entity nested in another.
    pub parent_id: Option<String>,
}

/// The mathematical content of an [`Entity`].
pub struct EntityView {
    pub id: Seq<char>,
    pub name: Seq<char>,
    pub entity_type: Seq<char>,
    pub content_hash: Seq<char>,
    pub start_line: usize,
    pub end_line: usize,
    pub content: Seq<char>,
    pub parent_id: Option<Seq<char>>,
}

impl View for Entity {
    type V = EntityView;

    open spec fn view(&self) -> EntityView {
        EntityView {
            id: self.id@,
            name: self.name@,
            entity_type: self.entity_type@,
            content_hash: self.content_hash@,
            start_line: self.start_line,
            end_line: self.end_line,
            content: self.content@,
            parent_id: match self.parent_id {
                Some(p) => Some(p@),
                None => None,
            },
        }
    }
}

impl Entity {
    /// A copy of this entity.
    pub fn copy(&self) -> (r: Entity)
        ensures
            r@ == self@,
    {
        Entity {
            id: self.id.clone(),
            name: self.name.clone(),
            entity_type: self.entity_type.clone(),
            content_hash: self.content_hash.clone(),
            start_line: self.start_line,
            end_line: self.end_line,
            content: self.content.clone(),
            parent_id: match &self.parent_id {
                Some(p) => Some(p.clone()),
                None => None,
            },
        }
    }
}

/// An entity's slice of a file's text.
#[derive(Debug, Clone)]
pub struct EntityRegion {
    pub entity_id: String,
    pub entity_name: String,
    pub entity_type: String,
    /// The text, taken from the file's lines.
    pub content: String,
    pub start_line: usize,
    pub end_line: usize,
}

/// Text between or around entity regions.
#[derive(Debug, Clone)]
pub struct InterstitialRegion {
    /// Where the text stands: `file_header`, `between:<id>:<id>`,
    /// `file_footer`, or `file_only`.
    pub position_key: String,
    pub content: String,
}

/// A contiguous slice of a file.
#[derive(Debug, Clone)]
pub enum FileRegion {
    Entity(EntityRegion),
    Interstitial(InterstitialRegion),
}

/// The mathematical content of an [`EntityRegion`].
pub struct EntityRegionView {
    pub entity_id: Seq<char>,
    pub entity_name: Seq<char>,
    pub entity_type: Seq<char>,
    pub content: Seq<char>,
    pub start_line: usize,
    pub end_line: usize,
}

/// The mathematical content of an [`InterstitialRegion`].
pub struct InterstitialView {
    pub position_key: Seq<char>,
    pub content: Seq<char>,
}

/// The mathematical content of a [`FileRegion`].
pub enum FileRegionView {
    Entity(EntityRegionView),
    Interstitial(InterstitialView),
}

impl View for EntityRegion {
    type V = EntityRegionView;

    open spec fn view(&self) -> EntityRegionView {
        EntityRegionView {
            entity_id: self.entity_id@,
            entity_name: self.entity_name@,
            entity_type: self.entity_type@,
            content: self.content@,
            start_line: self.start_line,
            end_line: self.end_line,
        }
    }
}

impl View for InterstitialRegion {
    type V = InterstitialView;

    open spec fn view(&self) -> InterstitialView {
        InterstitialView { position_key: self.position_key@, content: self.content@ }
    }
}

impl View for FileRegion {
    type V = FileRegionView;

    open spec fn view(&self) -> FileRegionView {
        match self {
            FileRegion::Entity(e) => FileRegionView::Entity(e@),
            FileRegion::Interstitial(i) => FileRegionView::Interstitial(i@),
        }
    }
}

impl FileRegionView {
    /// The text of the region.
    pub open spec fn content(self) -> Seq<char> {
        match self {
            FileRegionView::Entity(e) => e.content,
            FileRegionView::Interstitial(i) => i.content,
        }
    }

    /// The entity identity of an entity region, the position key of an
    /// interstitial one.
    pub open spec fn key(self) -> Seq<char> {
        match self {
            FileRegionView::Entity(e) => e.entity_id,
            FileRegionView::Interstitial(i) => i.position_key,
        }
    }

    /// The region with `c` added at the end of its text.
    pub open spec fn with_char(self, c: char) -> FileRegionView {
        match self {
            FileRegionView::Entity(e) => FileRegionView::Entity(
                EntityRegionView { content: e.content.push(c), ..e },
            ),
            FileRegionView::Interstitial(i) => FileRegionView::Interstitial(
                InterstitialView { content: i.content.push(c), ..i },
            ),
        }
    }
}

impl EntityRegion {
    /// A copy of this region.
    pub fn copy(&self) -> (r: EntityRegion)
        ensures
            r@ == self@,
    {
        EntityRegion {
            entity_id: self.entity_id.clone(),
            entity_name: self.entity_name.clone(),
            entity_type: self.entity_type.clone(),
            content: self.content.clone(),
            start_line: self.start_line,
            end_line: self.end_line,
        }
    }
}

impl FileRegion {
    /// The text of the region.
    pub fn content(&self) -> (r: &str)
        ensures
            r@ == self@.content(),
    {
        match self {
            FileRegion::Entity(e) => e.content.as_str(),
            FileRegion::Interstitial(i) => i.content.as_str(),
        }
    }

    /// The entity identity of an entity region, the position key of an
    /// interstitial one.
    pub fn key(&self) -> (r: &str)
        ensures
            r@ == self@.key(),
    {
        match self {
            FileRegion::Entity(e) => e.entity_id.as_str(),
            FileRegion::Interstitial(i) => i.position_key.as_str(),
        }
    }

    /// Whether this is an entity region.
    pub fn is_entity(&self) -> (r: bool)
        ensures
            r == (self@ is Entity),
    {
        match self {
            FileRegion::Entity(_) => true,
            FileRegion::Interstitial(_) => false,
        }
    }
}

/// `sorted` with `e` placed behind every element that does not start later
/// than `e`.
pub open spec fn insert_by_start(sorted: Seq<EntityView>, e: EntityView) -> Seq<EntityView>
    decreases sorted.len(),
{
    if sorted.len() > 0 && sorted.last().start_line > e.start_line {
        insert_by_start(sorted.drop_last(), e).push(sorted.last())
    } else {
        sorted.push(e)
    }
}

/// The entities in ascending order of their first line; entities that start
/// on the same line keep their order.
pub open spec fn sort_by_start(es: Seq<EntityView>) -> Seq<EntityView>
    decreases es.len(),
{
    if es.len() == 0 {
        Seq::empty()
    } else {
        insert_by_start(sort_by_start(es.drop_last()), es.last())
    }
}

/// The entities of `es` at the positions that `order` lists.
pub open spec fn pick(es: Seq<EntityView>, order: Seq<usize>) -> Seq<EntityView> {
    Seq::new(order.len(), |k: int| es[order[k] as int])
}

proof fn lemma_insert_position(s: Seq<EntityView>, e: EntityView, p: int)
    requires
        0 <= p <= s.len(),
        forall|k: int| p <= k < s.len() ==> (#[trigger] s[k]).start_line > e.start_line,
        p > 0 ==> s[p - 1].start_line <= e.start_line,
    ensures
        insert_by_start(s, e) == s.insert(p, e),
    decreases s.len() - p,
{
    if p == s.len() {
        assert(s.push(e) =~= s.insert(p, e));
    } else {
        let t = s.drop_last();
        assert(s.last() == s[s.len() - 1]);
        assert forall|k: int| p <= k < t.len() implies (#[trigger] t[k]).start_line
            > e.start_line by {
            assert(t[k] == s[k]);
        }
        if p > 0 {
            assert(t[p - 1] == s[p - 1]);
        }
        lemma_insert_position(t, e, p);
        assert(t.insert(p, e).push(s.last()) =~= s.insert(p, e));
    }
}

/// Positions of the entities in ascending order of their first line.
fn order_by_start(entities: &[Entity]) -> (order: Vec<usize>)
    ensures
        order.len() == entities.len(),
        forall|k: int| 0 <= k < order.len() ==> (#[trigger] order[k]) < entities.len(),
        pick(view_all(entities@), order@) == sort_by_start(view_all(entities@)),
{
    let ghost es = view_all(entities@);
    let mut order: Vec<usize> = Vec::new();
    let mut i: usize = 0;
    proof {
        assert(es.take(0) =~= Seq::<EntityView>::empty());
        assert(pick(es, order@) =~= sort_by_start(es.take(0)));
    }
    while i < entities.len()
        invariant
            i <= entities.len(),
            es == view_all(entities@),
            order.len() == i,
            forall|k: int| 0 <= k < order.len() ==> (#[trigger] order[k]) < i,
            pick(es, order@) == sort_by_start(es.take(i as int)),
        decreases entities.len() - i,
    {
        let key = entities[i].start_line;
        let mut p: usize = order.len();
        while p > 0 && entities[order[p - 1]].start_line > key
            invariant
                p <= order.len(),
                order.len() == i,
                i < entities.len(),
                es == view_all(entities@),
                key == entities@[i as int].start_line,
                forall|k: int| 0 <= k < order.len() ==> (#[trigger] order[k]) < i,
                forall|k: int|
                    p <= k < order.len() ==> (#[trigger] pick(es, order@)[k]).start_line > key,
            decreases p,
        {
            assert(pick(es, order@)[p - 1] == es[order[p - 1] as int]);
            p -= 1;
        }
        proof {
            let s = pick(es, order@);
            let e = es[i as int];
            if p > 0 {
                assert(s[p - 1] == es[order[p - 1] as int]);
            }
            lemma_insert_position(s, e, p as int);
            assert(es.take(i + 1).drop_last() =~= es.take(i as int));
            assert(es.take(i + 1).last() == e);
            assert(pick(es, order@.insert(p as int, i)) =~= s.insert(p as int, e));
        }
        order.insert(p, i);
        i += 1;
    }
    assert(es.take(entities.len() as int) =~= es);
    order
}

/// The 0-based index of an entity's first line.
pub open spec fn start_index(e: EntityView) -> int {
    if e.start_line == 0 {
        0
    } else {
        e.start_line - 1
    }
}

/// The smaller of two integers.
pub open spec fn min_int(a: int, b: int) -> int {
    if a <= b {
        a
    } else {
        b
    }
}

/// The position key of the interstitial that precedes entity `i`.
pub open spec fn gap_key(es: Seq<EntityView>, i: int) -> Seq<char> {
    if i == 0 {
        "file_header"@
    } else {
        "between:"@ + es[i - 1].id + ":"@ + es[i].id
    }
}

/// The text of an entity within the lines `ls`: its lines, as far as the
/// file has them, each ended by a line feed; the parser's own extraction
/// when its range holds no line of the file.
pub open spec fn entity_text(ls: Seq<Seq<char>>, e: EntityView) -> Seq<char> {
    let from = start_index(e);
    let to = min_int(e.end_line as int, ls.len() as int);
    if from < to {
        join_lines(ls.subrange(from, to))
    } else {
        e.content
    }
}

/// The region of entity `e` with the text `text`.
pub open spec fn region_of(e: EntityView, text: Seq<char>) -> EntityRegionView {
    EntityRegionView {
        entity_id: e.id,
        entity_name: e.name,
        entity_type: e.entity_type,
        content: text,
        start_line: e.start_line,
        end_line: e.end_line,
    }
}

/// Regions emitted so far and the 0-based line at which the next one starts.
pub struct Walk {
    pub regions: Seq<FileRegionView>,
    pub cursor: int,
}

/// The walk after entity `i`: the lines between the cursor and the entity,
/// if there are any, become an interstitial; the entity becomes a region;
/// the cursor moves behind the entity.
pub open spec fn walk_step(ls: Seq<Seq<char>>, es: Seq<EntityView>, i: int, w: Walk) -> Walk {
    let e = es[i];
    let total = ls.len() as int;
    let from = min_int(start_index(e), total);
    let to = min_int(e.end_line as int, total);
    let gap = if w.cursor < from {
        seq![
            FileRegionView::Interstitial(
                InterstitialView {
                    position_key: gap_key(es, i),
                    content: join_lines(ls.subrange(w.cursor, from)),
                },
            ),
        ]
    } else {
        Seq::empty()
    };
    Walk {
        regions: w.regions + gap + seq![FileRegionView::Entity(region_of(e, entity_text(ls, e)))],
        cursor: to,
    }
}

/// The walk over the first `n` entities of `es`.
pub open spec fn walk(ls: Seq<Seq<char>>, es: Seq<EntityView>, n: nat) -> Walk
    decreases n,
{
    if n == 0 {
        Walk { regions: Seq::empty(), cursor: 0 }
    } else {
        walk_step(ls, es, n - 1, walk(ls, es, (n - 1) as nat))
    }
}

/// The regions of a finished walk, with the lines left over as the footer.
pub open spec fn with_footer(ls: Seq<Seq<char>>, w: Walk) -> Seq<FileRegionView> {
    if w.cursor < ls.len() {
        w.regions.push(
            FileRegionView::Interstitial(
                InterstitialView {
                    position_key: "file_footer"@,
                    content: join_lines(ls.subrange(w.cursor, ls.len() as int)),
                },
            ),
        )
    } else {
        w.regions
    }
}

/// The regions with a line feed added to the last one, where the text ends
/// in a line feed and the last region does not.
pub open spec fn with_final_newline(rs: Seq<FileRegionView>, text: Seq<char>) -> Seq<
    FileRegionView,
> {
    if ends_with_char(text, '\n') && rs.len() > 0 && !ends_with_char(rs.last().content(), '\n') {
        rs.update(rs.len() - 1, rs.last().with_char('\n'))
    } else {
        rs
    }
}

/// The ordered regions of `text` for the entities `es`.
///
/// Without entities the whole text is one interstitial, `file_only`. Else
/// the entities are taken in order of their first line; lines before the
/// first entity are the `file_header`, lines between two entities a
/// `between:` interstitial, lines after the last the `file_footer`.
pub open spec fn file_regions(text: Seq<char>, es: Seq<EntityView>) -> Seq<FileRegionView> {
    if es.len() == 0 {
        seq![
            FileRegionView::Interstitial(
                InterstitialView { position_key: "file_only"@, content: text },
            ),
        ]
    } else {
        let ls = lines(text);
        let sorted = sort_by_start(es);
        with_final_newline(with_footer(ls, walk(ls, sorted, sorted.len())), text)
    }
}

pub proof fn lemma_sort_len(es: Seq<EntityView>)
    ensures
        sort_by_start(es).len() == es.len(),
    decreases es.len(),
{
    if es.len() > 0 {
        lemma_sort_len(es.drop_last());
        lemma_insert_len(sort_by_start(es.drop_last()), es.last());
    }
}

pub proof fn lemma_insert_len(s: Seq<EntityView>, e: EntityView)
    ensures
        insert_by_start(s, e).len() == s.len() + 1,
    decreases s.len(),
{
    if s.len() > 0 && s.last().start_line > e.start_line {
        lemma_insert_len(s.drop_last(), e);
    }
}

fn min_usize(a: usize, b: usize) -> (r: usize)
    ensures
        r == min_int(a as int, b as int),
{
    if a <= b {
        a
    } else {
        b
    }
}

/// Splits `content` into its ordered regions for the given entities.
pub fn extract_regions(content: &str, entities: &[Entity]) -> (r: Vec<FileRegion>)
    ensures
        view_all(r@) == file_regions(content@, view_all(entities@)),
{
    let ghost es = view_all(entities@);
    if entities.len() == 0 {
        let only = FileRegion::Interstitial(
            InterstitialRegion {
                position_key: "file_only".to_owned(),
                content: content.to_owned(),
            },
        );
        let mut out: Vec<FileRegion> = Vec::new();
        out.push(only);
        assert(view_all(out@) =~= file_regions(content@, es));
        return out;
    }
    let text = chars_of(content);
    let ls = split_lines(&text);
    let total = ls.len();
    let order = order_by_start(entities);
    let ghost lv = seqs_of(ls@);
    let ghost sorted = sort_by_start(es);
    proof {
        lemma_sort_len(es);
    }
    let mut out: Vec<FileRegion> = Vec::new();
    let mut cursor: usize = 0;
    let mut i: usize = 0;
    assert(view_all(out@) =~= walk(lv, sorted, 0).regions);
    while i < order.len()
        invariant
            i <= order.len(),
            order.len() == entities.len(),
            total == ls.len(),
            lv == seqs_of(ls@),
            lv == lines(content@),
            es == view_all(entities@),
            sorted == sort_by_start(es),
            sorted == pick(es, order@),
            forall|k: int| 0 <= k < order.len() ==> (#[trigger] order[k]) < entities.len(),
            cursor <= total,
            cursor == walk(lv, sorted, i as nat).cursor,
            view_all(out@) == walk(lv, sorted, i as nat).regions,
        decreases order.len() - i,
    {
        let entity = &entities[order[i]];
        let ghost e = sorted[i as int];
        let ghost w = walk(lv, sorted, i as nat);
        assert(entity@ == e);
        let start0: usize = if entity.start_line == 0 {
            0
        } else {
            entity.start_line - 1
        };
        let from = min_usize(start0, total);
        let to = min_usize(entity.end_line, total);
        if cursor < from {
            let gap_text = join_line_range(&ls, cursor, from);
            let mut key: Vec<char> = Vec::new();
            if i == 0 {
                append_str(&mut key, "file_header");
            } else {
                let prev = &entities[order[i - 1]];
                assert(prev@ == sorted[i - 1]);
                append_str(&mut key, "between:");
                append_str(&mut key, prev.id.as_str());
                append_str(&mut key, ":");
                append_str(&mut key, entity.id.as_str());
            }
            assert(key@ == gap_key(sorted, i as int));
            let gap = FileRegion::Interstitial(
                InterstitialRegion {
                    position_key: string_of(&key),
                    content: string_of(&gap_text),
                },
            );
            proof {
                lemma_view_all_push(out@, gap);
            }
            out.push(gap);
        }
        let body = if start0 < to {
            let t = join_line_range(&ls, start0, to);
            string_of(&t)
        } else {
            entity.content.clone()
        };
        assert(body@ == entity_text(lv, e));
        let region = FileRegion::Entity(
            EntityRegion {
                entity_id: entity.id.clone(),
                entity_name: entity.name.clone(),
                entity_type: entity.entity_type.clone(),
                content: body,
                start_line: entity.start_line,
                end_line: entity.end_line,
            },
        );
        proof {
            lemma_view_all_push(out@, region);
            assert(view_all(out@.push(region)) =~= walk_step(lv, sorted, i as int, w).regions);
        }
        out.push(region);
        cursor = to;
        i += 1;
    }
    if cursor < total {
        let footer_text = join_line_range(&ls, cursor, total);
        let footer = FileRegion::Interstitial(
            InterstitialRegion {
                position_key: "file_footer".to_owned(),
                content: string_of(&footer_text),
            },
        );
        proof {
            lemma_view_all_push(out@, footer);
        }
        out.push(footer);
    }
    let ghost before = view_all(out@);
    assert(before == with_footer(lv, walk(lv, sorted, sorted.len())));
    let n = text.len();
    if n > 0 && text[n - 1] == '\n' && out.len() > 0 {
        let last_ends = {
            let c = chars_of(out[out.len() - 1].content());
            c.len() > 0 && c[c.len() - 1] == '\n'
        };
        if !last_ends {
            let last = out.pop().unwrap();
            let fixed = match last {
                FileRegion::Entity(e) => {
                    let mut c = chars_of(e.content.as_str());
                    c.push('\n');
                    FileRegion::Entity(
                        EntityRegion {
                            entity_id: e.entity_id,
                            entity_name: e.entity_name,
                            entity_type: e.entity_type,
                            content: string_of(&c),
                            start_line: e.start_line,
                            end_line: e.end_line,
                        },
                    )
                },
                FileRegion::Interstitial(g) => {
                    let mut c = chars_of(g.content.as_str());
                    c.push('\n');
                    FileRegion::Interstitial(
                        InterstitialRegion { position_key: g.position_key, content: string_of(&c) },
                    )
                },
            };
            assert(fixed@ == before.last().with_char('\n'));
            out.push(fixed);
            assert(view_all(out@) =~= before.update(before.len() - 1, before.last().with_char('\n')));
        }
    }
    out
}

/// Whether the entities tile a file of `total_lines` lines: each range lies
/// in the file and is not empty, and each entity ends before the next
/// begins. Entities as a parser should hand them over do.
pub fn entities_tile(entities: &[Entity], total_lines: usize) -> (r: bool)
    ensures
        r == tiles(view_all(entities@), total_lines as int),
{
    let ghost es = view_all(entities@);
    let mut i: usize = 0;
    while i < entities.len()
        invariant
            i <= entities.len(),
            es == view_all(entities@),
            forall|k: int|
                0 <= k < i ==> 1 <= (#[trigger] es[k]).start_line <= es[k].end_line <= total_lines,
            forall|a: int, b: int|
                0 <= a < b < i ==> (#[trigger] es[a]).end_line < (#[trigger] es[b]).start_line,
        decreases entities.len() - i,
    {
        let e = &entities[i];
        assert(es[i as int] == e@);
        if e.start_line < 1 || e.start_line > e.end_line || e.end_line > total_lines {
            return false;
        }
        if i > 0 {
            let prev = &entities[i - 1];
            assert(es[i - 1] == prev@);
            if prev.end_line >= e.start_line {
                return false;
            }
        }
        assert forall|a: int, b: int| 0 <= a < b < i + 1 implies (#[trigger] es[a]).end_line < (
        #[trigger] es[b]).start_line by {
            if b == i && a < i - 1 {
                assert(es[a].end_line < es[i - 1].start_line);
                assert(es[i - 1].start_line <= es[i - 1].end_line);
            }
        }
        i += 1;
    }
    true
}

} // verus!

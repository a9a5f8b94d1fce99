//! Laws of the partition into regions.

use vstd::prelude::*;
use crate::conflict::newline_terminated;
use crate::reconstruct::ids_of;
use crate::region::{
    file_regions, insert_by_start, lemma_insert_len, lemma_sort_len, min_int, sort_by_start,
    start_index, walk, walk_step, with_final_newline, with_footer, EntityView, FileRegionView,
};
use crate::text::{
    ends_with_char, first_newline, join_lines, lemma_prefix_len, lines, not_newline_pred,
    strip_cr,
};

verus! {

/// The identities of the entity regions, in order.
pub open spec fn entity_keys(rs: Seq<FileRegionView>) -> Seq<Seq<char>>
    decreases rs.len(),
{
    if rs.len() == 0 {
        Seq::empty()
    } else {
        let keys = entity_keys(rs.drop_last());
        match rs.last() {
            FileRegionView::Entity(e) => keys.push(e.entity_id),
            FileRegionView::Interstitial(_) => keys,
        }
    }
}

proof fn lemma_entity_keys_push(rs: Seq<FileRegionView>, r: FileRegionView)
    ensures
        entity_keys(rs.push(r)) == match r {
            FileRegionView::Entity(e) => entity_keys(rs).push(e.entity_id),
            FileRegionView::Interstitial(_) => entity_keys(rs),
        },
{
    assert(rs.push(r).drop_last() =~= rs);
}

proof fn lemma_walk_keys(ls: Seq<Seq<char>>, es: Seq<EntityView>, n: nat)
    requires
        n <= es.len(),
    ensures
        entity_keys(walk(ls, es, n).regions) == ids_of(es.take(n as int)),
    decreases n,
{
    if n == 0 {
        assert(ids_of(es.take(0)) =~= Seq::<Seq<char>>::empty());
    } else {
        lemma_walk_keys(ls, es, (n - 1) as nat);
        let w = walk(ls, es, (n - 1) as nat);
        let next = walk_step(ls, es, n - 1, w);
        let e = es[n - 1];
        let entity = next.regions.last();
        assert(entity is Entity && entity.key() == e.id);
        let mid = next.regions.drop_last();
        assert(next.regions =~= mid.push(entity));
        lemma_entity_keys_push(mid, entity);
        if mid.len() > w.regions.len() {
            assert(mid =~= w.regions.push(mid.last()));
            assert(mid.last() is Interstitial);
            lemma_entity_keys_push(w.regions, mid.last());
        } else {
            assert(mid =~= w.regions);
        }
        assert(ids_of(es.take(n as int)) =~= ids_of(es.take(n - 1)).push(e.id));
    }
}

proof fn lemma_update_last_keys(rs: Seq<FileRegionView>, c: char)
    requires
        rs.len() > 0,
    ensures
        entity_keys(rs.update(rs.len() - 1, rs.last().with_char(c))) == entity_keys(rs),
{
    let upd = rs.update(rs.len() - 1, rs.last().with_char(c));
    assert(upd.drop_last() =~= rs.drop_last());
    assert(upd.last() == rs.last().with_char(c));
}

proof fn lemma_insert_contains(s: Seq<EntityView>, e: EntityView, x: EntityView)
    ensures
        insert_by_start(s, e).contains(x) <==> (s.contains(x) || x == e),
    decreases s.len(),
{
    if s.len() > 0 && s.last().start_line > e.start_line {
        let t = s.drop_last();
        lemma_insert_contains(t, e, x);
        let r = insert_by_start(t, e);
        let whole = r.push(s.last());
        if whole.contains(x) {
            let i = choose|i: int| 0 <= i < whole.len() && whole[i] == x;
            if i < r.len() {
                assert(r[i] == x);
                assert(r.contains(x));
                if t.contains(x) {
                    let j = choose|j: int| 0 <= j < t.len() && t[j] == x;
                    assert(s[j] == x);
                }
            } else {
                assert(s[s.len() - 1] == x);
            }
        }
        if s.contains(x) {
            let j = choose|j: int| 0 <= j < s.len() && s[j] == x;
            if j < t.len() {
                assert(t[j] == x);
                assert(t.contains(x));
                let i = choose|i: int| 0 <= i < r.len() && r[i] == x;
                assert(whole[i] == x);
            } else {
                assert(whole[whole.len() - 1] == x);
            }
        }
        if x == e {
            assert(r.contains(x));
            let i = choose|i: int| 0 <= i < r.len() && r[i] == x;
            assert(whole[i] == x);
        }
    } else {
        let whole = s.push(e);
        if whole.contains(x) {
            let i = choose|i: int| 0 <= i < whole.len() && whole[i] == x;
            if i < s.len() {
                assert(s[i] == x);
            }
        }
        if s.contains(x) {
            let j = choose|j: int| 0 <= j < s.len() && s[j] == x;
            assert(whole[j] == x);
        }
        if x == e {
            assert(whole[whole.len() - 1] == x);
        }
    }
}

/// Sorting neither drops an entity nor makes one up.
pub proof fn lemma_sort_contains(es: Seq<EntityView>, x: EntityView)
    ensures
        sort_by_start(es).contains(x) <==> es.contains(x),
    decreases es.len(),
{
    if es.len() > 0 {
        let t = es.drop_last();
        lemma_sort_contains(t, x);
        lemma_insert_contains(sort_by_start(t), es.last(), x);
        if es.contains(x) {
            let j = choose|j: int| 0 <= j < es.len() && es[j] == x;
            if j < t.len() {
                assert(t[j] == x);
            }
        }
        if t.contains(x) {
            let j = choose|j: int| 0 <= j < t.len() && t[j] == x;
            assert(es[j] == x);
        }
        if x == es.last() {
            assert(es[es.len() - 1] == x);
        }
    }
}

proof fn lemma_insert_sorted(s: Seq<EntityView>, e: EntityView)
    requires
        forall|i: int, j: int|
            0 <= i <= j < s.len() ==> (#[trigger] s[i]).start_line <= (#[trigger] s[j]).start_line,
    ensures
        forall|i: int, j: int|
            0 <= i <= j < insert_by_start(s, e).len() ==> (#[trigger] insert_by_start(
                s,
                e,
            )[i]).start_line <= (#[trigger] insert_by_start(s, e)[j]).start_line,
    decreases s.len(),
{
    let whole = insert_by_start(s, e);
    if s.len() > 0 && s.last().start_line > e.start_line {
        let t = s.drop_last();
        assert forall|i: int, j: int| 0 <= i <= j < t.len() implies (#[trigger] t[i]).start_line <= (
        #[trigger] t[j]).start_line by {
            assert(t[i] == s[i] && t[j] == s[j]);
        }
        lemma_insert_sorted(t, e);
        lemma_insert_len(t, e);
        let r = insert_by_start(t, e);
        assert forall|i: int, j: int| 0 <= i <= j < whole.len() implies (
        #[trigger] whole[i]).start_line <= (#[trigger] whole[j]).start_line by {
            if j < r.len() {
                assert(whole[i] == r[i] && whole[j] == r[j]);
            } else if i < r.len() {
                assert(whole[i] == r[i]);
                assert(r.contains(r[i]));
                lemma_insert_contains(t, e, r[i]);
                if r[i] != e {
                    let k = choose|k: int| 0 <= k < t.len() && t[k] == r[i];
                    assert(s[k].start_line <= s[s.len() - 1].start_line);
                }
            }
        }
    } else {
        assert forall|i: int, j: int| 0 <= i <= j < whole.len() implies (
        #[trigger] whole[i]).start_line <= (#[trigger] whole[j]).start_line by {
            if j < s.len() {
                assert(whole[i] == s[i] && whole[j] == s[j]);
            } else if i < s.len() {
                assert(whole[i] == s[i]);
                assert(s[i].start_line <= s[s.len() - 1].start_line);
            }
        }
    }
}

proof fn lemma_insert_multiset(s: Seq<EntityView>, e: EntityView)
    ensures
        insert_by_start(s, e).to_multiset() == s.to_multiset().insert(e),
    decreases s.len(),
{
    if s.len() > 0 && s.last().start_line > e.start_line {
        let t = s.drop_last();
        lemma_insert_multiset(t, e);
        vstd::seq_lib::to_multiset_build(insert_by_start(t, e), s.last());
        vstd::seq_lib::to_multiset_build(t, s.last());
        assert(t.push(s.last()) =~= s);
        assert(t.to_multiset().insert(e).insert(s.last()) =~= t.to_multiset().insert(
            s.last(),
        ).insert(e));
    } else {
        vstd::seq_lib::to_multiset_build(s, e);
    }
}

/// Sorting rearranges: the sorted list holds every entity as often as the
/// list it was made of.
pub proof fn law_sort_permutes(es: Seq<EntityView>)
    ensures
        sort_by_start(es).to_multiset() == es.to_multiset(),
    decreases es.len(),
{
    if es.len() > 0 {
        let t = es.drop_last();
        law_sort_permutes(t);
        lemma_insert_multiset(sort_by_start(t), es.last());
        vstd::seq_lib::to_multiset_build(t, es.last());
        assert(t.push(es.last()) =~= es);
    } else {
        assert(sort_by_start(es) =~= es);
    }
}

/// The sorted entities ascend by their first line.
pub proof fn law_sort_ascends(es: Seq<EntityView>)
    ensures
        forall|i: int, j: int|
            0 <= i <= j < sort_by_start(es).len() ==> (#[trigger] sort_by_start(es)[i]).start_line
                <= (#[trigger] sort_by_start(es)[j]).start_line,
    decreases es.len(),
{
    if es.len() > 0 {
        law_sort_ascends(es.drop_last());
        lemma_insert_sorted(sort_by_start(es.drop_last()), es.last());
    }
}

proof fn lemma_insert_in_place(s: Seq<EntityView>, e: EntityView)
    requires
        forall|i: int| 0 <= i < s.len() ==> (#[trigger] s[i]).start_line <= e.start_line,
    ensures
        insert_by_start(s, e) == s.push(e),
{
    if s.len() > 0 {
        assert(s[s.len() - 1].start_line <= e.start_line);
    }
}

/// Entities that already ascend by their first line stay as they are.
pub proof fn law_sort_keeps_sorted(es: Seq<EntityView>)
    requires
        forall|i: int, j: int|
            0 <= i <= j < es.len() ==> (#[trigger] es[i]).start_line <= (
            #[trigger] es[j]).start_line,
    ensures
        sort_by_start(es) == es,
    decreases es.len(),
{
    if es.len() > 0 {
        let t = es.drop_last();
        assert forall|i: int, j: int| 0 <= i <= j < t.len() implies (#[trigger] t[i]).start_line <= (
        #[trigger] t[j]).start_line by {
            assert(t[i] == es[i] && t[j] == es[j]);
        }
        law_sort_keeps_sorted(t);
        assert forall|i: int| 0 <= i < t.len() implies (#[trigger] t[i]).start_line
            <= es.last().start_line by {
            assert(t[i] == es[i]);
            assert(es[i].start_line <= es[es.len() - 1].start_line);
        }
        lemma_insert_in_place(t, es.last());
        assert(t.push(es.last()) =~= es);
    }
}

/// Every entity becomes one entity region, and the entity regions stand in
/// the order of the entities' first lines.
pub proof fn law_regions_cover(text: Seq<char>, es: Seq<EntityView>)
    ensures
        entity_keys(file_regions(text, es)) == ids_of(sort_by_start(es)),
{
    if es.len() == 0 {
        let only = file_regions(text, es);
        let none = Seq::<FileRegionView>::empty();
        assert(only =~= none.push(only[0]));
        lemma_entity_keys_push(none, only[0]);
        assert(entity_keys(none) =~= Seq::<Seq<char>>::empty());
        assert(ids_of(sort_by_start(es)) =~= Seq::<Seq<char>>::empty());
    } else {
        let ls = crate::text::lines(text);
        let sorted = sort_by_start(es);
        let w = walk(ls, sorted, sorted.len());
        lemma_walk_keys(ls, sorted, sorted.len());
        assert(sorted.take(sorted.len() as int) =~= sorted);
        let footed = with_footer(ls, w);
        if footed.len() > w.regions.len() {
            lemma_entity_keys_push(w.regions, footed.last());
            assert(footed =~= w.regions.push(footed.last()));
        }
        let fin = with_final_newline(footed, text);
        if fin != footed {
            lemma_update_last_keys(footed, '\n');
        }
    }
}

/// An identity among the entity keys belongs to an entity region.
pub proof fn lemma_key_has_region(rs: Seq<FileRegionView>, id: Seq<char>)
    requires
        entity_keys(rs).contains(id),
    ensures
        exists|i: int| 0 <= i < rs.len() && (#[trigger] rs[i]) is Entity && rs[i].key() == id,
    decreases rs.len(),
{
    if rs.len() > 0 {
        let t = rs.drop_last();
        let keys = entity_keys(t);
        if rs.last() is Entity && rs.last().key() == id {
            assert(rs[rs.len() - 1] is Entity);
        } else {
            assert(keys.contains(id)) by {
                let k = choose|k: int| 0 <= k < entity_keys(rs).len() && entity_keys(rs)[k] == id;
                if rs.last() is Entity {
                    assert(entity_keys(rs) == keys.push(rs.last().key()));
                    assert(k < keys.len());
                    assert(keys[k] == id);
                } else {
                    assert(keys[k] == id);
                }
            }
            lemma_key_has_region(t, id);
            let i = choose|i: int| 0 <= i < t.len() && (#[trigger] t[i]) is Entity && t[i].key() == id;
            assert(rs[i] == t[i]);
        }
    }
}

/// An entity region's identity is among the entity keys.
pub proof fn lemma_region_has_key(rs: Seq<FileRegionView>, i: int)
    requires
        0 <= i < rs.len(),
        rs[i] is Entity,
    ensures
        entity_keys(rs).contains(rs[i].key()),
    decreases rs.len(),
{
    let t = rs.drop_last();
    if i == rs.len() - 1 {
        let keys = entity_keys(rs);
        assert(keys[keys.len() - 1] == rs[i].key());
    } else {
        assert(t[i] == rs[i]);
        lemma_region_has_key(t, i);
        let k = choose|k: int| 0 <= k < entity_keys(t).len() && entity_keys(t)[k] == rs[i].key();
        assert(entity_keys(rs)[k] == rs[i].key());
    }
}

/// The identities of a list of entities are those of its sorted list.
pub proof fn lemma_sorted_ids(es: Seq<EntityView>, id: Seq<char>)
    ensures
        ids_of(sort_by_start(es)).contains(id) <==> ids_of(es).contains(id),
{
    let sorted = sort_by_start(es);
    if ids_of(sorted).contains(id) {
        let i = choose|i: int| 0 <= i < ids_of(sorted).len() && ids_of(sorted)[i] == id;
        assert(sorted.contains(sorted[i]));
        lemma_sort_contains(es, sorted[i]);
        let j = choose|j: int| 0 <= j < es.len() && es[j] == sorted[i];
        assert(ids_of(es)[j] == id);
    }
    if ids_of(es).contains(id) {
        let j = choose|j: int| 0 <= j < ids_of(es).len() && ids_of(es)[j] == id;
        assert(es.contains(es[j]));
        lemma_sort_contains(es, es[j]);
        let i = choose|i: int| 0 <= i < sorted.len() && sorted[i] == es[j];
        assert(ids_of(sorted)[i] == id);
    }
}

/// Whether no two neighbours among the regions are both interstitials.
pub open spec fn no_adjacent_gaps(rs: Seq<FileRegionView>) -> bool {
    forall|i: int|
        0 <= i < rs.len() - 1 ==> !((#[trigger] rs[i]) is Interstitial && rs[i + 1] is Interstitial)
}

proof fn lemma_walk_alternates(ls: Seq<Seq<char>>, es: Seq<EntityView>, n: nat)
    ensures
        no_adjacent_gaps(walk(ls, es, n).regions),
        n > 0 ==> walk(ls, es, n).regions.len() > 0 && walk(ls, es, n).regions.last() is Entity,
    decreases n,
{
    if n > 0 {
        lemma_walk_alternates(ls, es, (n - 1) as nat);
        let w = walk(ls, es, (n - 1) as nat);
        let next = walk_step(ls, es, n - 1, w).regions;
        assert forall|i: int| 0 <= i < next.len() - 1 implies !((#[trigger] next[i]) is Interstitial
            && next[i + 1] is Interstitial) by {
            if i + 1 < w.regions.len() {
                assert(next[i] == w.regions[i]);
                assert(next[i + 1] == w.regions[i + 1]);
            } else if i < w.regions.len() {
                assert(next[i] == w.regions[i]);
                assert(w.regions.last() is Entity);
            } else {
                assert(next[i + 1] is Entity);
            }
        }
    }
}

/// Alternation: no two neighbouring regions are both interstitials.
pub proof fn law_regions_alternate(text: Seq<char>, es: Seq<EntityView>)
    ensures
        no_adjacent_gaps(file_regions(text, es)),
{
    if es.len() > 0 {
        let ls = lines(text);
        let sorted = sort_by_start(es);
        lemma_sort_len(es);
        lemma_walk_alternates(ls, sorted, sorted.len());
        let w = walk(ls, sorted, sorted.len());
        let footed = with_footer(ls, w);
        assert(no_adjacent_gaps(footed)) by {
            assert forall|i: int| 0 <= i < footed.len() - 1 implies !((
            #[trigger] footed[i]) is Interstitial && footed[i + 1] is Interstitial) by {
                if i + 1 < w.regions.len() {
                    assert(footed[i] == w.regions[i]);
                    assert(footed[i + 1] == w.regions[i + 1]);
                } else {
                    assert(footed[i] == w.regions.last());
                }
            }
        }
        let fin = with_final_newline(footed, text);
        assert forall|i: int| 0 <= i < fin.len() - 1 implies !((#[trigger] fin[i]) is Interstitial
            && fin[i + 1] is Interstitial) by {
            assert(fin[i] is Interstitial == footed[i] is Interstitial);
            assert(fin[i + 1] is Interstitial == footed[i + 1] is Interstitial);
        }
    }
}

/// The texts of the regions, concatenated in order.
pub open spec fn joined_contents(rs: Seq<FileRegionView>) -> Seq<char>
    decreases rs.len(),
{
    if rs.len() == 0 {
        Seq::empty()
    } else {
        joined_contents(rs.drop_last()) + rs.last().content()
    }
}

proof fn lemma_joined_push(rs: Seq<FileRegionView>, r: FileRegionView)
    ensures
        joined_contents(rs.push(r)) == joined_contents(rs) + r.content(),
{
    assert(rs.push(r).drop_last() =~= rs);
}

/// Joining two lists of lines joins their joined texts.
pub proof fn lemma_join_lines_add(a: Seq<Seq<char>>, b: Seq<Seq<char>>)
    ensures
        join_lines(a + b) == join_lines(a) + join_lines(b),
    decreases b.len(),
{
    if b.len() == 0 {
        assert(a + b =~= a);
        assert(join_lines(a) + join_lines(b) =~= join_lines(a));
    } else {
        lemma_join_lines_add(a, b.drop_last());
        assert((a + b).drop_last() =~= a + b.drop_last());
        assert((a + b).last() == b.last());
        assert(join_lines(a + b) =~= join_lines(a) + join_lines(b));
    }
}

/// Whether the entities tile the lines `1..=total`: each range lies in the
/// file and is not empty, and each entity ends before the next begins.
pub open spec fn tiles(es: Seq<EntityView>, total: int) -> bool {
    &&& forall|i: int|
        0 <= i < es.len() ==> 1 <= (#[trigger] es[i]).start_line <= es[i].end_line <= total
    &&& forall|i: int, j: int|
        0 <= i < j < es.len() ==> (#[trigger] es[i]).end_line < (#[trigger] es[j]).start_line
}

proof fn lemma_walk_tiles(ls: Seq<Seq<char>>, es: Seq<EntityView>, n: nat)
    requires
        tiles(es, ls.len() as int),
        n <= es.len(),
    ensures
        walk(ls, es, n).cursor == if n == 0 {
            0
        } else {
            es[n - 1].end_line as int
        },
        joined_contents(walk(ls, es, n).regions) == join_lines(ls.take(walk(ls, es, n).cursor)),
        forall|k: int|
            0 <= k < walk(ls, es, n).regions.len() ==> ends_with_char(
                (#[trigger] walk(ls, es, n).regions[k]).content(),
                '\n',
            ),
    decreases n,
{
    if n == 0 {
        assert(ls.take(0) =~= Seq::<Seq<char>>::empty());
    } else {
        lemma_walk_tiles(ls, es, (n - 1) as nat);
        let w = walk(ls, es, (n - 1) as nat);
        let next = walk_step(ls, es, n - 1, w);
        let e = es[n - 1];
        let total = ls.len() as int;
        let from = start_index(e);
        let to = e.end_line as int;
        assert(min_int(from, total) == from);
        assert(min_int(to, total) == to);
        if n - 1 > 0 {
            assert(es[n - 2].end_line < es[n - 1].start_line);
        }
        let c = w.cursor;
        assert(c <= from < to <= total);
        let entity = next.regions.last();
        let body = ls.subrange(from, to);
        assert(entity.content() == join_lines(body));
        assert(body.len() > 0);
        let mid = next.regions.drop_last();
        assert(next.regions =~= mid.push(entity));
        lemma_joined_push(mid, entity);
        if c < from {
            let gap = mid.last();
            let between = ls.subrange(c, from);
            assert(mid =~= w.regions.push(gap));
            assert(gap.content() == join_lines(between));
            assert(between.len() > 0);
            lemma_joined_push(w.regions, gap);
            lemma_join_lines_add(ls.take(c), between);
            lemma_join_lines_add(ls.take(c) + between, body);
            assert(ls.take(c) + between + body =~= ls.take(to));
        } else {
            assert(mid =~= w.regions);
            lemma_join_lines_add(ls.take(c), body);
            assert(ls.take(c) + body =~= ls.take(to));
        }
        assert forall|k: int| 0 <= k < next.regions.len() implies ends_with_char(
            (#[trigger] next.regions[k]).content(),
            '\n',
        ) by {
            if k < w.regions.len() {
                assert(next.regions[k] == w.regions[k]);
            }
        }
    }
}

/// Tiling: where the entities tile the file, the texts of the regions,
/// joined in order, are the lines of the file, each ended by a line feed.
pub proof fn law_regions_tile(text: Seq<char>, es: Seq<EntityView>)
    requires
        es.len() > 0,
        tiles(es, lines(text).len() as int),
    ensures
        joined_contents(file_regions(text, es)) == join_lines(lines(text)),
        no_adjacent_gaps(file_regions(text, es)),
{
    law_regions_alternate(text, es);
    let ls = lines(text);
    assert forall|i: int, j: int| 0 <= i <= j < es.len() implies (#[trigger] es[i]).start_line <= (
    #[trigger] es[j]).start_line by {
        if i < j {
            assert(es[i].end_line < es[j].start_line);
        }
    }
    law_sort_keeps_sorted(es);
    lemma_walk_tiles(ls, es, es.len());
    let w = walk(ls, es, es.len());
    let footed = with_footer(ls, w);
    let c = w.cursor;
    if c < ls.len() {
        let rest = ls.subrange(c, ls.len() as int);
        lemma_joined_push(w.regions, footed.last());
        lemma_join_lines_add(ls.take(c), rest);
        assert(ls.take(c) + rest =~= ls);
        assert(rest.len() > 0);
    } else {
        assert(ls.take(c) =~= ls);
    }
    assert(ends_with_char(footed.last().content(), '\n')) by {
        if c < ls.len() {
        } else {
            assert(footed.last() == w.regions[w.regions.len() - 1]);
        }
    }
    assert(with_final_newline(footed, text) == footed);
}

proof fn lemma_join_lines_one(l: Seq<char>)
    ensures
        join_lines(seq![l]) == l + seq!['\n'],
{
    let none = Seq::<Seq<char>>::empty();
    crate::text::lemma_join_lines_push(none, l);
    assert(none.push(l) =~= seq![l]);
    assert(join_lines(none) =~= Seq::<char>::empty());
    assert(join_lines(none) + l + seq!['\n'] =~= l + seq!['\n']);
}

/// Whether no line feed of `text` follows a carriage return.
pub open spec fn no_crlf(text: Seq<char>) -> bool {
    forall|i: int| 0 < i < text.len() && #[trigger] text[i] == '\n' ==> text[i - 1] != '\r'
}

/// Round trip of lines: where no line ends in a carriage return and a line
/// feed, the lines of a text, each ended by a line feed, are the text, with
/// a line feed at its end if it had none.
pub proof fn law_lines_rejoin(text: Seq<char>)
    requires
        no_crlf(text),
    ensures
        join_lines(lines(text)) == newline_terminated(text),
    decreases text.len(),
{
    if text.len() > 0 {
        let k = first_newline(text);
        lemma_prefix_len(text, not_newline_pred());
        if k == text.len() {
            assert(not_newline_pred()(text[text.len() - 1]));
            let one = seq![text];
            lemma_join_lines_one(text);
            assert(text + seq!['\n'] =~= text.push('\n'));
        } else {
            let head = text.take(k);
            let rest = text.skip(k + 1);
            assert(text[k] == '\n');
            assert(strip_cr(head) == head) by {
                if k > 0 {
                    assert(head.last() == text[k - 1]);
                }
            }
            assert forall|i: int| 0 < i < rest.len() && #[trigger] rest[i] == '\n' implies rest[i
                - 1] != '\r' by {
                assert(rest[i] == text[k + 1 + i]);
                assert(rest[i - 1] == text[k + i]);
            }
            law_lines_rejoin(rest);
            let one = seq![head];
            lemma_join_lines_one(head);
            lemma_join_lines_add(one, lines(rest));
            assert(text =~= head + seq!['\n'] + rest);
            if rest.len() > 0 {
                assert(rest.last() == text.last());
                if rest.last() != '\n' {
                    assert(head + seq!['\n'] + rest.push('\n') =~= text.push('\n'));
                }
            } else {
                assert(text.last() == '\n');
                assert(head + seq!['\n'] + Seq::<char>::empty() =~= text);
            }
        }
    }
}

/// Round trip of regions: where the entities tile the file and its lines
/// end in plain line feeds, the regions joined in order give the file back.
pub proof fn law_regions_round_trip(text: Seq<char>, es: Seq<EntityView>)
    requires
        no_crlf(text),
        ends_with_char(text, '\n'),
        es.len() == 0 || tiles(es, lines(text).len() as int),
    ensures
        joined_contents(file_regions(text, es)) == text,
{
    if es.len() == 0 {
        let only = file_regions(text, es);
        assert(only.drop_last() =~= Seq::<FileRegionView>::empty());
        assert(joined_contents(only.drop_last()) =~= Seq::<char>::empty());
        assert(joined_contents(only) =~= text);
    } else {
        law_regions_tile(text, es);
        law_lines_rejoin(text);
    }
}

} // verus!

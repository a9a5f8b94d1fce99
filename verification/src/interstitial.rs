//! Merge of the interstitial regions of three versions, key by key.

use vstd::prelude::*;
use crate::imports::{
    import_region, is_import_region, merge_imports_commutatively, merged_import_text,
};
use crate::linemerge::{line_merge, merge3, result_view};
use crate::maps::{lemma_pairs_map_keys, TextMap};
use crate::region::{FileRegion, FileRegionView};
use crate::text::view_all;

verus! {

/// The texts of the interstitial regions by position key; where a key
/// occurs twice, the later region decides.
pub open spec fn gap_texts(rs: Seq<FileRegionView>) -> Map<Seq<char>, Seq<char>>
    decreases rs.len(),
{
    if rs.len() == 0 {
        Map::empty()
    } else {
        let m = gap_texts(rs.drop_last());
        match rs.last() {
            FileRegionView::Interstitial(g) => m.insert(g.position_key, g.content),
            FileRegionView::Entity(_) => m,
        }
    }
}

/// The texts of the entity regions by entity identity; where an identity
/// occurs twice, the later region decides.
pub open spec fn entity_texts(rs: Seq<FileRegionView>) -> Map<Seq<char>, Seq<char>>
    decreases rs.len(),
{
    if rs.len() == 0 {
        Map::empty()
    } else {
        let m = entity_texts(rs.drop_last());
        match rs.last() {
            FileRegionView::Entity(e) => m.insert(e.entity_id, e.content),
            FileRegionView::Interstitial(_) => m,
        }
    }
}

/// The text of `k` in `m`; empty where `m` has none.
pub open spec fn or_empty(m: Map<Seq<char>, Seq<char>>, k: Seq<char>) -> Seq<char> {
    if m.contains_key(k) {
        m[k]
    } else {
        Seq::empty()
    }
}

/// Whether the three texts of an interstitial call for a line merge: all
/// three differ from one another and none is an import region.
pub open spec fn gap_needs_line_merge(b: Seq<char>, o: Seq<char>, t: Seq<char>) -> bool {
    o != t && b != o && b != t && !import_region(b) && !import_region(o) && !import_region(t)
}

/// The merged text of one interstitial, given the result `merged` of
/// merging its three texts line by line.
///
/// Where both sides agree, their text; where one side left the base
/// untouched, the other's text; else, where any of the three is an import
/// region, the imports merged as sets; else the line merge, conflicting
/// text included.
pub open spec fn merged_gap_with(
    b: Seq<char>,
    o: Seq<char>,
    t: Seq<char>,
    merged: Result<Seq<char>, Seq<char>>,
) -> Seq<char> {
    if o == t {
        o
    } else if b == o {
        t
    } else if b == t {
        o
    } else if import_region(b) || import_region(o) || import_region(t) {
        merged_import_text(b, o, t)
    } else {
        match merged {
            Ok(m) => m,
            Err(c) => c,
        }
    }
}

/// The merged text of one interstitial.
pub open spec fn merged_gap(b: Seq<char>, o: Seq<char>, t: Seq<char>) -> Seq<char> {
    merged_gap_with(b, o, t, line_merge(b, o, t))
}

/// The merged interstitials for the keys in `keys`.
pub open spec fn gaps_on(
    keys: Set<Seq<char>>,
    base: Map<Seq<char>, Seq<char>>,
    ours: Map<Seq<char>, Seq<char>>,
    theirs: Map<Seq<char>, Seq<char>>,
) -> Map<Seq<char>, Seq<char>> {
    Map::new(
        |k: Seq<char>| keys.contains(k),
        |k: Seq<char>| merged_gap(or_empty(base, k), or_empty(ours, k), or_empty(theirs, k)),
    )
}

/// The merged interstitials by position key, for every key that any of the
/// three versions has. A version without a key counts as empty there.
pub open spec fn merged_gaps(
    base: Map<Seq<char>, Seq<char>>,
    ours: Map<Seq<char>, Seq<char>>,
    theirs: Map<Seq<char>, Seq<char>>,
) -> Map<Seq<char>, Seq<char>> {
    gaps_on(base.dom() + ours.dom() + theirs.dom(), base, ours, theirs)
}

/// The texts of the entity regions by entity identity.
pub fn build_region_content_map(regions: &Vec<FileRegion>) -> (r: TextMap<String>)
    ensures
        r@ == entity_texts(view_all(regions@)),
{
    let ghost rs = view_all(regions@);
    let mut out: TextMap<String> = TextMap::new();
    let mut i: usize = 0;
    proof {
        assert(rs.take(0) =~= Seq::<FileRegionView>::empty());
    }
    while i < regions.len()
        invariant
            i <= regions.len(),
            rs == view_all(regions@),
            out@ == entity_texts(rs.take(i as int)),
        decreases regions.len() - i,
    {
        proof {
            assert(rs.take(i + 1).drop_last() =~= rs.take(i as int));
            assert(rs.take(i + 1).last() == regions@[i as int]@);
        }
        match &regions[i] {
            FileRegion::Entity(e) => {
                out.insert(e.entity_id.clone(), e.content.clone());
            },
            FileRegion::Interstitial(_) => {},
        }
        i += 1;
    }
    assert(rs.take(regions.len() as int) =~= rs);
    out
}

/// The texts of the interstitial regions by position key.
pub fn build_gap_map(regions: &Vec<FileRegion>) -> (r: TextMap<String>)
    ensures
        r@ == gap_texts(view_all(regions@)),
{
    let ghost rs = view_all(regions@);
    let mut out: TextMap<String> = TextMap::new();
    let mut i: usize = 0;
    proof {
        assert(rs.take(0) =~= Seq::<FileRegionView>::empty());
    }
    while i < regions.len()
        invariant
            i <= regions.len(),
            rs == view_all(regions@),
            out@ == gap_texts(rs.take(i as int)),
        decreases regions.len() - i,
    {
        proof {
            assert(rs.take(i + 1).drop_last() =~= rs.take(i as int));
            assert(rs.take(i + 1).last() == regions@[i as int]@);
        }
        match &regions[i] {
            FileRegion::Interstitial(g) => {
                out.insert(g.position_key.clone(), g.content.clone());
            },
            FileRegion::Entity(_) => {},
        }
        i += 1;
    }
    assert(rs.take(regions.len() as int) =~= rs);
    out
}

/// Whether the three texts of an interstitial call for a line merge.
pub fn gap_must_merge_lines(b: &String, o: &String, t: &String) -> (r: bool)
    ensures
        r == gap_needs_line_merge(b@, o@, t@),
{
    !(*o == *t) && !(*b == *o) && !(*b == *t) && !is_import_region(b.as_str())
        && !is_import_region(o.as_str()) && !is_import_region(t.as_str())
}

/// The merged text of one interstitial, given the result of merging its
/// three texts line by line. `merged` is read only where all three texts
/// differ and none is an import region.
pub fn merge_gap_with(b: &String, o: &String, t: &String, merged: Result<String, String>) -> (r:
    String)
    ensures
        r@ == merged_gap_with(b@, o@, t@, result_view(merged)),
{
    if *o == *t {
        o.clone()
    } else if *b == *o {
        t.clone()
    } else if *b == *t {
        o.clone()
    } else if is_import_region(b.as_str()) || is_import_region(o.as_str()) || is_import_region(
        t.as_str(),
    ) {
        merge_imports_commutatively(b.as_str(), o.as_str(), t.as_str())
    } else {
        match merged {
            Ok(m) => m,
            Err(c) => c,
        }
    }
}

/// The merged text of one interstitial.
pub fn merge_gap(b: &String, o: &String, t: &String) -> (r: String)
    ensures
        r@ == merged_gap(b@, o@, t@),
{
    let merged = if gap_must_merge_lines(b, o, t) {
        merge3(b.as_str(), o.as_str(), t.as_str())
    } else {
        Err(String::new())
    };
    merge_gap_with(b, o, t, merged)
}

fn text_or_blank(m: &TextMap<String>, k: &String) -> (r: String)
    ensures
        r@ == or_empty(m@, k@),
{
    match m.get(k) {
        Some(s) => s.clone(),
        None => String::new(),
    }
}

/// Adds to `out` the merged interstitial of every key of `src` that `out`
/// does not hold yet.
fn merge_keys_of(
    src: &TextMap<String>,
    base: &TextMap<String>,
    ours: &TextMap<String>,
    theirs: &TextMap<String>,
    out: &mut TextMap<String>,
)
    requires
        old(out)@ == gaps_on(old(out)@.dom(), base@, ours@, theirs@),
    ensures
        final(out)@ == gaps_on(old(out)@.dom() + src@.dom(), base@, ours@, theirs@),
        final(out)@.dom() == old(out)@.dom() + src@.dom(),
{
    let ghost dom0 = out@.dom();
    let ghost ps = src.pairs();
    let ghost mut seen: Set<Seq<char>> = dom0;
    let mut i: usize = 0;
    while i < src.entries.len()
        invariant
            i <= src.entries.len(),
            ps == src.pairs(),
            out@ == gaps_on(seen, base@, ours@, theirs@),
            forall|k: Seq<char>|
                seen.contains(k) <==> (dom0.contains(k) || exists|j: int|
                    0 <= j < i && (#[trigger] ps[j]).0 == k),
        decreases src.entries.len() - i,
    {
        let key = &src.entries[i].0;
        assert(ps[i as int].0 == key@);
        if !out.contains_key(key) {
            let b = text_or_blank(base, key);
            let o = text_or_blank(ours, key);
            let t = text_or_blank(theirs, key);
            let merged = merge_gap(&b, &o, &t);
            out.insert(key.clone(), merged);
            proof {
                assert(out@ =~= gaps_on(seen.insert(key@), base@, ours@, theirs@));
                seen = seen.insert(key@);
            }
        }
        proof {
            assert forall|k: Seq<char>|
                seen.contains(k) <==> (dom0.contains(k) || exists|j: int|
                    0 <= j < i + 1 && (#[trigger] ps[j]).0 == k) by {
                if exists|j: int| 0 <= j < i + 1 && (#[trigger] ps[j]).0 == k {
                    let j = choose|j: int| 0 <= j < i + 1 && (#[trigger] ps[j]).0 == k;
                    if j < i {
                    } else {
                        assert(k == key@);
                    }
                }
                if k == key@ {
                    assert(ps[i as int].0 == k);
                }
            }
        }
        i += 1;
    }
    proof {
        assert forall|k: Seq<char>| seen.contains(k) <==> (dom0 + src@.dom()).contains(k) by {
            lemma_pairs_map_keys(ps, k);
        }
        assert(seen =~= dom0 + src@.dom());
        assert(out@.dom() =~= seen);
    }
}

/// Merges the interstitial regions of the three versions by position key.
pub fn merge_interstitials(
    base_regions: &Vec<FileRegion>,
    ours_regions: &Vec<FileRegion>,
    theirs_regions: &Vec<FileRegion>,
) -> (r: TextMap<String>)
    ensures
        r@ == merged_gaps(
            gap_texts(view_all(base_regions@)),
            gap_texts(view_all(ours_regions@)),
            gap_texts(view_all(theirs_regions@)),
        ),
{
    let base = build_gap_map(base_regions);
    let ours = build_gap_map(ours_regions);
    let theirs = build_gap_map(theirs_regions);
    let mut out: TextMap<String> = TextMap::new();
    assert(out@ =~= gaps_on(out@.dom(), base@, ours@, theirs@));
    merge_keys_of(&base, &base, &ours, &theirs, &mut out);
    merge_keys_of(&ours, &base, &ours, &theirs, &mut out);
    merge_keys_of(&theirs, &base, &ours, &theirs, &mut out);
    assert(Set::<Seq<char>>::empty() + base@.dom() + ours@.dom() + theirs@.dom() =~= base@.dom()
        + ours@.dom() + theirs@.dom());
    out
}

} // verus!

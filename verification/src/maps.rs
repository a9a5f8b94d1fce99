//! Maps keyed by text, kept as lists of entries in which a later entry for
//! a key replaces an earlier one.

use vstd::prelude::*;

verus! {

/// The map that a list of entries stands for: each entry is inserted in
/// turn, so that the last entry for a key decides.
pub open spec fn pairs_map<V>(ps: Seq<(Seq<char>, V)>) -> Map<Seq<char>, V>
    decreases ps.len(),
{
    if ps.len() == 0 {
        Map::empty()
    } else {
        pairs_map(ps.drop_last()).insert(ps.last().0, ps.last().1)
    }
}

/// The value of `k` in `m`, if `m` has one.
pub open spec fn get_opt<V>(m: Map<Seq<char>, V>, k: Seq<char>) -> Option<V> {
    if m.contains_key(k) {
        Some(m[k])
    } else {
        None
    }
}

pub proof fn lemma_pairs_map_push<V>(ps: Seq<(Seq<char>, V)>, k: Seq<char>, v: V)
    ensures
        pairs_map(ps.push((k, v))) == pairs_map(ps).insert(k, v),
{
    assert(ps.push((k, v)).drop_last() =~= ps);
}

/// A key is in the map exactly when some entry carries it.
pub proof fn lemma_pairs_map_keys<V>(ps: Seq<(Seq<char>, V)>, k: Seq<char>)
    ensures
        pairs_map(ps).contains_key(k) <==> exists|i: int| 0 <= i < ps.len() && (#[trigger] ps[i]).0 == k,
    decreases ps.len(),
{
    if ps.len() > 0 {
        let t = ps.drop_last();
        lemma_pairs_map_keys(t, k);
        if pairs_map(ps).contains_key(k) {
            if ps.last().0 == k {
                assert(ps[ps.len() - 1].0 == k);
            } else {
                let i = choose|i: int| 0 <= i < t.len() && (#[trigger] t[i]).0 == k;
                assert(ps[i].0 == k);
            }
        }
        if exists|i: int| 0 <= i < ps.len() && (#[trigger] ps[i]).0 == k {
            let i = choose|i: int| 0 <= i < ps.len() && (#[trigger] ps[i]).0 == k;
            if i < ps.len() - 1 {
                assert(t[i].0 == k);
            }
        }
    }
}

/// A map from text keys to values of type `V`.
pub struct TextMap<V> {
    pub entries: Vec<(String, V)>,
}

impl<V: View> TextMap<V> {
    /// The entries, each as its key's text and its value's view.
    pub open spec fn pairs(&self) -> Seq<(Seq<char>, V::V)> {
        Seq::new(self.entries@.len(), |i: int| (self.entries@[i].0@, self.entries@[i].1@))
    }
}

impl<V: View> View for TextMap<V> {
    type V = Map<Seq<char>, V::V>;

    open spec fn view(&self) -> Map<Seq<char>, V::V> {
        pairs_map(self.pairs())
    }
}

impl<V: View> TextMap<V> {
    /// The empty map.
    pub fn new() -> (r: Self)
        ensures
            r@ == Map::<Seq<char>, V::V>::empty(),
    {
        let r = TextMap { entries: Vec::new() };
        assert(r.pairs() =~= Seq::empty());
        r
    }

    /// Sets the value of `key` to `value`.
    pub fn insert(&mut self, key: String, value: V)
        ensures
            final(self)@ == old(self)@.insert(key@, value@),
    {
        proof {
            lemma_pairs_map_push(self.pairs(), key@, value@);
        }
        let ghost before = self.pairs();
        self.entries.push((key, value));
        assert(self.pairs() =~= before.push((key@, value@)));
    }

    /// Position of the entry that decides the value of `key`.
    pub fn find(&self, key: &String) -> (r: Option<usize>)
        ensures
            match r {
                Some(i) => i < self.entries.len() && self@.contains_key(key@) && self@[key@]
                    == self.entries[i as int].1@,
                None => !self@.contains_key(key@),
            },
    {
        let ghost ps = self.pairs();
        let mut i: usize = self.entries.len();
        proof {
            assert(ps.take(i as int) =~= ps);
        }
        while i > 0
            invariant
                i <= self.entries.len(),
                ps == self.pairs(),
                get_opt(pairs_map(ps), key@) == get_opt(pairs_map(ps.take(i as int)), key@),
            decreases i,
        {
            proof {
                assert(ps.take(i as int).drop_last() =~= ps.take(i - 1));
                assert(ps.take(i as int).last() == ps[i - 1]);
            }
            if self.entries[i - 1].0 == *key {
                return Some(i - 1);
            }
            i -= 1;
        }
        None
    }

    /// The value of `key`, if the map has one.
    pub fn get(&self, key: &String) -> (r: Option<&V>)
        ensures
            match r {
                Some(v) => self@.contains_key(key@) && self@[key@] == v@,
                None => !self@.contains_key(key@),
            },
    {
        match self.find(key) {
            Some(i) => Some(&self.entries[i].1),
            None => None,
        }
    }

    /// Whether the map has a value for `key`.
    pub fn contains_key(&self, key: &String) -> (r: bool)
        ensures
            r == self@.contains_key(key@),
    {
        self.find(key).is_some()
    }
}

} // verus!

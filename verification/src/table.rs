//! A small table keyed by note id: a vector of pairs with distinct ids,
//! seen as a map.

use vstd::prelude::*;

verus! {

/// The map that a list of pairs gives, a later pair for the same id
/// replacing an earlier one (as collecting into a map does).
pub open spec fn pairs_map<V>(s: Seq<(u64, V)>) -> Map<u64, V>
    decreases s.len(),
{
    if s.len() == 0 {
        Map::empty()
    } else {
        pairs_map(s.drop_last()).insert(s.last().0, s.last().1)
    }
}

/// No id occurs twice.
pub open spec fn distinct_ids<V>(s: Seq<(u64, V)>) -> bool {
    forall|i: int, j: int| 0 <= i < s.len() && 0 <= j < s.len() && i != j ==> s[i].0 != s[j].0
}

pub proof fn lemma_pairs_map_dom<V>(s: Seq<(u64, V)>, k: u64)
    ensures
        pairs_map(s).contains_key(k) <==> exists|i: int| 0 <= i < s.len() && s[i].0 == k,
    decreases s.len(),
{
    if s.len() > 0 {
        lemma_pairs_map_dom(s.drop_last(), k);
        if pairs_map(s.drop_last()).contains_key(k) {
            let i = choose|i: int| 0 <= i < s.drop_last().len() && s.drop_last()[i].0 == k;
            assert(s[i].0 == k);
        }
        if exists|i: int| 0 <= i < s.len() && s[i].0 == k {
            let i = choose|i: int| 0 <= i < s.len() && s[i].0 == k;
            if i < s.len() - 1 {
                assert(s.drop_last()[i].0 == k);
            }
        }
    }
}

pub proof fn lemma_pairs_map_value<V>(s: Seq<(u64, V)>, i: int)
    requires
        distinct_ids(s),
        0 <= i < s.len(),
    ensures
        pairs_map(s).contains_key(s[i].0),
        pairs_map(s)[s[i].0] == s[i].1,
    decreases s.len(),
{
    if i < s.len() - 1 {
        assert(s.drop_last()[i] == s[i]);
        lemma_pairs_map_value(s.drop_last(), i);
    }
}

/// A table keyed by note id, with at most one value per id.
pub struct IdTable<V> {
    entries: Vec<(u64, V)>,
}

impl<V> View for IdTable<V> {
    type V = Map<u64, V>;

    closed spec fn view(&self) -> Map<u64, V> {
        pairs_map(self.entries@)
    }
}

impl<V> IdTable<V> {
    /// The table holds at most one value per id.
    #[verifier::type_invariant]
    spec fn distinct(&self) -> bool {
        distinct_ids(self.entries@)
    }
}

impl<V: Copy> IdTable<V> {
    pub fn new() -> (t: IdTable<V>)
        ensures
            t@ == Map::<u64, V>::empty(),
    {
        IdTable { entries: Vec::new() }
    }

    fn position(&self, id: u64) -> (r: Option<usize>)
        ensures
            distinct_ids(self.entries@),
            r matches Some(i) ==> i < self.entries@.len() && self.entries@[i as int].0 == id,
            r is None ==> forall|j: int| 0 <= j < self.entries@.len() ==> #[trigger] self.entries@[j].0 != id,
            r is Some <==> self@.contains_key(id),
    {
        proof {
            use_type_invariant(self);
        }
        let mut i: usize = 0;
        while i < self.entries.len()
            invariant
                distinct_ids(self.entries@),
                i <= self.entries@.len(),
                forall|j: int| 0 <= j < i ==> #[trigger] self.entries@[j].0 != id,
            decreases self.entries@.len() - i,
        {
            if self.entries[i].0 == id {
                proof {
                    lemma_pairs_map_dom(self.entries@, id);
                }
                return Some(i);
            }
            i = i + 1;
        }
        proof {
            lemma_pairs_map_dom(self.entries@, id);
        }
        None
    }

    /// The value of `id`.
    pub fn get(&self, id: u64) -> (r: Option<V>)
        ensures
            r == (if self@.contains_key(id) {
                Some(self@[id])
            } else {
                None
            }),
    {
        match self.position(id) {
            Some(i) => {
                proof {
                    lemma_pairs_map_value(self.entries@, i as int);
                }
                Some(self.entries[i].1)
            },
            None => None,
        }
    }

    /// Sets the value of `id`, replacing what was there.
    pub fn insert(&mut self, id: u64, value: V)
        ensures
            final(self)@ == old(self)@.insert(id, value),
    {
        let g = (id, value);
        let found = self.position(id);
        let mut entries: Vec<(u64, V)> = Vec::new();
        std::mem::swap(&mut entries, &mut self.entries);
        match found {
            Some(i) => {
                let ghost s = entries@;
                entries.set(i, g);
                let ghost t = entries@;
                assert(t =~= s.update(i as int, g));
                assert forall|a: int, b: int|
                    0 <= a < t.len() && 0 <= b < t.len() && a != b implies t[a].0 != t[b].0 by {
                    if a != i && b != i {
                        assert(t[a] == s[a] && t[b] == s[b]);
                    } else if a == i {
                        assert(t[b] == s[b]);
                    } else {
                        assert(t[a] == s[a]);
                    }
                }
                assert forall|k: u64| #[trigger] pairs_map(t).contains_key(k) == pairs_map(s).insert(
                    id,
                    value,
                ).contains_key(k) by {
                    lemma_pairs_map_dom(t, k);
                    lemma_pairs_map_dom(s, k);
                    if k != id {
                        if exists|j: int| 0 <= j < s.len() && s[j].0 == k {
                            let j = choose|j: int| 0 <= j < s.len() && s[j].0 == k;
                            assert(t[j] == s[j]);
                        }
                        if exists|j: int| 0 <= j < t.len() && t[j].0 == k {
                            let j = choose|j: int| 0 <= j < t.len() && t[j].0 == k;
                            assert(t[j] == s[j]);
                        }
                    } else {
                        assert(t[i as int].0 == k);
                    }
                }
                assert forall|k: u64| #[trigger] pairs_map(t).contains_key(k) implies pairs_map(t)[k]
                    == pairs_map(s).insert(id, value)[k] by {
                    lemma_pairs_map_dom(t, k);
                    let j = choose|j: int| 0 <= j < t.len() && t[j].0 == k;
                    lemma_pairs_map_value(t, j);
                    if j != i {
                        assert(t[j] == s[j]);
                        lemma_pairs_map_value(s, j);
                    }
                }
                assert(pairs_map(t) =~= pairs_map(s).insert(id, value));
            },
            None => {
                let ghost s = entries@;
                entries.push(g);
                assert(entries@.drop_last() =~= s);
                assert forall|a: int, b: int|
                    0 <= a < entries@.len() && 0 <= b < entries@.len() && a != b implies entries@[a].0
                    != entries@[b].0 by {
                    if a < s.len() && b < s.len() {
                        assert(entries@[a] == s[a] && entries@[b] == s[b]);
                    } else if a < s.len() {
                        assert(entries@[a] == s[a]);
                    } else {
                        assert(entries@[b] == s[b]);
                    }
                }
            },
        }
        self.entries = entries;
    }

    /// Removes `id`; says whether it was there.
    pub fn remove(&mut self, id: u64) -> (had: bool)
        ensures
            final(self)@ == old(self)@.remove(id),
            had == old(self)@.contains_key(id),
    {
        match self.position(id) {
            Some(i) => {
                let mut entries: Vec<(u64, V)> = Vec::new();
                std::mem::swap(&mut entries, &mut self.entries);
                let ghost s = entries@;
                entries.remove(i);
                let ghost t = entries@;
                assert(t =~= s.remove(i as int));
                assert forall|a: int, b: int|
                    0 <= a < t.len() && 0 <= b < t.len() && a != b implies t[a].0 != t[b].0 by {
                    let sa = if a < i { a } else { a + 1 };
                    let sb = if b < i { b } else { b + 1 };
                    assert(t[a] == s[sa] && t[b] == s[sb]);
                }
                assert forall|k: u64| #[trigger] pairs_map(t).contains_key(k) == pairs_map(s).remove(
                    id,
                ).contains_key(k) by {
                    lemma_pairs_map_dom(t, k);
                    lemma_pairs_map_dom(s, k);
                    if exists|j: int| 0 <= j < s.len() && s[j].0 == k {
                        let j = choose|j: int| 0 <= j < s.len() && s[j].0 == k;
                        if j < i {
                            assert(t[j] == s[j]);
                        } else if j > i {
                            assert(t[j - 1] == s[j]);
                        }
                    }
                    if exists|j: int| 0 <= j < t.len() && t[j].0 == k {
                        let j = choose|j: int| 0 <= j < t.len() && t[j].0 == k;
                        let sj = if j < i { j } else { j + 1 };
                        assert(t[j] == s[sj]);
                    }
                }
                assert forall|k: u64| #[trigger] pairs_map(t).contains_key(k) implies pairs_map(t)[k]
                    == pairs_map(s).remove(id)[k] by {
                    lemma_pairs_map_dom(t, k);
                    let j = choose|j: int| 0 <= j < t.len() && t[j].0 == k;
                    lemma_pairs_map_value(t, j);
                    let sj = if j < i { j } else { j + 1 };
                    assert(t[j] == s[sj]);
                    lemma_pairs_map_value(s, sj);
                }
                assert(pairs_map(t) =~= pairs_map(s).remove(id));
                self.entries = entries;
                true
            },
            None => {
                assert(self@ =~= self@.remove(id));
                false
            },
        }
    }

    /// The entries of the ids in `keep` only.
    pub fn restricted_to(&self, keep: &Vec<u64>) -> (t: IdTable<V>)
        ensures
            t@ == self@.restrict(keep@.to_set()),
    {
        let mut t = IdTable::new();
        let mut i: usize = 0;
        while i < keep.len()
            invariant
                i <= keep@.len(),
                t@ == self@.restrict(keep@.take(i as int).to_set()),
            decreases keep@.len() - i,
        {
            let id = keep[i];
            let ghost before = t@;
            assert(keep@.take(i + 1).to_set() =~= keep@.take(i as int).to_set().insert(id)) by {
                assert(keep@.take(i + 1) =~= keep@.take(i as int).push(id));
                keep@.take(i as int).lemma_push_to_set_commute(id);
            }
            match self.get(id) {
                Some(value) => {
                    t.insert(id, value);
                    assert(t@ =~= self@.restrict(keep@.take(i + 1).to_set()));
                },
                None => {
                    assert(t@ =~= self@.restrict(keep@.take(i + 1).to_set()));
                },
            }
            i = i + 1;
        }
        assert(keep@.take(keep@.len() as int) =~= keep@);
        t
    }

    /// The pairs of the table, one per id.
    pub fn pairs(&self) -> (g: Vec<(u64, V)>)
        ensures
            pairs_map(g@) == self@,
            distinct_ids(g@),
    {
        proof {
            use_type_invariant(self);
        }
        let mut g: Vec<(u64, V)> = Vec::new();
        let mut i: usize = 0;
        while i < self.entries.len()
            invariant
                i <= self.entries@.len(),
                g@ == self.entries@.take(i as int),
            decreases self.entries@.len() - i,
        {
            g.push(self.entries[i]);
            assert(g@ =~= self.entries@.take(i + 1));
            i = i + 1;
        }
        assert(g@ =~= self.entries@);
        g
    }

    /// The table that a list of pairs gives; a later pair for an id
    /// replaces an earlier one.
    pub fn from_pairs(pairs: &Vec<(u64, V)>) -> (t: IdTable<V>)
        ensures
            t@ == pairs_map(pairs@),
    {
        let mut t = IdTable::new();
        let mut i: usize = 0;
        while i < pairs.len()
            invariant
                i <= pairs@.len(),
                t@ == pairs_map(pairs@.take(i as int)),
            decreases pairs@.len() - i,
        {
            let g = pairs[i];
            t.insert(g.0, g.1);
            assert(pairs@.take(i + 1).drop_last() =~= pairs@.take(i as int));
            i = i + 1;
        }
        assert(pairs@.take(pairs@.len() as int) =~= pairs@);
        t
    }

    /// The number of ids in the table.
    pub fn len(&self) -> (n: usize)
        ensures
            n == self@.dom().len(),
    {
        proof {
            use_type_invariant(self);
            lemma_pairs_map_len(self.entries@);
        }
        self.entries.len()
    }

    /// The ids of the table, each once.
    pub fn ids(&self) -> (ids: Vec<u64>)
        ensures
            ids@.to_set() == self@.dom(),
            ids@.no_duplicates(),
    {
        proof {
            use_type_invariant(self);
        }
        let mut ids: Vec<u64> = Vec::new();
        let mut i: usize = 0;
        while i < self.entries.len()
            invariant
                distinct_ids(self.entries@),
                i <= self.entries@.len(),
                ids@.len() == i,
                forall|j: int| 0 <= j < i ==> #[trigger] ids@[j] == self.entries@[j].0,
            decreases self.entries@.len() - i,
        {
            ids.push(self.entries[i].0);
            i = i + 1;
        }
        assert forall|k: u64| #[trigger] ids@.to_set().contains(k) == self@.dom().contains(k) by {
            lemma_pairs_map_dom(self.entries@, k);
            if ids@.contains(k) {
                let j = choose|j: int| 0 <= j < ids@.len() && ids@[j] == k;
                assert(self.entries@[j].0 == k);
            }
            if exists|j: int| 0 <= j < self.entries@.len() && self.entries@[j].0 == k {
                let j = choose|j: int| 0 <= j < self.entries@.len() && self.entries@[j].0 == k;
                assert(ids@[j] == k);
            }
        }
        assert(ids@.to_set() =~= self@.dom());
        ids
    }
}

pub proof fn lemma_pairs_map_finite<V>(s: Seq<(u64, V)>)
    ensures
        pairs_map(s).dom().finite(),
    decreases s.len(),
{
    if s.len() > 0 {
        lemma_pairs_map_finite(s.drop_last());
    }
}

proof fn lemma_pairs_map_len<V>(s: Seq<(u64, V)>)
    requires
        distinct_ids(s),
    ensures
        pairs_map(s).dom().len() == s.len(),
    decreases s.len(),
{
    if s.len() > 0 {
        let t = s.drop_last();
        assert(distinct_ids(t)) by {
            assert forall|i: int, j: int|
                0 <= i < t.len() && 0 <= j < t.len() && i != j implies t[i].0 != t[j].0 by {
                assert(t[i] == s[i] && t[j] == s[j]);
            }
        }
        lemma_pairs_map_len(t);
        lemma_pairs_map_finite(t);
        lemma_pairs_map_dom(t, s.last().0);
        if pairs_map(t).contains_key(s.last().0) {
            let i = choose|i: int| 0 <= i < t.len() && t[i].0 == s.last().0;
            assert(s[i].0 == s[s.len() - 1].0);
        }
    }
}

} // verus!

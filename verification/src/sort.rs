//! A stable sort by `u64` keys, as `slice::sort_by_key` sorts: ascending,
//! and items with equal keys keep their order.

use vstd::prelude::*;

verus! {

/// Puts `x` in front of the first item of `sorted` whose key is not
/// smaller than its own.
pub open spec fn insert_by_key<T>(sorted: Seq<(u64, T)>, x: (u64, T)) -> Seq<(u64, T)>
    decreases sorted.len(),
{
    if sorted.len() == 0 {
        seq![x]
    } else if x.0 <= sorted[0].0 {
        seq![x] + sorted
    } else {
        seq![sorted[0]] + insert_by_key(sorted.drop_first(), x)
    }
}

/// The items of `s` in ascending key order; equal keys keep their order.
pub open spec fn sorted_by_key<T>(s: Seq<(u64, T)>) -> Seq<(u64, T)>
    decreases s.len(),
{
    if s.len() == 0 {
        seq![]
    } else {
        insert_by_key(sorted_by_key(s.drop_first()), s[0])
    }
}

/// The keys never decrease along `s`.
pub open spec fn keys_ascending<T>(s: Seq<(u64, T)>) -> bool {
    forall|i: int, j: int| 0 <= i <= j < s.len() ==> s[i].0 <= s[j].0
}

/// The items of `s` whose key is `k`, in order.
pub open spec fn with_key<T>(s: Seq<(u64, T)>, k: u64) -> Seq<(u64, T)>
    decreases s.len(),
{
    if s.len() == 0 {
        seq![]
    } else if s[0].0 == k {
        seq![s[0]] + with_key(s.drop_first(), k)
    } else {
        with_key(s.drop_first(), k)
    }
}

proof fn lemma_insert_at<T>(s: Seq<(u64, T)>, x: (u64, T), j: int)
    requires
        0 <= j <= s.len(),
        forall|i: int| 0 <= i < j ==> #[trigger] s[i].0 < x.0,
        j == s.len() || x.0 <= s[j].0,
    ensures
        insert_by_key(s, x) == s.insert(j, x),
    decreases s.len(),
{
    if s.len() == 0 {
        assert(s.insert(j, x) =~= seq![x]);
    } else if j == 0 {
        assert(s.insert(0, x) =~= seq![x] + s);
    } else {
        assert forall|i: int| 0 <= i < j - 1 implies #[trigger] s.drop_first()[i].0 < x.0 by {
            assert(s.drop_first()[i] == s[i + 1]);
        }
        lemma_insert_at(s.drop_first(), x, j - 1);
        assert(s.insert(j, x) =~= seq![s[0]] + s.drop_first().insert(j - 1, x));
    }
}

/// Sorts by key, stably.
pub fn stable_sort_by_key<T>(v: Vec<(u64, T)>) -> (r: Vec<(u64, T)>)
    ensures
        r@ == sorted_by_key(v@),
{
    let ghost orig = v@;
    let mut rest = v;
    let mut r: Vec<(u64, T)> = Vec::new();
    assert(orig.skip(orig.len() as int) =~= Seq::<(u64, T)>::empty());
    assert(orig.take(orig.len() as int) =~= orig);
    while rest.len() > 0
        invariant
            rest@ == orig.take(rest@.len() as int),
            rest@.len() <= orig.len(),
            r@ == sorted_by_key(orig.skip(rest@.len() as int)),
        decreases rest@.len(),
    {
        let ghost k = rest@.len() as int;
        let x = rest.pop().unwrap();
        assert(orig.skip(k - 1).drop_first() =~= orig.skip(k));
        assert(orig.skip(k - 1)[0] == x);
        assert(rest@ =~= orig.take(k - 1));
        let mut j: usize = 0;
        while j < r.len() && r[j].0 < x.0
            invariant
                j <= r@.len(),
                forall|i: int| 0 <= i < j ==> #[trigger] r@[i].0 < x.0,
            decreases r@.len() - j,
        {
            j = j + 1;
        }
        proof {
            lemma_insert_at(r@, x, j as int);
        }
        r.insert(j, x);
    }
    assert(orig.skip(0) =~= orig);
    r
}

/// Inserting into an ascending sequence keeps it ascending, and adds `x`
/// to the multiset of items.
proof fn lemma_insert_sorted<T>(s: Seq<(u64, T)>, x: (u64, T))
    requires
        keys_ascending(s),
    ensures
        keys_ascending(insert_by_key(s, x)),
        insert_by_key(s, x).to_multiset() == s.to_multiset().insert(x),
        insert_by_key(s, x).len() == s.len() + 1,
    decreases s.len(),
{
    broadcast use vstd::seq_lib::group_to_multiset_ensures;

    if s.len() == 0 {
        assert(insert_by_key(s, x) =~= seq![x]);
        assert(seq![x] =~= Seq::<(u64, T)>::empty().push(x));
    } else if x.0 <= s[0].0 {
        let r = seq![x] + s;
        assert forall|i: int, j: int| 0 <= i <= j < r.len() implies r[i].0 <= r[j].0 by {
            if i > 0 {
                assert(r[i] == s[i - 1] && r[j] == s[j - 1]);
            } else if j > 0 {
                assert(r[j] == s[j - 1]);
            }
        }
        vstd::seq_lib::lemma_multiset_commutative(seq![x], s);
        assert(seq![x] =~= Seq::<(u64, T)>::empty().push(x));
    } else {
        let t = s.drop_first();
        assert forall|i: int, j: int| 0 <= i <= j < t.len() implies t[i].0 <= t[j].0 by {
            assert(t[i] == s[i + 1] && t[j] == s[j + 1]);
        }
        lemma_insert_sorted(t, x);
        let it = insert_by_key(t, x);
        let r = seq![s[0]] + it;
        assert forall|i: int, j: int| 0 <= i <= j < r.len() implies r[i].0 <= r[j].0 by {
            if i > 0 {
                assert(r[i] == it[i - 1] && r[j] == it[j - 1]);
            } else if j > 0 {
                assert(r[j] == it[j - 1]);
                assert(it.to_multiset().count(it[j - 1]) > 0);
                assert(t.to_multiset().insert(x).count(it[j - 1]) > 0);
                if it[j - 1] != x {
                    assert(t.to_multiset().count(it[j - 1]) > 0);
                    assert(t.contains(it[j - 1]));
                    let k = choose|k: int| 0 <= k < t.len() && t[k] == it[j - 1];
                    assert(t[k] == s[k + 1]);
                }
            }
        }
        vstd::seq_lib::lemma_multiset_commutative(seq![s[0]], it);
        vstd::seq_lib::lemma_multiset_commutative(seq![s[0]], t);
        assert(s =~= seq![s[0]] + t);
    }
}

/// Law: the sorted items come in ascending key order and are exactly the
/// items that went in.
pub proof fn lemma_sorted_by_key<T>(s: Seq<(u64, T)>)
    ensures
        keys_ascending(sorted_by_key(s)),
        sorted_by_key(s).to_multiset() == s.to_multiset(),
        sorted_by_key(s).len() == s.len(),
    decreases s.len(),
{
    broadcast use vstd::seq_lib::group_to_multiset_ensures;

    if s.len() > 0 {
        lemma_sorted_by_key(s.drop_first());
        lemma_insert_sorted(sorted_by_key(s.drop_first()), s[0]);
        assert(s =~= s.drop_first().insert(0, s[0]));
    }
}

proof fn lemma_with_key_insert<T>(s: Seq<(u64, T)>, x: (u64, T), k: u64)
    ensures
        with_key(insert_by_key(s, x), k) == if x.0 == k {
            seq![x] + with_key(s, k)
        } else {
            with_key(s, k)
        },
    decreases s.len(),
{
    if s.len() == 0 {
        assert(insert_by_key(s, x) =~= seq![x]);
        assert(seq![x].drop_first() =~= Seq::<(u64, T)>::empty());
        assert(with_key(seq![x].drop_first(), k) =~= Seq::<(u64, T)>::empty());
        assert(seq![x] + Seq::<(u64, T)>::empty() =~= seq![x]);
    } else if x.0 <= s[0].0 {
        let r = seq![x] + s;
        assert(r.drop_first() =~= s);
        assert(r[0] == x);
    } else {
        lemma_with_key_insert(s.drop_first(), x, k);
        let it = insert_by_key(s.drop_first(), x);
        let r = seq![s[0]] + it;
        assert(r.drop_first() =~= it);
        assert(r[0] == s[0]);
        if s[0].0 == k {
            assert(with_key(r, k) == seq![s[0]] + with_key(it, k));
            assert(with_key(s, k) == seq![s[0]] + with_key(s.drop_first(), k));
            if x.0 == k {
                assert(false);
            }
        } else {
            assert(with_key(r, k) == with_key(it, k));
            assert(with_key(s, k) == with_key(s.drop_first(), k));
            if x.0 == k {
                assert(seq![x] + with_key(s.drop_first(), k) == with_key(it, k));
            }
        }
    }
}

/// Law (stability): for every key, the items with that key come out in
/// the order in which they went in.
pub proof fn lemma_sort_is_stable<T>(s: Seq<(u64, T)>, k: u64)
    ensures
        with_key(sorted_by_key(s), k) == with_key(s, k),
    decreases s.len(),
{
    if s.len() > 0 {
        lemma_sort_is_stable(s.drop_first(), k);
        lemma_with_key_insert(sorted_by_key(s.drop_first()), s[0], k);
    }
}


/// Applies `g` to the item of each pair, keeping its key.
pub open spec fn map_items<T, U>(s: Seq<(u64, T)>, g: spec_fn(T) -> U) -> Seq<(u64, U)> {
    s.map_values(|p: (u64, T)| (p.0, g(p.1)))
}

proof fn lemma_insert_map<T, U>(s: Seq<(u64, T)>, x: (u64, T), g: spec_fn(T) -> U)
    ensures
        map_items(insert_by_key(s, x), g) == insert_by_key(map_items(s, g), (x.0, g(x.1))),
    decreases s.len(),
{
    if s.len() == 0 {
        assert(map_items(seq![x], g) =~= seq![(x.0, g(x.1))]);
    } else if x.0 <= s[0].0 {
        assert(map_items(seq![x] + s, g) =~= seq![(x.0, g(x.1))] + map_items(s, g));
    } else {
        lemma_insert_map(s.drop_first(), x, g);
        assert(map_items(s, g).drop_first() =~= map_items(s.drop_first(), g));
        assert(map_items(seq![s[0]] + insert_by_key(s.drop_first(), x), g) =~= seq![
            (s[0].0, g(s[0].1)),
        ] + map_items(insert_by_key(s.drop_first(), x), g));
    }
}

/// Sorting commutes with changing the items while keeping their keys.
pub proof fn lemma_sort_map<T, U>(s: Seq<(u64, T)>, g: spec_fn(T) -> U)
    ensures
        map_items(sorted_by_key(s), g) == sorted_by_key(map_items(s, g)),
    decreases s.len(),
{
    if s.len() > 0 {
        lemma_sort_map(s.drop_first(), g);
        lemma_insert_map(sorted_by_key(s.drop_first()), s[0], g);
        assert(map_items(s, g).drop_first() =~= map_items(s.drop_first(), g));
    }
}


/// The items of a sequence of keyed pairs.
pub open spec fn items<T>(s: Seq<(u64, T)>) -> Seq<T> {
    s.map_values(|p: (u64, T)| p.1)
}

/// Drops the keys, keeping the items in order.
pub fn into_items<T>(v: Vec<(u64, T)>) -> (r: Vec<T>)
    ensures
        r@ == items(v@),
{
    let ghost s = v@;
    let mut rest = v;
    let mut r: Vec<T> = Vec::new();
    while rest.len() > 0
        invariant
            rest@.len() + r@.len() == s.len(),
            r@ =~= items(s).take(r@.len() as int),
            rest@ =~= s.skip(r@.len() as int),
        decreases rest@.len(),
    {
        let ghost j = r@.len() as int;
        let (_key, item) = rest.remove(0);
        assert(s[j].1 == item);
        r.push(item);
        assert(r@ =~= items(s).take(j + 1));
        assert(rest@ =~= s.skip(j + 1));
    }
    assert(r@ =~= items(s));
    r
}

} // verus!

//! Sorting by a composite key: rank, then text, then number, then position.
use vstd::prelude::*;
use vstd::seq_lib::lemma_sorted_unique;
use vstd::relations::{antisymmetric, reflexive, strongly_connected, total_ordering, transitive};
use crate::text::{less, lex_lt, lemma_lex_total, lemma_lex_trans, same};

verus! {

/// What an item is sorted by. `at` is the item's position in its list, so items
/// that agree in the rest keep their order.
pub struct Key {
    pub rank: u64,
    pub name: String,
    pub number: u64,
    pub at: usize,
}

/// The values of a [`Key`].
pub struct KeyView {
    pub rank: u64,
    pub name: Seq<char>,
    pub number: u64,
    pub at: nat,
}

impl View for Key {
    type V = KeyView;

    open spec fn view(&self) -> KeyView {
        KeyView { rank: self.rank, name: self.name@, number: self.number, at: self.at as nat }
    }
}

pub open spec fn key_lt(a: KeyView, b: KeyView) -> bool {
    if a.rank != b.rank {
        a.rank < b.rank
    } else if a.name != b.name {
        lex_lt(a.name, b.name)
    } else if a.number != b.number {
        a.number < b.number
    } else {
        a.at < b.at
    }
}

pub open spec fn key_le() -> spec_fn(KeyView, KeyView) -> bool {
    |a: KeyView, b: KeyView| a == b || key_lt(a, b)
}

pub proof fn lemma_key_order()
    ensures
        total_ordering(key_le()),
{
    let le = key_le();
    assert forall|a: KeyView, b: KeyView| #[trigger] le(a, b) || #[trigger] le(b, a) by {
        lemma_lex_total(a.name, b.name);
        if a.rank == b.rank && a.name == b.name && a.number == b.number && a.at == b.at {
            assert(a == b);
        }
    }
    assert forall|a: KeyView, b: KeyView| #[trigger] le(a, b) && #[trigger] le(b, a) implies a == b by {
        lemma_lex_total(a.name, b.name);
    }
    assert forall|a: KeyView, b: KeyView, c: KeyView|
        #[trigger] le(a, b) && #[trigger] le(b, c) implies le(a, c) by {
        lemma_lex_total(a.name, b.name);
        lemma_lex_total(b.name, c.name);
        lemma_lex_total(a.name, c.name);
        if lex_lt(a.name, b.name) && lex_lt(b.name, c.name) {
            lemma_lex_trans(a.name, b.name, c.name);
        }
    }
    assert(reflexive(le));
    assert(antisymmetric(le));
    assert(transitive(le));
    assert(strongly_connected(le));
}

pub open spec fn key_views(keys: Seq<Key>) -> Seq<KeyView> {
    Seq::new(keys.len(), |i: int| keys[i]@)
}

/// The keys in ascending order.
pub open spec fn sorted_keys(keys: Seq<KeyView>) -> Seq<KeyView> {
    keys.sort_by(key_le())
}

/// The positions of the keys, in ascending order of the keys.
pub open spec fn sort_order(keys: Seq<KeyView>) -> Seq<int> {
    sorted_keys(keys).map_values(|k: KeyView| k.at as int)
}

fn key_less(a: &Key, b: &Key) -> (r: bool)
    ensures
        r == key_lt(a@, b@),
{
    if a.rank != b.rank {
        a.rank < b.rank
    } else if !same(a.name.as_str(), b.name.as_str()) {
        less(a.name.as_str(), b.name.as_str())
    } else if a.number != b.number {
        a.number < b.number
    } else {
        a.at < b.at
    }
}

/// Keys that carry their own positions.
pub open spec fn positioned(keys: Seq<KeyView>) -> bool {
    forall|i: int| 0 <= i < keys.len() ==> (#[trigger] keys[i]).at == i
}

/// Sorts keys and gives their positions in ascending order.
pub fn sort(keys: Vec<Key>) -> (r: Vec<usize>)
    requires
        positioned(key_views(keys@)),
    ensures
        r@.len() == keys@.len(),
        forall|i: int| 0 <= i < r@.len() ==> (#[trigger] r@[i] as int) == sort_order(
            key_views(keys@),
        )[i] && r@[i] < keys@.len(),
        sort_order(key_views(keys@)).len() == keys@.len(),
{
    let ghost all = key_views(keys@);
    let ghost le = key_le();
    proof {
        lemma_key_order();
    }
    let n: usize = keys.len();
    let mut out: Vec<Key> = Vec::new();
    let mut rest = keys;
    assert(key_views(rest@).to_multiset() =~= all.to_multiset());
    assert(key_views(out@) =~= Seq::<KeyView>::empty());
    assert(key_views(out@) + key_views(rest@) =~= all);
    while rest.len() > 0
        invariant
            le == key_le(),
            total_ordering(le),
            all.len() == n,
            out@.len() + rest@.len() == n,
            (key_views(out@) + key_views(rest@)).to_multiset() =~= all.to_multiset(),
            vstd::relations::sorted_by(key_views(out@), le),
            positioned(all),
        decreases rest@.len(),
    {
        broadcast use vstd::seq_lib::group_to_multiset_ensures;

        let ghost o0 = key_views(out@);
        let ghost r0 = key_views(rest@);
        let k = rest.pop().unwrap();
        let ghost kv = k@;
        assert(key_views(rest@) =~= r0.drop_last());
        assert(r0.last() == kv);
        let mut p: usize = out.len();
        while p > 0 && key_less(&k, &out[p - 1])
            invariant
                p <= out@.len(),
                key_views(out@) == o0,
                kv == k@,
                forall|j: int| p <= j < out@.len() ==> key_lt(kv, #[trigger] o0[j]),
            decreases p,
        {
            p -= 1;
        }
        out.insert(p, k);
        proof {
            assert(key_views(out@) =~= o0.insert(p as int, kv));
            let o1 = key_views(out@);
            assert forall|i: int, j: int| 0 <= i < j < o1.len() implies #[trigger] le(
                o1[i],
                o1[j],
            ) by {
                if j < p {
                    assert(le(o0[i], o0[j]));
                } else if i > p {
                    assert(le(o0[i - 1], o0[j - 1]));
                } else if i == p {
                    assert(key_lt(kv, o0[j - 1]));
                } else if j == p {
                    lemma_key_order();
                    assert(!key_lt(kv, o0[p - 1]));
                    assert(le(o0[p - 1], kv) || le(kv, o0[p - 1]));
                    if i < p - 1 {
                        assert(le(o0[i], o0[p - 1]));
                        assert(le(o0[i], kv));
                    }
                } else {
                    assert(le(o0[i], o0[j - 1]));
                }
            }
            vstd::seq_lib::to_multiset_insert(o0, p as int, kv);
            vstd::seq_lib::lemma_multiset_commutative(o1, key_views(rest@));
            vstd::seq_lib::lemma_multiset_commutative(o0, r0);
            assert(r0 =~= key_views(rest@).push(kv));
            vstd::seq_lib::to_multiset_build(key_views(rest@), kv);
            assert((o1 + key_views(rest@)).to_multiset() =~= (o0 + r0).to_multiset());
        }
    }
    let mut r: Vec<usize> = Vec::new();
    let ghost o = key_views(out@);
    proof {
        assert(o + key_views(rest@) =~= o);
        all.lemma_sort_by_ensures(le);
        let s = all.sort_by(le);
        assert(s.to_multiset() =~= o.to_multiset());
        lemma_sorted_unique(s, o, le);
        assert(s == o);
        assert forall|i: int| 0 <= i < o.len() implies (#[trigger] o[i]).at < n by {
            broadcast use vstd::seq_lib::group_to_multiset_ensures;

            assert(o.contains(o[i]));
            assert(o.to_multiset().count(o[i]) > 0);
            assert(all.to_multiset().count(o[i]) > 0);
            assert(all.contains(o[i]));
            let q = choose|q: int| 0 <= q < all.len() && all[q] == o[i];
            assert(all[q].at == q);
        }
    }
    for i in 0..out.len()
        invariant
            o == key_views(out@),
            r@.len() == i,
            forall|j: int| 0 <= j < i ==> (#[trigger] r@[j]) == o[j].at,
    {
        r.push(out[i].at);
        assert(o[i as int].at == out@[i as int].at);
    }
    assert(sort_order(all).len() == n);
    r
}

/// The order of keys that carry their positions holds each position in range, and
/// no key stands before a lesser one.
pub proof fn lemma_sort_order(keys: Seq<KeyView>)
    requires
        positioned(keys),
    ensures
        sort_order(keys).len() == keys.len(),
        forall|i: int|
            0 <= i < keys.len() ==> 0 <= #[trigger] sort_order(keys)[i] < keys.len(),
        forall|i: int, j: int|
            0 <= i < j < keys.len() ==> !key_lt(
                keys[#[trigger] sort_order(keys)[j]],
                keys[#[trigger] sort_order(keys)[i]],
            ),
{
    let le = key_le();
    lemma_key_order();
    keys.lemma_sort_by_ensures(le);
    let s = sorted_keys(keys);
    broadcast use vstd::seq_lib::group_to_multiset_ensures;

    assert(s.to_multiset().len() == s.len());
    assert(keys.to_multiset().len() == keys.len());
    assert(s.len() == keys.len());
    assert forall|i: int| 0 <= i < s.len() implies (#[trigger] s[i]).at < keys.len()
        && keys[s[i].at as int] == s[i] by {
        assert(s.contains(s[i]));
        assert(s.to_multiset().count(s[i]) > 0);
        assert(keys.to_multiset().count(s[i]) > 0);
        assert(keys.contains(s[i]));
        let q = choose|q: int| 0 <= q < keys.len() && keys[q] == s[i];
        assert(keys[q].at == q);
    }
    assert forall|i: int, j: int| 0 <= i < j < keys.len() implies !key_lt(
        keys[#[trigger] sort_order(keys)[j]],
        keys[#[trigger] sort_order(keys)[i]],
    ) by {
        assert(le(s[i], s[j]));
        assert(keys[s[i].at as int] == s[i]);
        assert(keys[s[j].at as int] == s[j]);
        lemma_lex_total(s[i].name, s[j].name);
        if key_lt(s[j], s[i]) {
            assert(le(s[j], s[i]));
            assert(s[i] == s[j]);
        }
    }
}

/// Sorted keys with one more in its place.
pub open spec fn with_key(s: Seq<KeyView>, k: KeyView) -> Seq<KeyView>
    decreases s.len(),
{
    if s.len() == 0 {
        seq![k]
    } else if key_le()(s.last(), k) {
        s.push(k)
    } else {
        with_key(s.drop_last(), k).push(s.last())
    }
}

proof fn lemma_with_key(s: Seq<KeyView>, k: KeyView)
    requires
        vstd::relations::sorted_by(s, key_le()),
    ensures
        vstd::relations::sorted_by(with_key(s, k), key_le()),
        with_key(s, k).to_multiset() == s.to_multiset().insert(k),
        with_key(s, k).len() == s.len() + 1,
        forall|i: int|
            0 <= i <= s.len() ==> (#[trigger] with_key(s, k)[i]) == k || s.contains(
                with_key(s, k)[i],
            ),
    decreases s.len(),
{
    broadcast use vstd::seq_lib::group_to_multiset_ensures;

    let le = key_le();
    lemma_key_order();
    let r = with_key(s, k);
    if s.len() == 0 {
        assert(r =~= s.push(k));
    } else if le(s.last(), k) {
        assert forall|i: int, j: int| 0 <= i < j < r.len() implies #[trigger] le(r[i], r[j]) by {
            if j < s.len() {
                assert(le(s[i], s[j]));
            } else if i < s.len() - 1 {
                assert(le(s[i], s[s.len() - 1]));
                assert(le(s[i], k));
            }
        }
        assert forall|i: int| 0 <= i <= s.len() implies (#[trigger] r[i]) == k || s.contains(
            r[i],
        ) by {
            if i < s.len() {
                assert(r[i] == s[i]);
            }
        }
    } else {
        let front = s.drop_last();
        assert(vstd::relations::sorted_by(front, le)) by {
            assert forall|i: int, j: int| 0 <= i < j < front.len() implies #[trigger] le(
                front[i],
                front[j],
            ) by {
                assert(le(s[i], s[j]));
            }
        }
        lemma_with_key(front, k);
        let q = with_key(front, k);
        assert(le(k, s.last()));
        assert forall|i: int| 0 <= i < q.len() implies le(#[trigger] q[i], s.last()) by {
            if q[i] != k {
                let m = choose|m: int| 0 <= m < front.len() && front[m] == q[i];
                assert(le(s[m], s[s.len() - 1]));
            }
        }
        assert forall|i: int, j: int| 0 <= i < j < r.len() implies #[trigger] le(r[i], r[j]) by {
            if j < q.len() {
                assert(le(q[i], q[j]));
            } else {
                assert(le(q[i], s.last()));
            }
        }
        assert(front.push(s.last()) =~= s);
        assert(s.to_multiset() =~= front.to_multiset().insert(s.last()));
        assert(r.to_multiset() =~= s.to_multiset().insert(k));
        assert forall|i: int| 0 <= i <= s.len() implies (#[trigger] r[i]) == k || s.contains(
            r[i],
        ) by {
            if i < q.len() {
                assert(r[i] == q[i]);
                if q[i] != k {
                    let m = choose|m: int| 0 <= m < front.len() && front[m] == q[i];
                    assert(s[m] == r[i]);
                }
            } else {
                assert(r[i] == s[s.len() - 1]);
            }
        }
    }
}

/// Keys with one more behind them are sorted as the keys are, with that one in its
/// place.
pub proof fn lemma_sorted_push(keys: Seq<KeyView>, k: KeyView)
    ensures
        sorted_keys(keys.push(k)) == with_key(sorted_keys(keys), k),
{
    broadcast use vstd::seq_lib::group_to_multiset_ensures;

    let le = key_le();
    lemma_key_order();
    keys.lemma_sort_by_ensures(le);
    keys.push(k).lemma_sort_by_ensures(le);
    let s = sorted_keys(keys);
    lemma_with_key(s, k);
    assert(with_key(s, k).to_multiset() =~= keys.push(k).to_multiset());
    lemma_sorted_unique(sorted_keys(keys.push(k)), with_key(s, k), le);
}

/// The sorted keys are the keys at the positions that they carry.
pub proof fn lemma_sorted_positions(keys: Seq<KeyView>)
    requires
        positioned(keys),
    ensures
        sorted_keys(keys).len() == keys.len(),
        forall|i: int|
            0 <= i < keys.len() ==> (#[trigger] sorted_keys(keys)[i]).at < keys.len()
                && keys[sorted_keys(keys)[i].at as int] == sorted_keys(keys)[i],
{
    broadcast use vstd::seq_lib::group_to_multiset_ensures;

    let le = key_le();
    lemma_key_order();
    keys.lemma_sort_by_ensures(le);
    let s = sorted_keys(keys);
    assert(s.to_multiset().len() == s.len());
    assert(keys.to_multiset().len() == keys.len());
    assert forall|i: int| 0 <= i < keys.len() implies (#[trigger] s[i]).at < keys.len()
        && keys[s[i].at as int] == s[i] by {
        assert(s.contains(s[i]));
        assert(s.to_multiset().count(s[i]) > 0);
        assert(keys.to_multiset().count(s[i]) > 0);
        assert(keys.contains(s[i]));
        let q = choose|q: int| 0 <= q < keys.len() && keys[q] == s[i];
        assert(keys[q].at == q);
    }
}

/// Sorting leaves nothing out and repeats nothing: every position occurs, once.
pub proof fn lemma_sort_covers(keys: Seq<KeyView>)
    requires
        positioned(keys),
    ensures
        sort_order(keys).len() == keys.len(),
        forall|p: int| 0 <= p < keys.len() ==> sort_order(keys).contains(p),
        forall|i: int, j: int|
            0 <= i < j < keys.len() ==> #[trigger] sort_order(keys)[i] != #[trigger] sort_order(
                keys,
            )[j],
{
    broadcast use vstd::seq_lib::group_to_multiset_ensures;

    let le = key_le();
    lemma_key_order();
    keys.lemma_sort_by_ensures(le);
    lemma_sorted_positions(keys);
    let s = sorted_keys(keys);
    let o = sort_order(keys);
    assert forall|p: int| 0 <= p < keys.len() implies o.contains(p) by {
        assert(keys.contains(keys[p]));
        assert(keys.to_multiset().count(keys[p]) > 0);
        assert(s.to_multiset().count(keys[p]) > 0);
        assert(s.contains(keys[p]));
        let i = choose|i: int| 0 <= i < s.len() && s[i] == keys[p];
        assert(o[i] == p);
    }
    lemma_onto_is_one_to_one(o);
}

proof fn lemma_onto_is_one_to_one(o: Seq<int>)
    requires
        forall|p: int| 0 <= p < o.len() ==> o.contains(p),
        forall|i: int| 0 <= i < o.len() ==> 0 <= #[trigger] o[i] < o.len(),
    ensures
        forall|i: int, j: int| 0 <= i < j < o.len() ==> #[trigger] o[i] != #[trigger] o[j],
{
    let n = o.len();
    let all = Set::<int>::new(|p: int| 0 <= p < n);
    vstd::set_lib::lemma_int_range(0, n as int);
    assert(all =~= vstd::set_lib::set_int_range(0, n as int));
    assert(o.to_set() =~= all) by {
        assert forall|p: int| o.to_set().contains(p) == all.contains(p) by {
            if o.contains(p) {
                let i = choose|i: int| 0 <= i < o.len() && o[i] == p;
            }
        }
    }
    if !o.no_duplicates() {
        o.lemma_cardinality_of_set();
        let (i, j) = choose|i: int, j: int| 0 <= i < j < o.len() && o[i] == o[j];
        let r = o.remove(j);
        r.lemma_cardinality_of_set();
        assert(r.to_set() =~= o.to_set()) by {
            assert forall|p: int| o.to_set().contains(p) == r.to_set().contains(p) by {
                if o.contains(p) {
                    let k = choose|k: int| 0 <= k < o.len() && o[k] == p;
                    if k < j {
                        assert(r[k] == p);
                    } else if k > j {
                        assert(r[k - 1] == p);
                    } else {
                        assert(r[i] == p);
                    }
                }
                if r.contains(p) {
                    let k = choose|k: int| 0 <= k < r.len() && r[k] == p;
                    if k < j {
                        assert(o[k] == p);
                    } else {
                        assert(o[k + 1] == p);
                    }
                }
            }
        }
        assert(false);
    }
}

} // verus!

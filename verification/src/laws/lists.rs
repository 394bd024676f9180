//! Lists that were filtered, sorted or put together: what is in them, and in which order.
use vstd::prelude::*;
use crate::izakaya::replay::arranged;
use crate::order::{lemma_sort_covers, lemma_sort_order, positioned, sort_order, KeyView};

verus! {

/// Places in ascending order, each below a bound.
pub open spec fn ascending_below(places: Seq<int>, n: nat) -> bool {
    &&& forall|k: int| 0 <= k < places.len() ==> 0 <= #[trigger] places[k] < n
    &&& forall|k: int, m: int|
        0 <= k < m < places.len() ==> #[trigger] places[k] < #[trigger] places[m]
}

/// Where the items of a filtered list stand in the list.
pub proof fn lemma_filter_places<T>(s: Seq<T>, p: spec_fn(T) -> bool) -> (places: Seq<int>)
    ensures
        places.len() == s.filter(p).len(),
        ascending_below(places, s.len()),
        forall|k: int|
            0 <= k < places.len() ==> s[#[trigger] places[k]] == s.filter(p)[k] && p(s[places[k]]),
        forall|i: int| 0 <= i < s.len() && p(#[trigger] s[i]) ==> places.contains(i),
    decreases s.len(),
{
    reveal(Seq::filter);
    if s.len() == 0 {
        Seq::empty()
    } else {
        let t = s.drop_last();
        let rest = lemma_filter_places(t, p);
        let n = s.len() - 1;
        if p(s.last()) {
            let places = rest.push(n);
            assert(s.filter(p) == t.filter(p).push(s.last()));
            assert forall|k: int| 0 <= k < places.len() implies s[#[trigger] places[k]] == s.filter(
                p,
            )[k] && p(s[places[k]]) by {
                if k < rest.len() {
                    assert(places[k] == rest[k]);
                    assert(t[rest[k]] == t.filter(p)[k]);
                }
            }
            assert forall|i: int| 0 <= i < s.len() && p(#[trigger] s[i]) implies places.contains(
                i,
            ) by {
                if i < n {
                    assert(t[i] == s[i]);
                    let k = choose|k: int| 0 <= k < rest.len() && rest[k] == i;
                    assert(places[k] == i);
                } else {
                    assert(places[rest.len() as int] == n);
                }
            }
            places
        } else {
            assert forall|k: int| 0 <= k < rest.len() implies s[#[trigger] rest[k]] == s.filter(
                p,
            )[k] && p(s[rest[k]]) by {
                assert(t[rest[k]] == t.filter(p)[k]);
            }
            assert forall|i: int| 0 <= i < s.len() && p(#[trigger] s[i]) implies rest.contains(
                i,
            ) by {
                assert(t[i] == s[i]);
            }
            rest
        }
    }
}

/// A list that is sorted by keys has the items it had.
pub proof fn lemma_arranged_items<T>(v: Seq<T>, keys: Seq<KeyView>)
    requires
        positioned(keys),
        keys.len() == v.len(),
    ensures
        arranged(v, sort_order(keys)).len() == v.len(),
        forall|x: T| arranged(v, sort_order(keys)).contains(x) <==> v.contains(x),
        forall|i: int|
            0 <= i < v.len() ==> 0 <= #[trigger] sort_order(keys)[i] < v.len() && arranged(
                v,
                sort_order(keys),
            )[i] == v[sort_order(keys)[i]],
{
    let o = sort_order(keys);
    let a = arranged(v, o);
    lemma_sort_covers(keys);
    lemma_sort_order(keys);
    assert forall|x: T| a.contains(x) <==> v.contains(x) by {
        if a.contains(x) {
            let i = choose|i: int| 0 <= i < a.len() && a[i] == x;
            assert(v[o[i]] == x);
        }
        if v.contains(x) {
            let p = choose|p: int| 0 <= p < v.len() && v[p] == x;
            assert(o.contains(p));
            let i = choose|i: int| 0 <= i < o.len() && o[i] == p;
            assert(a[i] == x);
        }
    }
}

/// What is in two lists put together is in one of them.
pub proof fn lemma_contains_add<T>(a: Seq<T>, b: Seq<T>, x: T)
    ensures
        (a + b).contains(x) <==> a.contains(x) || b.contains(x),
{
    if a.contains(x) {
        let i = choose|i: int| 0 <= i < a.len() && a[i] == x;
        assert((a + b)[i] == x);
    }
    if b.contains(x) {
        let i = choose|i: int| 0 <= i < b.len() && b[i] == x;
        assert((a + b)[a.len() + i] == x);
    }
    if (a + b).contains(x) {
        let i = choose|i: int| 0 <= i < (a + b).len() && (a + b)[i] == x;
        if i < a.len() {
            assert(a[i] == x);
        } else {
            assert(b[i - a.len()] == x);
        }
    }
}

pub proof fn lemma_contains_push<T>(a: Seq<T>, y: T, x: T)
    ensures
        a.push(y).contains(x) <==> a.contains(x) || x == y,
{
    assert(a.push(y) =~= a + seq![y]);
    lemma_contains_add(a, seq![y], x);
    assert(seq![y].contains(x) <==> x == y) by {
        assert(seq![y][0] == y);
    }
}

} // verus!

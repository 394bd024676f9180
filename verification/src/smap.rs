//! Maps from texts to values, kept in the order of their keys.
use vstd::prelude::*;
use crate::text::{copy, less, lemma_lex_total, lemma_lex_trans, lex_lt, same};

verus! {

/// Entries in ascending order of their keys, no key twice.
pub struct StrMap<V> {
    pub entries: Vec<(String, V)>,
}

/// The keys and values of a map, in the order of the keys.
pub open spec fn entries_view<V: View>(s: Seq<(String, V)>) -> Seq<(Seq<char>, V::V)> {
    Seq::new(s.len(), |i: int| (s[i].0@, s[i].1@))
}

impl<V: View> View for StrMap<V> {
    type V = Seq<(Seq<char>, V::V)>;

    open spec fn view(&self) -> Seq<(Seq<char>, V::V)> {
        entries_view(self.entries@)
    }
}

/// Keys in strictly ascending order.
pub open spec fn ascending<T>(s: Seq<(Seq<char>, T)>) -> bool {
    forall|i: int, j: int| 0 <= i < j < s.len() ==> lex_lt((#[trigger] s[i]).0, (#[trigger] s[j]).0)
}

/// The value at a key.
pub open spec fn at<T>(s: Seq<(Seq<char>, T)>, key: Seq<char>) -> Option<T>
    decreases s.len(),
{
    if s.len() == 0 {
        None
    } else if s[0].0 == key {
        Some(s[0].1)
    } else {
        at(s.drop_first(), key)
    }
}

/// The map with one value set.
pub open spec fn put<T>(s: Seq<(Seq<char>, T)>, key: Seq<char>, value: T) -> Seq<(Seq<char>, T)>
    decreases s.len(),
{
    if s.len() == 0 {
        seq![(key, value)]
    } else if s[0].0 == key {
        seq![(key, value)] + s.drop_first()
    } else if lex_lt(key, s[0].0) {
        seq![(key, value)] + s
    } else {
        seq![s[0]] + put(s.drop_first(), key, value)
    }
}

pub proof fn lemma_at_index<T>(s: Seq<(Seq<char>, T)>, key: Seq<char>, p: int)
    requires
        0 <= p <= s.len(),
        forall|j: int| 0 <= j < p ==> (#[trigger] s[j]).0 != key,
    ensures
        at(s, key) == at(s.skip(p), key),
        p < s.len() && s[p].0 == key ==> at(s, key) == Some(s[p].1),
        p == s.len() ==> at(s, key) is None,
    decreases p,
{
    if p == 0 {
        assert(s.skip(0) =~= s);
    } else {
        let t = s.drop_first();
        assert(s[0].0 != key);
        assert forall|j: int| 0 <= j < p - 1 implies (#[trigger] t[j]).0 != key by {
            assert(t[j] == s[j + 1]);
        }
        lemma_at_index(t, key, p - 1);
        assert(t.skip(p - 1) =~= s.skip(p));
    }
}

pub proof fn lemma_put_index<T>(s: Seq<(Seq<char>, T)>, key: Seq<char>, value: T, p: int)
    requires
        0 <= p <= s.len(),
        forall|j: int| 0 <= j < p ==> lex_lt((#[trigger] s[j]).0, key),
        p < s.len() ==> !lex_lt(s[p].0, key),
    ensures
        p < s.len() && s[p].0 == key ==> put(s, key, value) == s.update(p, (key, value)),
        !(p < s.len() && s[p].0 == key) ==> put(s, key, value) == s.insert(p, (key, value)),
    decreases p,
{
    if p == 0 {
        if s.len() > 0 {
            lemma_lex_total(s[0].0, key);
            if s[0].0 == key {
                assert(put(s, key, value) =~= s.update(0, (key, value)));
            } else {
                assert(put(s, key, value) =~= s.insert(0, (key, value)));
            }
        } else {
            assert(put(s, key, value) =~= s.insert(0, (key, value)));
        }
    } else {
        let t = s.drop_first();
        lemma_lex_total(s[0].0, key);
        assert(lex_lt(s[0].0, key));
        assert forall|j: int| 0 <= j < p - 1 implies lex_lt((#[trigger] t[j]).0, key) by {
            assert(t[j] == s[j + 1]);
        }
        lemma_put_index(t, key, value, p - 1);
        if p < s.len() && s[p].0 == key {
            assert(put(s, key, value) =~= s.update(p, (key, value)));
        } else {
            assert(put(s, key, value) =~= s.insert(p, (key, value)));
        }
    }
}

/// What was put at a key is found there, and nothing else changes.
pub proof fn lemma_at_put<T>(s: Seq<(Seq<char>, T)>, key: Seq<char>, value: T, q: Seq<char>)
    ensures
        at(put(s, key, value), q) == (if q == key {
            Some(value)
        } else {
            at(s, q)
        }),
    decreases s.len(),
{
    let r = put(s, key, value);
    if s.len() == 0 {
        assert(r.drop_first() =~= s);
    } else if s[0].0 == key {
        assert(r.drop_first() =~= s.drop_first());
    } else if lex_lt(key, s[0].0) {
        assert(r.drop_first() =~= s);
    } else {
        assert(r.drop_first() =~= put(s.drop_first(), key, value));
        lemma_at_put(s.drop_first(), key, value, q);
    }
}

/// Setting a value keeps the keys ascending.
pub proof fn lemma_put_ascending<T>(s: Seq<(Seq<char>, T)>, key: Seq<char>, value: T)
    requires
        ascending(s),
    ensures
        ascending(put(s, key, value)),
        put(s, key, value).len() <= s.len() + 1,
        put(s, key, value).len() >= 1,
    decreases s.len(),
{
    let r = put(s, key, value);
    if s.len() > 0 {
        let t = s.drop_first();
        assert(ascending(t)) by {
            assert forall|i: int, j: int| 0 <= i < j < t.len() implies lex_lt(
                (#[trigger] t[i]).0,
                (#[trigger] t[j]).0,
            ) by {
                assert(t[i] == s[i + 1] && t[j] == s[j + 1]);
            }
        }
        lemma_put_ascending(t, key, value);
        lemma_lex_total(s[0].0, key);
        if s[0].0 == key {
            assert forall|i: int, j: int| 0 <= i < j < r.len() implies lex_lt(
                (#[trigger] r[i]).0,
                (#[trigger] r[j]).0,
            ) by {
                assert(r[i].0 == s[i].0 && r[j].0 == s[j].0);
            }
        } else if lex_lt(key, s[0].0) {
            assert forall|i: int, j: int| 0 <= i < j < r.len() implies lex_lt(
                (#[trigger] r[i]).0,
                (#[trigger] r[j]).0,
            ) by {
                assert(r[j] == s[j - 1]);
                if i == 0 {
                    if j > 1 {
                        lemma_lex_trans(key, s[0].0, s[j - 1].0);
                    }
                } else {
                    assert(r[i] == s[i - 1]);
                }
            }
        } else {
            let u = put(t, key, value);
            assert forall|j: int| 0 <= j < u.len() implies lex_lt(s[0].0, (#[trigger] u[j]).0) by {
                lemma_put_keys(t, key, value, j);
                if u[j].0 != key {
                    let k = choose|k: int| 0 <= k < t.len() && t[k].0 == u[j].0;
                    assert(t[k] == s[k + 1]);
                }
            }
            assert forall|i: int, j: int| 0 <= i < j < r.len() implies lex_lt(
                (#[trigger] r[i]).0,
                (#[trigger] r[j]).0,
            ) by {
                assert(r[j] == u[j - 1]);
                if i > 0 {
                    assert(r[i] == u[i - 1]);
                }
            }
        }
    }
}

proof fn lemma_put_keys<T>(s: Seq<(Seq<char>, T)>, key: Seq<char>, value: T, j: int)
    requires
        0 <= j < put(s, key, value).len(),
    ensures
        put(s, key, value)[j].0 == key || exists|k: int|
            0 <= k < s.len() && (#[trigger] s[k]).0 == put(s, key, value)[j].0,
    decreases s.len(),
{
    let r = put(s, key, value);
    if s.len() > 0 {
        if s[0].0 == key {
            if j > 0 {
                assert(r[j] == s[j]);
            }
        } else if lex_lt(key, s[0].0) {
            if j > 0 {
                assert(r[j] == s[j - 1]);
            }
        } else if j == 0 {
            assert(r[0] == s[0]);
        } else {
            let t = s.drop_first();
            lemma_put_keys(t, key, value, j - 1);
            assert(r[j] == put(t, key, value)[j - 1]);
            if r[j].0 != key {
                let k = choose|k: int| 0 <= k < t.len() && (#[trigger] t[k]).0 == r[j].0;
                assert(s[k + 1].0 == r[j].0);
            }
        }
    }
}

/// The map has ascending keys and therefore no key twice.
pub proof fn lemma_ascending_remove<T>(s: Seq<(Seq<char>, T)>, p: int)
    requires
        ascending(s),
        0 <= p < s.len(),
    ensures
        ascending(s.remove(p)),
{
    let r = s.remove(p);
    assert forall|i: int, j: int| 0 <= i < j < r.len() implies lex_lt(
        (#[trigger] r[i]).0,
        (#[trigger] r[j]).0,
    ) by {
        let a = if i < p {
            i
        } else {
            i + 1
        };
        let b = if j < p {
            j
        } else {
            j + 1
        };
        assert(r[i] == s[a] && r[j] == s[b]);
    }
}

impl<V: View> StrMap<V> {
    pub open spec fn wf(&self) -> bool {
        ascending(self@)
    }

    pub fn new() -> (r: Self)
        ensures
            r@ == Seq::<(Seq<char>, V::V)>::empty(),
            r.wf(),
    {
        let r = StrMap { entries: Vec::new() };
        assert(r@ =~= Seq::<(Seq<char>, V::V)>::empty());
        r
    }

    /// The position of a key.
    pub fn find(&self, key: &str) -> (r: Option<usize>)
        ensures
            match r {
                Some(i) => i < self.entries@.len() && self.entries@[i as int].0@ == key@ && at(
                    self@,
                    key@,
                ) == Some(self.entries@[i as int].1@) && (forall|j: int|
                    0 <= j < i ==> (#[trigger] self@[j]).0 != key@),
                None => at(self@, key@) is None,
            },
    {
        let mut i: usize = 0;
        while i < self.entries.len()
            invariant
                i <= self.entries@.len(),
                forall|j: int| 0 <= j < i ==> (#[trigger] self@[j]).0 != key@,
            decreases self.entries@.len() - i,
        {
            assert(self@[i as int].0 == self.entries@[i as int].0@);
            if same(self.entries[i].0.as_str(), key) {
                proof {
                    lemma_at_index(self@, key@, i as int);
                }
                return Some(i);
            }
            i += 1;
        }
        proof {
            lemma_at_index(self@, key@, i as int);
        }
        None
    }

    pub fn get(&self, key: &str) -> (r: Option<&V>)
        ensures
            match r {
                Some(v) => at(self@, key@) == Some(v@),
                None => at(self@, key@) is None,
            },
    {
        match self.find(key) {
            Some(i) => Some(&self.entries[i].1),
            None => None,
        }
    }

    pub fn insert(&mut self, key: &str, value: V)
        requires
            old(self).wf(),
        ensures
            final(self)@ == put(old(self)@, key@, value@),
            final(self).wf(),
    {
        let ghost before = self@;
        let mut p: usize = 0;
        while p < self.entries.len() && less(self.entries[p].0.as_str(), key)
            invariant
                p <= self.entries@.len(),
                self@ == before,
                forall|j: int| 0 <= j < p ==> lex_lt((#[trigger] before[j]).0, key@),
            decreases self.entries@.len() - p,
        {
            assert(self@[p as int].0 == self.entries@[p as int].0@);
            p += 1;
        }
        proof {
            if p < self.entries@.len() {
                assert(self@[p as int].0 == self.entries@[p as int].0@);
            }
            lemma_put_index(before, key@, value@, p as int);
            lemma_put_ascending(before, key@, value@);
        }
        if p < self.entries.len() && same(self.entries[p].0.as_str(), key) {
            self.entries.set(p, (copy(key), value));
            assert(self@ =~= before.update(p as int, (key@, value@)));
        } else {
            self.entries.insert(p, (copy(key), value));
            assert(self@ =~= before.insert(p as int, (key@, value@)));
        }
    }

    /// Takes out the entry at a position.
    pub fn remove_at(&mut self, p: usize)
        requires
            old(self).wf(),
            p < old(self).entries@.len(),
        ensures
            final(self)@ == old(self)@.remove(p as int),
            final(self).wf(),
    {
        let ghost before = self@;
        let _ = self.entries.remove(p);
        assert(self@ =~= before.remove(p as int));
        proof {
            lemma_ascending_remove(before, p as int);
        }
    }
}

} // verus!

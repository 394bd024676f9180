//! The answers that are kept under idempotency keys: which of them stay, and which
//! one is forgotten.
use vstd::prelude::*;
use crate::izakaya::records::HitView;
use crate::izakaya::store::{
    applied, evicted, no_projection, oldest, EventView, ProjectionView, MAX_IDEMPOTENCY,
};
use crate::smap::{
    ascending, at, lemma_ascending_remove, lemma_at_index, lemma_at_put, lemma_put_ascending,
    lemma_put_index, put,
};
use crate::text::{lemma_lex_total, lex_lt};

verus! {

/// Answers as they are kept: under keys in order, no more of them than are allowed,
/// each from an event of its own, and none from behind the event numbered `seq`.
pub open spec fn orderly(s: Seq<(Seq<char>, HitView)>, seq: u64) -> bool {
    &&& ascending(s)
    &&& s.len() <= MAX_IDEMPOTENCY
    &&& forall|i: int| 0 <= i < s.len() ==> (#[trigger] s[i]).1.seq <= seq
    &&& forall|i: int, j: int|
        0 <= i < j < s.len() ==> (#[trigger] s[i]).1.seq != (#[trigger] s[j]).1.seq
}

/// A group whose answers are as they are kept.
pub open spec fn orderly_memory(p: ProjectionView) -> bool {
    orderly(p.idempotency, p.seq)
}

/// Whether no answer is older than this one.
pub open spec fn least(s: Seq<(Seq<char>, HitView)>, h: HitView) -> bool {
    forall|i: int| 0 <= i < s.len() ==> h.seq <= (#[trigger] s[i]).1.seq
}

proof fn lemma_oldest(s: Seq<(Seq<char>, HitView)>, n: nat)
    requires
        0 < n <= s.len(),
    ensures
        0 <= oldest(s, n) < n,
        forall|j: int| 0 <= j < n ==> s[oldest(s, n)].1.seq <= (#[trigger] s[j]).1.seq,
    decreases n,
{
    if n > 1 {
        lemma_oldest(s, (n - 1) as nat);
    }
}

proof fn lemma_entry(s: Seq<(Seq<char>, HitView)>, i: int)
    requires
        ascending(s),
        0 <= i < s.len(),
    ensures
        at(s, s[i].0) == Some(s[i].1),
{
    assert forall|j: int| 0 <= j < i implies (#[trigger] s[j]).0 != s[i].0 by {
        assert(lex_lt(s[j].0, s[i].0));
        lemma_lex_total(s[i].0, s[i].0);
    }
    lemma_at_index(s, s[i].0, i);
}

proof fn lemma_found(s: Seq<(Seq<char>, HitView)>, k: Seq<char>) -> (i: int)
    requires
        at(s, k) is Some,
    ensures
        0 <= i < s.len(),
        s[i] == (k, at(s, k)->Some_0),
    decreases s.len(),
{
    if s[0].0 == k {
        0
    } else {
        let i = lemma_found(s.drop_first(), k);
        i + 1
    }
}

proof fn lemma_absent(s: Seq<(Seq<char>, HitView)>, k: Seq<char>)
    requires
        forall|i: int| 0 <= i < s.len() ==> (#[trigger] s[i]).0 != k,
    ensures
        at(s, k) is None,
{
    lemma_at_index(s, k, s.len() as int);
}

proof fn lemma_without(s: Seq<(Seq<char>, HitView)>, i: int, k: Seq<char>)
    requires
        ascending(s),
        0 <= i < s.len(),
    ensures
        at(s.remove(i), k) == (if s[i].0 == k {
            None
        } else {
            at(s, k)
        }),
{
    let r = s.remove(i);
    lemma_ascending_remove(s, i);
    if at(r, k) is Some {
        let j = lemma_found(r, k);
        let m = if j < i {
            j
        } else {
            j + 1
        };
        assert(r[j] == s[m]);
        lemma_entry(s, m);
        lemma_entry(s, i);
        if s[i].0 == k {
            lemma_lex_total(k, k);
            if m < i {
                assert(lex_lt(s[m].0, s[i].0));
            } else {
                assert(lex_lt(s[i].0, s[m].0));
            }
        }
    } else if at(s, k) is Some {
        let m = lemma_found(s, k);
        if m != i {
            let j = if m < i {
                m
            } else {
                m - 1
            };
            assert(r[j] == s[m]);
            lemma_entry(r, j);
        }
    }
}

/// Where a key belongs.
proof fn lemma_place(s: Seq<(Seq<char>, HitView)>, k: Seq<char>, i: int) -> (p: int)
    requires
        0 <= i <= s.len(),
        forall|j: int| 0 <= j < i ==> lex_lt((#[trigger] s[j]).0, k),
    ensures
        0 <= p <= s.len(),
        forall|j: int| 0 <= j < p ==> lex_lt((#[trigger] s[j]).0, k),
        p < s.len() ==> !lex_lt(s[p].0, k),
    decreases s.len() - i,
{
    if i < s.len() && lex_lt(s[i].0, k) {
        lemma_place(s, k, i + 1)
    } else {
        i
    }
}

/// What is put under a key replaces what stands there, or comes to the others.
proof fn lemma_put_shape(s: Seq<(Seq<char>, HitView)>, k: Seq<char>, h: HitView) -> (p: int)
    requires
        ascending(s),
    ensures
        0 <= p <= s.len(),
        at(s, k) is Some ==> p < s.len() && s[p].0 == k && put(s, k, h) == s.update(p, (k, h)),
        at(s, k) is None ==> put(s, k, h) == s.insert(p, (k, h)),
{
    let p = lemma_place(s, k, 0);
    lemma_put_index(s, k, h, p);
    if p < s.len() && s[p].0 == k {
        lemma_entry(s, p);
    } else if at(s, k) is Some {
        let i = lemma_found(s, k);
        lemma_lex_total(k, k);
        if i > p {
            assert(lex_lt(s[p].0, s[i].0));
        }
    }
    p
}

proof fn lemma_put_orderly(s: Seq<(Seq<char>, HitView)>, k: Seq<char>, h: HitView)
    requires
        ascending(s),
        forall|i: int| 0 <= i < s.len() ==> (#[trigger] s[i]).1.seq < h.seq,
        forall|i: int, j: int|
            0 <= i < j < s.len() ==> (#[trigger] s[i]).1.seq != (#[trigger] s[j]).1.seq,
    ensures
        forall|i: int| 0 <= i < put(s, k, h).len() ==> (#[trigger] put(s, k, h)[i]).1.seq <= h.seq,
        forall|i: int, j: int|
            0 <= i < j < put(s, k, h).len() ==> (#[trigger] put(s, k, h)[i]).1.seq != (
            #[trigger] put(s, k, h)[j]).1.seq,
{
    let p = lemma_put_shape(s, k, h);
    let t = put(s, k, h);
    let back = |i: int|
        if at(s, k) is None && i > p {
            i - 1
        } else {
            i
        };
    assert forall|i: int| 0 <= i < t.len() implies (#[trigger] t[i]).1.seq <= h.seq by {
        if i != p {
            assert(t[i] == s[back(i)]);
        }
    }
    assert forall|i: int, j: int| 0 <= i < j < t.len() implies (#[trigger] t[i]).1.seq != (
    #[trigger] t[j]).1.seq by {
        if i != p {
            assert(t[i] == s[back(i)]);
        }
        if j != p {
            assert(t[j] == s[back(j)]);
        }
    }
}

/// An event of a new number leaves the answers as they are kept.
pub proof fn law_memory_stays_orderly(p: ProjectionView, e: EventView)
    requires
        orderly_memory(p),
        e.seq > p.seq,
    ensures
        orderly_memory(applied(p, e)),
{
    if e.kind != "malformed"@ {
        if let Some(k) = e.idempotency_key {
            let s = p.idempotency;
            let h = HitView { seq: e.seq, result: e.result };
            let t = put(s, k, h);
            lemma_put_orderly(s, k, h);
            lemma_put_ascending(s, k, h);
            if t.len() > MAX_IDEMPOTENCY {
                lemma_oldest(t, t.len());
                let i = oldest(t, t.len());
                let r = t.remove(i);
                lemma_ascending_remove(t, i);
                assert(evicted(r) == r);
                assert(evicted(t) == r);
                let back = |j: int|
                    if j < i {
                        j
                    } else {
                        j + 1
                    };
                assert forall|j: int| 0 <= j < r.len() implies (#[trigger] r[j]).1.seq <= e.seq by {
                    assert(r[j] == t[back(j)]);
                }
                assert forall|a: int, b: int| 0 <= a < b < r.len() implies (
                #[trigger] r[a]).1.seq != (#[trigger] r[b]).1.seq by {
                    assert(r[a] == t[back(a)]);
                    assert(r[b] == t[back(b)]);
                }
            }
        }
    }
}

/// A group begins with its answers as they are kept.
pub proof fn law_memory_begins_orderly(coordination_id: Seq<char>)
    ensures
        orderly_memory(no_projection(coordination_id)),
{
}

/// The answer of a new event is kept under its key, and every other answer stays as it
/// was. Only where as many as are allowed were kept under other keys, the one of the
/// smallest number is forgotten, and no other.
pub proof fn law_oldest_answer_is_forgotten(p: ProjectionView, e: EventView, k: Seq<char>)
    requires
        orderly_memory(p),
        e.seq > p.seq,
        e.kind != "malformed"@,
        e.idempotency_key == Some(k),
    ensures
        at(applied(p, e).idempotency, k) == Some(HitView { seq: e.seq, result: e.result }),
        applied(p, e).idempotency.len() <= MAX_IDEMPOTENCY,
        ({
            let s = p.idempotency;
            let full = s.len() == MAX_IDEMPOTENCY && at(s, k) is None;
            &&& forall|o: Seq<char>|
                o != k ==> #[trigger] at(applied(p, e).idempotency, o) == (if full && (at(
                    s,
                    o,
                ) matches Some(h) && least(s, h)) {
                    None
                } else {
                    at(s, o)
                })
            &&& full ==> exists|i: int| 0 <= i < s.len() && least(s, (#[trigger] s[i]).1)
        }),
{
    let s = p.idempotency;
    let h = HitView { seq: e.seq, result: e.result };
    let t = put(s, k, h);
    let q = applied(p, e).idempotency;
    let full = s.len() == MAX_IDEMPOTENCY && at(s, k) is None;
    assert(q == evicted(t));
    let at_k = lemma_put_shape(s, k, h);
    lemma_put_ascending(s, k, h);
    lemma_at_put(s, k, h, k);
    if full {
        lemma_oldest(t, t.len());
        let i = oldest(t, t.len());
        let r = t.remove(i);
        assert(evicted(r) == r);
        assert(q == r);
        let back = |j: int|
            if j > at_k {
                j - 1
            } else {
                j
            };
        let fore = |j: int|
            if j >= at_k {
                j + 1
            } else {
                j
            };
        assert(i != at_k) by {
            assert(t[at_k] == (k, h));
            assert(t[fore(0)] == s[0]);
        }
        let m = back(i);
        assert(t[i] == s[m]);
        assert(least(s, s[m].1)) by {
            assert forall|j: int| 0 <= j < s.len() implies s[m].1.seq <= (#[trigger] s[j]).1.seq by {
                assert(t[fore(j)] == s[j]);
            }
        }
        lemma_entry(s, m);
        lemma_without(t, i, k);
        lemma_entry(t, i);
        assert forall|o: Seq<char>| o != k implies #[trigger] at(q, o) == (if full && (at(
            s,
            o,
        ) matches Some(g) && least(s, g)) {
            None
        } else {
            at(s, o)
        }) by {
            lemma_at_put(s, k, h, o);
            lemma_without(t, i, o);
            if let Some(g) = at(s, o) {
                let n = lemma_found(s, o);
                if least(s, g) {
                    assert(s[n].1.seq <= s[m].1.seq);
                    assert(s[m].1.seq <= s[n].1.seq);
                    assert(n == m);
                }
            }
        }
    } else {
        assert forall|o: Seq<char>| o != k implies #[trigger] at(q, o) == at(s, o) by {
            lemma_at_put(s, k, h, o);
        }
    }
}

} // verus!

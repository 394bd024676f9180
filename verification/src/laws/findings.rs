//! What the findings about a group of agents say, and when.
use vstd::prelude::*;
use crate::izakaya::model::{
    against, between, claim_findings, covers, deduped, drift, finding_keys, findings,
    ordered_findings, overlap, own_all, own_findings, pair_findings, pairs_all, pairs_of, present,
    raw_findings, symbol_findings, AgentState, FindingView, Seen,
};
use crate::laws::lists::{
    ascending_below, lemma_contains_add, lemma_contains_push, lemma_filter_places,
};
use crate::text::{among, trimmed, trimmed_of};

verus! {

/// Whether an agent counts: it has not checked out.
pub open spec fn here(agents: Seq<Seen>, i: int) -> bool {
    0 <= i < agents.len() && agents[i].state != AgentState::CheckedOut
}

/// Whether the lease of an agent has run out.
pub open spec fn lapsed(a: Seen, now: u64) -> bool {
    a.expires_at > 0 && now >= a.expires_at
}

/// Whether a finding says of an agent that its lease has run out, and it has.
pub open spec fn tells_stale(agents: Seq<Seen>, now: u64, f: FindingView, i: int) -> bool {
    &&& here(agents, i)
    &&& lapsed(agents[i], now)
    &&& f == FindingView {
        kind: "stale"@,
        agents: seq![agents[i].agent_id],
        detail: agents[i].agent_id + " lease expired; work was not checked out"@,
        stale: true,
    }
}

/// Whether a finding says that a changed path of an agent is outside its claims, and none
/// of them covers it.
pub open spec fn tells_drift(agents: Seq<Seen>, now: u64, f: FindingView, i: int, k: int) -> bool {
    &&& here(agents, i)
    &&& 0 <= k < agents[i].dirty_paths.len()
    &&& forall|c: int|
        0 <= c < agents[i].claims.len() ==> !covers(
            (#[trigger] agents[i].claims[c]).path,
            agents[i].dirty_paths[k],
        )
    &&& f == FindingView {
        kind: "drift"@,
        agents: seq![agents[i].agent_id],
        detail: agents[i].agent_id + " dirty path "@ + agents[i].dirty_paths[k]
            + " is outside declared claims"@,
        stale: lapsed(agents[i], now),
    }
}

/// Two agents that count, the first before the second.
pub open spec fn pair(agents: Seq<Seen>, i: int, j: int) -> bool {
    here(agents, i) && here(agents, j) && i < j
}

pub open spec fn either_lapsed(agents: Seq<Seen>, now: u64, i: int, j: int) -> bool {
    lapsed(agents[i], now) || lapsed(agents[j], now)
}

/// Whether a finding says that a claim of one agent overlaps a claim of another, and
/// their paths do.
pub open spec fn tells_overlap(
    agents: Seq<Seen>,
    now: u64,
    f: FindingView,
    i: int,
    j: int,
    c: int,
    e: int,
) -> bool {
    let a = agents[i];
    let b = agents[j];
    &&& pair(agents, i, j)
    &&& 0 <= c < a.claims.len()
    &&& 0 <= e < b.claims.len()
    &&& overlap(a.claims[c].path, b.claims[e].path)
    &&& f == FindingView {
        kind: "path_overlap"@,
        agents: seq![a.agent_id, b.agent_id],
        detail: a.agent_id + ":"@ + a.claims[c].path + " overlaps "@ + b.agent_id + ":"@
            + b.claims[e].path,
        stale: either_lapsed(agents, now, i, j),
    }
}

/// Whether a finding says that two agents claim one symbol, and both do.
pub open spec fn tells_symbol(
    agents: Seq<Seen>,
    now: u64,
    f: FindingView,
    i: int,
    j: int,
    c: int,
    e: int,
    s: int,
) -> bool {
    let a = agents[i];
    let b = agents[j];
    &&& pair(agents, i, j)
    &&& 0 <= c < a.claims.len()
    &&& 0 <= e < b.claims.len()
    &&& 0 <= s < a.claims[c].symbols.len()
    &&& b.claims[e].symbols.contains(a.claims[c].symbols[s])
    &&& f == FindingView {
        kind: "symbol_overlap"@,
        agents: seq![a.agent_id, b.agent_id],
        detail: a.agent_id + " and "@ + b.agent_id + " both claim symbol "@
            + a.claims[c].symbols[s],
        stale: either_lapsed(agents, now, i, j),
    }
}

/// Whether a finding says that two agents started from different bases, and they did.
pub open spec fn tells_bases(agents: Seq<Seen>, now: u64, f: FindingView, i: int, j: int) -> bool {
    let a = agents[i];
    let b = agents[j];
    &&& pair(agents, i, j)
    &&& a.base_oid.len() > 0
    &&& b.base_oid.len() > 0
    &&& a.base_oid != b.base_oid
    &&& f == FindingView {
        kind: "base_divergence"@,
        agents: seq![a.agent_id, b.agent_id],
        detail: a.agent_id + " base "@ + a.base_oid + " != "@ + b.agent_id + " base "@
            + b.base_oid,
        stale: either_lapsed(agents, now, i, j),
    }
}

/// Whether a finding is due.
pub open spec fn due(agents: Seq<Seen>, now: u64, f: FindingView) -> bool {
    ||| exists|i: int| #[trigger] tells_stale(agents, now, f, i)
    ||| exists|i: int, k: int| #[trigger] tells_drift(agents, now, f, i, k)
    ||| exists|i: int, j: int, c: int, e: int| #[trigger] tells_overlap(agents, now, f, i, j, c, e)
    ||| exists|i: int, j: int, c: int, e: int, s: int| #[trigger]
        tells_symbol(agents, now, f, i, j, c, e, s)
    ||| exists|i: int, j: int| #[trigger] tells_bases(agents, now, f, i, j)
}

// ---------------------------------------------------------------------------
// One agent

proof fn lemma_drift(a: Seen, now: u64, n: nat, f: FindingView)
    requires
        n <= a.dirty_paths.len(),
        a.state != AgentState::CheckedOut,
    ensures
        drift(a, now, n).contains(f) <==> exists|k: int|
            k < n && #[trigger] tells_drift(seq![a], now, f, 0, k),
    decreases n,
{
    if n > 0 {
        let m = (n - 1) as nat;
        lemma_drift(a, now, m, f);
        let d = a.dirty_paths[n - 1];
        lemma_contains_push(
            drift(a, now, m),
            crate::izakaya::model::drift_finding(a, d, now),
            f,
        );
        if tells_drift(seq![a], now, f, 0, n - 1) {
            assert(!crate::izakaya::model::claimed(a, d));
        }
        if !crate::izakaya::model::claimed(a, d) && f == crate::izakaya::model::drift_finding(
            a,
            d,
            now,
        ) {
            assert(tells_drift(seq![a], now, f, 0, n - 1));
        }
    }
}

proof fn lemma_own(a: Seen, now: u64, f: FindingView)
    requires
        a.state != AgentState::CheckedOut,
    ensures
        own_findings(a, now).contains(f) <==> tells_stale(seq![a], now, f, 0) || exists|k: int|
            #[trigger] tells_drift(seq![a], now, f, 0, k),
{
    let stales: Seq<FindingView> = if crate::izakaya::model::seen_stale(a, now) {
        seq![crate::izakaya::model::stale_finding(a)]
    } else {
        Seq::empty()
    };
    lemma_contains_add(stales, drift(a, now, a.dirty_paths.len()), f);
    lemma_drift(a, now, a.dirty_paths.len(), f);
    if crate::izakaya::model::seen_stale(a, now) {
        assert(stales[0] == crate::izakaya::model::stale_finding(a));
        assert(stales.contains(f) <==> f == crate::izakaya::model::stale_finding(a));
    }
}

proof fn lemma_own_all(live: Seq<Seen>, now: u64, n: nat, f: FindingView)
    requires
        n <= live.len(),
        forall|i: int| 0 <= i < live.len() ==> (#[trigger] live[i]).state
            != AgentState::CheckedOut,
    ensures
        own_all(live, now, n).contains(f) <==> (exists|i: int|
            i < n && #[trigger] tells_stale(live, now, f, i)) || (exists|i: int, k: int|
            i < n && #[trigger] tells_drift(live, now, f, i, k)),
    decreases n,
{
    if n > 0 {
        let m = (n - 1) as nat;
        let a = live[n - 1];
        lemma_own_all(live, now, m, f);
        lemma_contains_add(own_all(live, now, m), own_findings(a, now), f);
        lemma_own(a, now, f);
        assert(tells_stale(seq![a], now, f, 0) == tells_stale(live, now, f, n - 1));
        assert forall|k: int|
            #[trigger] tells_drift(seq![a], now, f, 0, k) == tells_drift(live, now, f, n - 1, k) by {
            assert(seq![a][0] == live[n - 1]);
        }
        assert forall|k: int|
            #[trigger] tells_drift(live, now, f, n - 1, k) == tells_drift(seq![a], now, f, 0, k) by {}
        if exists|i: int, k: int| i < n && #[trigger] tells_drift(live, now, f, i, k) {
            let (i, k) = choose|i: int, k: int| i < n && #[trigger] tells_drift(live, now, f, i, k);
            if i == n - 1 {
                assert(tells_drift(seq![a], now, f, 0, k));
            } else {
                assert(i < m && tells_drift(live, now, f, i, k));
            }
        }
        if exists|i: int| i < n && #[trigger] tells_stale(live, now, f, i) {
            let i = choose|i: int| i < n && #[trigger] tells_stale(live, now, f, i);
            if i != n - 1 {
                assert(i < m && tells_stale(live, now, f, i));
            }
        }
    }
}

// ---------------------------------------------------------------------------
// Two agents

proof fn lemma_symbols(live: Seq<Seen>, now: u64, i: int, j: int, c: int, e: int, n: nat, f: FindingView)
    requires
        pair(live, i, j),
        0 <= c < live[i].claims.len(),
        0 <= e < live[j].claims.len(),
        n <= live[i].claims[c].symbols.len(),
    ensures
        symbol_findings(
            live[i],
            live[j],
            live[i].claims[c],
            live[j].claims[e],
            either_lapsed(live, now, i, j),
            n,
        ).contains(f) <==> exists|s: int|
            s < n && #[trigger] tells_symbol(live, now, f, i, j, c, e, s),
    decreases n,
{
    if n > 0 {
        let m = (n - 1) as nat;
        lemma_symbols(live, now, i, j, c, e, m, f);
        let old = either_lapsed(live, now, i, j);
        let ca = live[i].claims[c];
        let cb = live[j].claims[e];
        let here_f = crate::izakaya::model::symbol_finding(live[i], live[j], ca.symbols[n - 1], old);
        lemma_contains_push(
            symbol_findings(live[i], live[j], ca, cb, old, m),
            here_f,
            f,
        );
        if among(cb.symbols, ca.symbols[n - 1]) && f == here_f {
            assert(cb.symbols.contains(ca.symbols[n - 1]));
            assert(tells_symbol(live, now, f, i, j, c, e, n - 1));
        }
        if tells_symbol(live, now, f, i, j, c, e, n - 1) {
            let q = choose|q: int| 0 <= q < cb.symbols.len() && cb.symbols[q] == ca.symbols[n - 1];
            assert(among(cb.symbols, ca.symbols[n - 1]));
        }
    }
}

proof fn lemma_claims(live: Seq<Seen>, now: u64, i: int, j: int, c: int, e: int, f: FindingView)
    requires
        pair(live, i, j),
        0 <= c < live[i].claims.len(),
        0 <= e < live[j].claims.len(),
    ensures
        claim_findings(
            live[i],
            live[j],
            live[i].claims[c],
            live[j].claims[e],
            either_lapsed(live, now, i, j),
        ).contains(f) <==> tells_overlap(live, now, f, i, j, c, e) || exists|s: int|
            #[trigger] tells_symbol(live, now, f, i, j, c, e, s),
{
    let old = either_lapsed(live, now, i, j);
    let ca = live[i].claims[c];
    let cb = live[j].claims[e];
    let o = crate::izakaya::model::overlap_finding(live[i], live[j], ca, cb, old);
    let first: Seq<FindingView> = if overlap(ca.path, cb.path) {
        seq![o]
    } else {
        Seq::empty()
    };
    lemma_contains_add(
        first,
        symbol_findings(live[i], live[j], ca, cb, old, ca.symbols.len()),
        f,
    );
    lemma_symbols(live, now, i, j, c, e, ca.symbols.len(), f);
    if overlap(ca.path, cb.path) {
        assert(first[0] == o);
        assert(first.contains(f) <==> f == o);
    }
}

proof fn lemma_against(live: Seq<Seen>, now: u64, i: int, j: int, c: int, n: nat, f: FindingView)
    requires
        pair(live, i, j),
        0 <= c < live[i].claims.len(),
        n <= live[j].claims.len(),
    ensures
        against(
            live[i],
            live[j],
            live[i].claims[c],
            either_lapsed(live, now, i, j),
            n,
        ).contains(f) <==> (exists|e: int|
            e < n && #[trigger] tells_overlap(live, now, f, i, j, c, e)) || (exists|
            e: int,
            s: int,
        |
            e < n && #[trigger] tells_symbol(live, now, f, i, j, c, e, s)),
    decreases n,
{
    if n > 0 {
        let m = (n - 1) as nat;
        let old = either_lapsed(live, now, i, j);
        lemma_against(live, now, i, j, c, m, f);
        lemma_claims(live, now, i, j, c, n - 1, f);
        lemma_contains_add(
            against(live[i], live[j], live[i].claims[c], old, m),
            claim_findings(live[i], live[j], live[i].claims[c], live[j].claims[n - 1], old),
            f,
        );
        if exists|e: int, s: int| e < n && #[trigger] tells_symbol(live, now, f, i, j, c, e, s) {
            let (e, s) = choose|e: int, s: int|
                e < n && #[trigger] tells_symbol(live, now, f, i, j, c, e, s);
            assert(e < m || e == n - 1);
        }
    }
}

proof fn lemma_between(live: Seq<Seen>, now: u64, i: int, j: int, n: nat, f: FindingView)
    requires
        pair(live, i, j),
        n <= live[i].claims.len(),
    ensures
        between(live[i], live[j], either_lapsed(live, now, i, j), n).contains(f) <==> (exists|
            c: int,
            e: int,
        |
            c < n && #[trigger] tells_overlap(live, now, f, i, j, c, e)) || (exists|
            c: int,
            e: int,
            s: int,
        |
            c < n && #[trigger] tells_symbol(live, now, f, i, j, c, e, s)),
    decreases n,
{
    if n > 0 {
        let m = (n - 1) as nat;
        let old = either_lapsed(live, now, i, j);
        lemma_between(live, now, i, j, m, f);
        lemma_against(live, now, i, j, n - 1, live[j].claims.len(), f);
        lemma_contains_add(
            between(live[i], live[j], old, m),
            against(live[i], live[j], live[i].claims[n - 1], old, live[j].claims.len()),
            f,
        );
        if exists|c: int, e: int| c < n && #[trigger] tells_overlap(live, now, f, i, j, c, e) {
            let (c, e) = choose|c: int, e: int|
                c < n && #[trigger] tells_overlap(live, now, f, i, j, c, e);
            assert(c < m || c == n - 1);
        }
        if exists|c: int, e: int, s: int|
            c < n && #[trigger] tells_symbol(live, now, f, i, j, c, e, s) {
            let (c, e, s) = choose|c: int, e: int, s: int|
                c < n && #[trigger] tells_symbol(live, now, f, i, j, c, e, s);
            assert(c < m || c == n - 1);
        }
    }
}

/// Whether a finding is due about two agents.
pub open spec fn due_between(agents: Seq<Seen>, now: u64, f: FindingView, i: int, j: int) -> bool {
    ||| exists|c: int, e: int| #[trigger] tells_overlap(agents, now, f, i, j, c, e)
    ||| exists|c: int, e: int, s: int| #[trigger] tells_symbol(agents, now, f, i, j, c, e, s)
    ||| tells_bases(agents, now, f, i, j)
}

proof fn lemma_pair(live: Seq<Seen>, now: u64, i: int, j: int, f: FindingView)
    requires
        pair(live, i, j),
    ensures
        pair_findings(live[i], live[j], now).contains(f) <==> due_between(live, now, f, i, j),
{
    let old = either_lapsed(live, now, i, j);
    lemma_between(live, now, i, j, live[i].claims.len(), f);
    let b = crate::izakaya::model::base_finding(live[i], live[j], old);
    let last: Seq<FindingView> = if live[i].base_oid.len() > 0 && live[j].base_oid.len() > 0
        && live[i].base_oid != live[j].base_oid {
        seq![b]
    } else {
        Seq::empty()
    };
    lemma_contains_add(between(live[i], live[j], old, live[i].claims.len()), last, f);
    if last.len() > 0 {
        assert(last[0] == b);
        assert(last.contains(f) <==> f == b);
    }
}

proof fn lemma_pairs_of(live: Seq<Seen>, now: u64, i: int, j: int, f: FindingView)
    requires
        forall|k: int| 0 <= k < live.len() ==> (#[trigger] live[k]).state
            != AgentState::CheckedOut,
        0 <= i < live.len(),
        i < j <= live.len(),
    ensures
        pairs_of(live, now, i, j).contains(f) <==> exists|k: int|
            i < k < j && #[trigger] due_between(live, now, f, i, k),
    decreases j - i,
{
    if j > i + 1 {
        lemma_pairs_of(live, now, i, j - 1, f);
        lemma_pair(live, now, i, j - 1, f);
        lemma_contains_add(
            pairs_of(live, now, i, j - 1),
            pair_findings(live[i], live[j - 1], now),
            f,
        );
    }
}

proof fn lemma_pairs_all(live: Seq<Seen>, now: u64, n: nat, f: FindingView)
    requires
        forall|k: int| 0 <= k < live.len() ==> (#[trigger] live[k]).state
            != AgentState::CheckedOut,
        n <= live.len(),
    ensures
        pairs_all(live, now, n).contains(f) <==> exists|i: int, k: int|
            0 <= i < n && i < k < live.len() && #[trigger] due_between(live, now, f, i, k),
    decreases n,
{
    if n > 0 {
        let m = (n - 1) as nat;
        lemma_pairs_all(live, now, m, f);
        lemma_pairs_of(live, now, n - 1, live.len() as int, f);
        lemma_contains_add(
            pairs_all(live, now, m),
            pairs_of(live, now, n - 1, live.len() as int),
            f,
        );
        if exists|i: int, k: int|
            0 <= i < n && i < k < live.len() && #[trigger] due_between(live, now, f, i, k) {
            let (i, k) = choose|i: int, k: int|
                0 <= i < n && i < k < live.len() && #[trigger] due_between(live, now, f, i, k);
            assert(i < m || i == n - 1);
        }
    }
}

// ---------------------------------------------------------------------------
// The group

proof fn lemma_deduped(v: Seq<FindingView>, f: FindingView)
    ensures
        deduped(v).contains(f) <==> v.contains(f),
        v.len() > 0 ==> deduped(v).len() > 0 && deduped(v).last() == v.last(),
        forall|i: int| 0 <= i < deduped(v).len() - 1 ==> #[trigger] deduped(v)[i] != deduped(v)[i
            + 1],
    decreases v.len(),
{
    if v.len() > 0 {
        let t = v.drop_last();
        lemma_deduped(t, f);
        assert(v =~= t.push(v.last()));
        lemma_contains_push(t, v.last(), f);
        lemma_contains_push(deduped(t), v.last(), f);
        if deduped(t).len() > 0 && deduped(t).last() == v.last() && f == v.last() {
            assert(deduped(t)[deduped(t).len() - 1] == f);
        }
        let d = deduped(v);
        assert forall|i: int| 0 <= i < d.len() - 1 implies #[trigger] d[i] != d[i + 1] by {
            if d.len() > deduped(t).len() {
                if i < deduped(t).len() - 1 {
                    assert(deduped(t)[i] != deduped(t)[i + 1]);
                }
            }
        }
    }
}

/// Whether places tell where the agents of a list stand in another.
spec fn placed(live: Seq<Seen>, agents: Seq<Seen>, places: Seq<int>) -> bool {
    &&& places.len() == live.len()
    &&& ascending_below(places, agents.len())
    &&& forall|k: int| 0 <= k < places.len() ==> agents[#[trigger] places[k]] == live[k] && here(
        agents,
        places[k],
    )
    &&& forall|i: int| #[trigger] here(agents, i) ==> places.contains(i)
}

proof fn lemma_move(
    live: Seq<Seen>,
    agents: Seq<Seen>,
    now: u64,
    f: FindingView,
    x: int,
    y: int,
    i: int,
    j: int,
)
    requires
        pair(live, x, y),
        pair(agents, i, j),
        live[x] == agents[i],
        live[y] == agents[j],
    ensures
        due_between(live, now, f, x, y) == due_between(agents, now, f, i, j),
{
    assert forall|c: int, e: int|
        #[trigger] tells_overlap(live, now, f, x, y, c, e) == tells_overlap(
            agents,
            now,
            f,
            i,
            j,
            c,
            e,
        ) by {}
    assert forall|c: int, e: int|
        #[trigger] tells_overlap(agents, now, f, i, j, c, e) == tells_overlap(
            live,
            now,
            f,
            x,
            y,
            c,
            e,
        ) by {}
    assert forall|c: int, e: int, s: int|
        #[trigger] tells_symbol(live, now, f, x, y, c, e, s) == tells_symbol(
            agents,
            now,
            f,
            i,
            j,
            c,
            e,
            s,
        ) by {}
    assert forall|c: int, e: int, s: int|
        #[trigger] tells_symbol(agents, now, f, i, j, c, e, s) == tells_symbol(
            live,
            now,
            f,
            x,
            y,
            c,
            e,
            s,
        ) by {}
}

/// A finding is among the findings about a group if and only if it is due: a lease of an
/// agent has run out, a changed path lies outside the claims of its agent, claims of two
/// agents overlap in a path or a symbol, or two agents started from different bases.
/// Agents that have checked out do not count.
pub proof fn law_findings_are_what_is_due(agents: Seq<Seen>, now: u64, f: FindingView)
    ensures
        findings(agents, now).contains(f) <==> due(agents, now, f),
{
    let live = agents.filter(present());
    let places = lemma_filter_places(agents, present());
    assert(placed(live, agents, places));
    assert forall|k: int| 0 <= k < live.len() implies (#[trigger] live[k]).state
        != AgentState::CheckedOut by {
        assert(here(agents, places[k]));
    }
    let raw = raw_findings(agents, now);
    let keys = finding_keys(raw);
    crate::laws::lists::lemma_arranged_items(raw, keys);
    let o = crate::order::sort_order(keys);
    assert(ordered_findings(raw) =~= crate::izakaya::replay::arranged(raw, o));
    lemma_deduped(ordered_findings(raw), f);
    lemma_contains_add(own_all(live, now, live.len()), pairs_all(live, now, live.len()), f);
    lemma_own_all(live, now, live.len(), f);
    lemma_pairs_all(live, now, live.len(), f);
    if raw.contains(f) {
        lemma_raw_is_due(live, agents, places, now, f);
    }
    if due(agents, now, f) {
        lemma_due_is_raw(live, agents, places, now, f);
    }
}

proof fn lemma_raw_is_due(
    live: Seq<Seen>,
    agents: Seq<Seen>,
    places: Seq<int>,
    now: u64,
    f: FindingView,
)
    requires
        placed(live, agents, places),
        (exists|i: int| #[trigger] tells_stale(live, now, f, i)) || (exists|i: int, k: int|
            #[trigger] tells_drift(live, now, f, i, k)) || (exists|i: int, k: int|
            0 <= i < k < live.len() && #[trigger] due_between(live, now, f, i, k)),
        forall|k: int| 0 <= k < live.len() ==> (#[trigger] live[k]).state
            != AgentState::CheckedOut,
    ensures
        due(agents, now, f),
{
    if exists|i: int| #[trigger] tells_stale(live, now, f, i) {
        let i = choose|i: int| #[trigger] tells_stale(live, now, f, i);
        assert(agents[places[i]] == live[i]);
        assert(tells_stale(agents, now, f, places[i]));
    } else if exists|i: int, k: int| #[trigger] tells_drift(live, now, f, i, k) {
        let (i, k) = choose|i: int, k: int| #[trigger] tells_drift(live, now, f, i, k);
        assert(agents[places[i]] == live[i]);
        assert(tells_drift(agents, now, f, places[i], k));
    } else {
        let (i, k) = choose|i: int, k: int|
            0 <= i < k < live.len() && #[trigger] due_between(live, now, f, i, k);
        assert(agents[places[i]] == live[i]);
        assert(agents[places[k]] == live[k]);
        lemma_move(live, agents, now, f, i, k, places[i], places[k]);
        lemma_between_is_due(agents, now, f, places[i], places[k]);
    }
}

proof fn lemma_between_is_due(agents: Seq<Seen>, now: u64, f: FindingView, i: int, j: int)
    requires
        due_between(agents, now, f, i, j),
    ensures
        due(agents, now, f),
{
    if exists|c: int, e: int| #[trigger] tells_overlap(agents, now, f, i, j, c, e) {
        let (c, e) = choose|c: int, e: int| #[trigger] tells_overlap(agents, now, f, i, j, c, e);
        assert(tells_overlap(agents, now, f, i, j, c, e));
    } else if exists|c: int, e: int, s: int| #[trigger]
        tells_symbol(agents, now, f, i, j, c, e, s) {
        let (c, e, s) = choose|c: int, e: int, s: int| #[trigger]
            tells_symbol(agents, now, f, i, j, c, e, s);
        assert(tells_symbol(agents, now, f, i, j, c, e, s));
    }
}

proof fn lemma_due_is_raw(
    live: Seq<Seen>,
    agents: Seq<Seen>,
    places: Seq<int>,
    now: u64,
    f: FindingView,
)
    requires
        placed(live, agents, places),
        due(agents, now, f),
        forall|k: int| 0 <= k < live.len() ==> (#[trigger] live[k]).state
            != AgentState::CheckedOut,
    ensures
        (exists|i: int| i < live.len() && #[trigger] tells_stale(live, now, f, i)) || (exists|
            i: int,
            k: int,
        |
            i < live.len() && #[trigger] tells_drift(live, now, f, i, k)) || (exists|
            i: int,
            k: int,
        |
            0 <= i < live.len() && i < k < live.len() && #[trigger] due_between(
                live,
                now,
                f,
                i,
                k,
            )),
{
    if exists|i: int| #[trigger] tells_stale(agents, now, f, i) {
        let i = choose|i: int| #[trigger] tells_stale(agents, now, f, i);
        assert(here(agents, i));
        let x = choose|x: int| 0 <= x < places.len() && places[x] == i;
        assert(tells_stale(live, now, f, x));
    } else if exists|i: int, k: int| #[trigger] tells_drift(agents, now, f, i, k) {
        let (i, k) = choose|i: int, k: int| #[trigger] tells_drift(agents, now, f, i, k);
        assert(here(agents, i));
        let x = choose|x: int| 0 <= x < places.len() && places[x] == i;
        assert(tells_drift(live, now, f, x, k));
    } else {
        let (i, j) = lemma_due_pair(agents, now, f);
        assert(here(agents, i) && here(agents, j));
        let x = choose|x: int| 0 <= x < places.len() && places[x] == i;
        let y = choose|y: int| 0 <= y < places.len() && places[y] == j;
        if y <= x {
            if y < x {
                assert(places[y] < places[x]);
            }
        }
        lemma_move(live, agents, now, f, x, y, i, j);
        assert(due_between(live, now, f, x, y));
    }
}

proof fn lemma_due_pair(agents: Seq<Seen>, now: u64, f: FindingView) -> (p: (int, int))
    requires
        due(agents, now, f),
        !(exists|i: int| #[trigger] tells_stale(agents, now, f, i)),
        !(exists|i: int, k: int| #[trigger] tells_drift(agents, now, f, i, k)),
    ensures
        due_between(agents, now, f, p.0, p.1),
        pair(agents, p.0, p.1),
{
    if exists|i: int, j: int, c: int, e: int| #[trigger]
        tells_overlap(agents, now, f, i, j, c, e) {
        let (i, j, c, e) = choose|i: int, j: int, c: int, e: int| #[trigger]
            tells_overlap(agents, now, f, i, j, c, e);
        (i, j)
    } else if exists|i: int, j: int, c: int, e: int, s: int| #[trigger]
        tells_symbol(agents, now, f, i, j, c, e, s) {
        let (i, j, c, e, s) = choose|i: int, j: int, c: int, e: int, s: int| #[trigger]
            tells_symbol(agents, now, f, i, j, c, e, s);
        (i, j)
    } else {
        let (i, j) = choose|i: int, j: int| #[trigger] tells_bases(agents, now, f, i, j);
        (i, j)
    }
}

/// Whether one of the findings is of a kind.
pub open spec fn tells(fs: Seq<FindingView>, kind: Seq<char>) -> bool {
    exists|f: FindingView| f.kind == kind && #[trigger] fs.contains(f)
}

/// Of two agents that have not checked out, the findings say that they started from
/// different bases if and only if both have one and the two differ.
pub proof fn law_diverging_bases_are_found(a: Seen, b: Seen, now: u64)
    requires
        a.state != AgentState::CheckedOut,
        b.state != AgentState::CheckedOut,
    ensures
        tells(findings(seq![a, b], now), "base_divergence"@) <==> a.base_oid.len() > 0 && b.base_oid.len() > 0 && a.base_oid != b.base_oid,
{
    let agents = seq![a, b];
    reveal_strlit("base_divergence");
    reveal_strlit("stale");
    reveal_strlit("drift");
    reveal_strlit("path_overlap");
    reveal_strlit("symbol_overlap");
    assert("base_divergence"@.len() == 15 && "stale"@.len() == 5 && "drift"@.len() == 5
        && "path_overlap"@.len() == 12 && "symbol_overlap"@.len() == 14);
    if a.base_oid.len() > 0 && b.base_oid.len() > 0 && a.base_oid != b.base_oid {
        let f = FindingView {
            kind: "base_divergence"@,
            agents: seq![a.agent_id, b.agent_id],
            detail: a.agent_id + " base "@ + a.base_oid + " != "@ + b.agent_id + " base "@
                + b.base_oid,
            stale: either_lapsed(agents, now, 0, 1),
        };
        assert(agents[0] == a && agents[1] == b);
        assert(tells_bases(agents, now, f, 0, 1));
        law_findings_are_what_is_due(agents, now, f);
    }
    if tells(findings(agents, now), "base_divergence"@) {
        let f = choose|f: FindingView|
            f.kind == "base_divergence"@ && #[trigger] findings(agents, now).contains(f);
        law_findings_are_what_is_due(agents, now, f);
        let (i, j) = choose|i: int, j: int| #[trigger] tells_bases(agents, now, f, i, j);
        assert(i == 0 && j == 1);
    }
}

/// The order of the kinds, which is that of the alphabet.
pub open spec fn kind_place(kind: Seq<char>) -> int {
    if kind == "base_divergence"@ {
        0
    } else if kind == "drift"@ {
        1
    } else if kind == "path_overlap"@ {
        2
    } else if kind == "stale"@ {
        3
    } else {
        4
    }
}

/// Whether a finding may stand before another: by kind, and then by detail.
pub open spec fn may_precede(f: FindingView, g: FindingView) -> bool {
    kind_place(f.kind) < kind_place(g.kind) || (kind_place(f.kind) == kind_place(g.kind)
        && !crate::text::lex_lt(g.detail, f.detail))
}

proof fn lemma_deduped_places(v: Seq<FindingView>) -> (places: Seq<int>)
    ensures
        places.len() == deduped(v).len(),
        ascending_below(places, v.len()),
        forall|k: int| 0 <= k < places.len() ==> v[#[trigger] places[k]] == deduped(v)[k],
    decreases v.len(),
{
    if v.len() == 0 {
        Seq::empty()
    } else {
        let t = v.drop_last();
        let rest = lemma_deduped_places(t);
        let places = if deduped(v).len() > deduped(t).len() {
            rest.push(v.len() - 1)
        } else {
            rest
        };
        assert forall|k: int| 0 <= k < places.len() implies v[#[trigger] places[k]] == deduped(
            v,
        )[k] by {
            if k < rest.len() {
                assert(places[k] == rest[k]);
                assert(t[rest[k]] == deduped(t)[k]);
            }
        }
        places
    }
}

/// The findings come by kind and then by detail, and none is told twice in a row.
pub proof fn law_findings_are_in_order(agents: Seq<Seen>, now: u64, i: int, j: int)
    requires
        0 <= i < j < findings(agents, now).len(),
    ensures
        may_precede(findings(agents, now)[i], findings(agents, now)[j]),
        j == i + 1 ==> findings(agents, now)[i] != findings(agents, now)[j],
{
    let raw = raw_findings(agents, now);
    let keys = finding_keys(raw);
    let o = crate::order::sort_order(keys);
    let v = ordered_findings(raw);
    lemma_deduped(v, findings(agents, now)[i]);
    let places = lemma_deduped_places(v);
    crate::order::lemma_sort_order(keys);
    assert(places[i] < places[j]);
    assert(v[places[i]] == raw[o[places[i]]]);
    assert(v[places[j]] == raw[o[places[j]]]);
    assert(!crate::order::key_lt(keys[o[places[j]]], keys[o[places[i]]]));
    crate::text::lemma_lex_total(v[places[i]].detail, v[places[j]].detail);
}

// ---------------------------------------------------------------------------
// Paths

/// A path behind another, after a slash.
pub open spec fn behind_slash(x: Seq<char>, r: Seq<char>) -> Seq<char> {
    x + seq!['/'] + r
}

/// Whether a path goes on from another behind a slash.
pub open spec fn goes_on(x: Seq<char>, y: Seq<char>) -> bool {
    exists|r: Seq<char>| y == #[trigger] behind_slash(x, r)
}

/// Two paths overlap if and only if, without the white space and the slashes around
/// them, neither is empty and they are the same or one goes on from the other behind a
/// slash.
pub proof fn law_paths_overlap_by_parts(a: Seq<char>, b: Seq<char>)
    ensures
        ({
            let x = trimmed_of(trimmed(a), '/');
            let y = trimmed_of(trimmed(b), '/');
            overlap(a, b) <==> x.len() > 0 && y.len() > 0 && (x == y || goes_on(x, y) || goes_on(
                y,
                x,
            ))
        }),
{
    let x = trimmed_of(trimmed(a), '/');
    let y = trimmed_of(trimmed(b), '/');
    lemma_below(x, y);
    lemma_below(y, x);
}

proof fn lemma_below(x: Seq<char>, y: Seq<char>)
    ensures
        crate::izakaya::model::below(x, y) <==> goes_on(x, y),
{
    if crate::izakaya::model::below(x, y) {
        let r = y.skip(x.len() as int + 1);
        assert(y =~= behind_slash(x, r)) by {
            assert forall|i: int| 0 <= i < x.len() implies y[i] == x[i] by {
                assert(y.take(x.len() as int)[i] == y[i]);
            }
        }
    }
    if goes_on(x, y) {
        assert(y.take(x.len() as int) =~= x);
    }
}

/// A claim covers the changed paths that it overlaps, and those that it equals but for
/// slashes around it; it covers no others.
pub proof fn law_claims_cover_what_they_overlap(claim: Seq<char>, dirty: Seq<char>)
    ensures
        overlap(claim, dirty) ==> covers(claim, dirty),
        covers(claim, dirty) ==> overlap(claim, dirty) || trimmed_of(claim, '/') == trimmed_of(
            dirty,
            '/',
        ),
        trimmed_of(claim, '/') == trimmed_of(dirty, '/') ==> covers(claim, dirty),
{
}

} // verus!

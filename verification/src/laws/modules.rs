//! What a map of modules says: which modules there are, which calls lead from one to
//! another, and in which direction.
use vstd::prelude::*;
use crate::laws::lists::{lemma_arranged_items, lemma_contains_push, lemma_filter_places};
use crate::laws::texts::{flat, lemma_flat_push};
use crate::module_map::{
    count_at, counts_upto, coupled_upto, edge_from, edge_sum, edges_upto, focused_upto, frequent,
    home_of, homes_upto, in_from, in_line, less_than, link_keys, link_sum, links, links_upto,
    module_head, module_keys, modules_from, modules_of, out_from, out_line, rendered, sample_line,
    shown_upto, total, visible, with_call, with_calls, with_in, with_module, with_out, EdgeView,
    LinkView, MapAskView,
};
use crate::smap::{at, lemma_at_put};
use crate::symbol_def::segment;
use crate::symbol_refs::totals::{lemma_sum_push, lemma_sum_sorted, sum};
use crate::text::{capped, dec, starts};

verus! {

// ---------------------------------------------------------------------------
// Links

/// Whether a link is the other end of an edge that leads out of a module.
pub open spec fn leads_out(e: EdgeView, m: Seq<char>, l: LinkView) -> bool {
    e.from == m && l == LinkView { name: e.to, n: e.n, samples: e.samples }
}

/// Whether a link is the other end of an edge that leads into a module.
pub open spec fn leads_in(e: EdgeView, m: Seq<char>, l: LinkView) -> bool {
    e.to == m && l == LinkView { name: e.from, n: e.n, samples: e.samples }
}

proof fn lemma_links(cross: Seq<EdgeView>, m: Seq<char>, out: bool, n: nat, l: LinkView)
    requires
        n <= cross.len(),
    ensures
        links_upto(cross, m, out, n).contains(l) <==> exists|i: int|
            0 <= i < n && (if out {
                leads_out(#[trigger] cross[i], m, l)
            } else {
                leads_in(cross[i], m, l)
            }),
    decreases n,
{
    if n > 0 {
        let k = (n - 1) as nat;
        lemma_links(cross, m, out, k, l);
        let e = cross[n - 1];
        let there = if out {
            LinkView { name: e.to, n: e.n, samples: e.samples }
        } else {
            LinkView { name: e.from, n: e.n, samples: e.samples }
        };
        lemma_contains_push(links_upto(cross, m, out, k), there, l);
        if out {
            assert(leads_out(cross[n - 1], m, l) <==> e.from == m && l == there);
        } else {
            assert(leads_in(cross[n - 1], m, l) <==> e.to == m && l == there);
        }
    }
}

/// The outgoing links of a module are the edges that lead from it, each under the name of
/// the module that it leads to. The incoming links are the edges that lead to it, each
/// under the name of the module that it comes from. Each has the calls of its edge.
pub proof fn law_links_follow_the_edges(cross: Seq<EdgeView>, m: Seq<char>, l: LinkView)
    ensures
        links(cross, m, true).contains(l) <==> exists|i: int|
            0 <= i < cross.len() && leads_out(#[trigger] cross[i], m, l),
        links(cross, m, false).contains(l) <==> exists|i: int|
            0 <= i < cross.len() && leads_in(#[trigger] cross[i], m, l),
{
    lemma_links(cross, m, true, cross.len(), l);
    lemma_links(cross, m, false, cross.len(), l);
    let o = links_upto(cross, m, true, cross.len());
    let i = links_upto(cross, m, false, cross.len());
    lemma_arranged_items(o, link_keys(o));
    lemma_arranged_items(i, link_keys(i));
}

/// An edge is an outgoing link at one end and an incoming link at the other.
pub proof fn law_every_link_has_two_ends(cross: Seq<EdgeView>, i: int)
    requires
        0 <= i < cross.len(),
    ensures
        links(cross, cross[i].from, true).contains(
            LinkView { name: cross[i].to, n: cross[i].n, samples: cross[i].samples },
        ),
        links(cross, cross[i].to, false).contains(
            LinkView { name: cross[i].from, n: cross[i].n, samples: cross[i].samples },
        ),
{
    let e = cross[i];
    let a = LinkView { name: e.to, n: e.n, samples: e.samples };
    let b = LinkView { name: e.from, n: e.n, samples: e.samples };
    law_links_follow_the_edges(cross, e.from, a);
    law_links_follow_the_edges(cross, e.to, b);
    assert(leads_out(cross[i], e.from, a));
    assert(leads_in(cross[i], e.to, b));
}

/// Links with more calls come first.
pub proof fn law_strongest_links_first(
    cross: Seq<EdgeView>,
    m: Seq<char>,
    out: bool,
    i: int,
    j: int,
)
    requires
        0 <= i < j < links(cross, m, out).len(),
    ensures
        links(cross, m, out)[i].n >= links(cross, m, out)[j].n,
{
    let v = links_upto(cross, m, out, cross.len());
    let ks = link_keys(v);
    lemma_arranged_items(v, ks);
    crate::order::lemma_sort_order(ks);
    let o = crate::order::sort_order(ks);
    assert(!crate::order::key_lt(ks[o[j]], ks[o[i]]));
}

/// What an edge counts for a module in one direction.
pub open spec fn counts_for(m: Seq<char>, out: bool) -> spec_fn(EdgeView) -> nat {
    |e: EdgeView|
        if (if out {
            e.from
        } else {
            e.to
        }) == m {
            e.n as nat
        } else {
            0
        }
}

proof fn lemma_link_sum(v: Seq<LinkView>, n: nat)
    requires
        n <= v.len(),
    ensures
        link_sum(v, n) == sum(v.take(n as int), |l: LinkView| l.n as nat),
    decreases n,
{
    if n > 0 {
        lemma_link_sum(v, (n - 1) as nat);
        assert(v.take(n as int) =~= v.take(n - 1).push(v[n - 1]));
        lemma_sum_push(v.take(n - 1), v[n - 1], |l: LinkView| l.n as nat);
    }
}

proof fn lemma_links_sum(cross: Seq<EdgeView>, m: Seq<char>, out: bool, n: nat)
    requires
        n <= cross.len(),
    ensures
        sum(links_upto(cross, m, out, n), |l: LinkView| l.n as nat) == sum(
            cross.take(n as int),
            counts_for(m, out),
        ),
    decreases n,
{
    if n > 0 {
        let k = (n - 1) as nat;
        let e = cross[n - 1];
        lemma_links_sum(cross, m, out, k);
        assert(cross.take(n as int) =~= cross.take(n - 1).push(e));
        lemma_sum_push(cross.take(n - 1), e, counts_for(m, out));
        let there = if out {
            LinkView { name: e.to, n: e.n, samples: e.samples }
        } else {
            LinkView { name: e.from, n: e.n, samples: e.samples }
        };
        lemma_sum_push(links_upto(cross, m, out, k), there, |l: LinkView| l.n as nat);
    }
}

/// The calls that lead out of a module are those of the edges from it, added up, and the
/// calls that lead in are those of the edges to it.
pub proof fn law_calls_add_up(cross: Seq<EdgeView>, m: Seq<char>, out: bool)
    ensures
        edge_sum(cross, m, out) == capped(sum(cross, counts_for(m, out))),
{
    let v = links_upto(cross, m, out, cross.len());
    let ls = links(cross, m, out);
    lemma_link_sum(ls, ls.len());
    assert(ls.take(ls.len() as int) =~= ls);
    lemma_sum_sorted(v, link_keys(v), |l: LinkView| l.n as nat);
    lemma_links_sum(cross, m, out, cross.len());
    assert(cross.take(cross.len() as int) =~= cross);
}

// ---------------------------------------------------------------------------
// Edges

/// What a call counts for the edge between two modules: one where its caller lies in the
/// first and what it calls in the second.
pub open spec fn call_counts(
    homes: Seq<(Seq<char>, Seq<char>)>,
    caller: Seq<char>,
    from: Seq<char>,
    to: Seq<char>,
) -> spec_fn(Seq<char>) -> nat {
    |callee: Seq<char>|
        if at(homes, caller) == Some(from) && at(homes, callee) == Some(to) {
            1nat
        } else {
            0
        }
}

/// How many calls a function makes from one module into another.
pub open spec fn function_counts(
    homes: Seq<(Seq<char>, Seq<char>)>,
    from: Seq<char>,
    to: Seq<char>,
) -> spec_fn((Seq<char>, Seq<Seq<char>>)) -> nat {
    |c: (Seq<char>, Seq<Seq<char>>)| sum(c.1, call_counts(homes, c.0, from, to))
}

/// Whether a list of edges has one for two modules exactly if there are calls, with as
/// many calls as there are.
spec fn edge_holds(es: Seq<EdgeView>, from: Seq<char>, to: Seq<char>, n: nat) -> bool {
    match edge_from(es, from, to, 0) {
        Some(k) => 0 <= k < es.len() && es[k].from == from && es[k].to == to && n > 0 && es[k].n
            == capped(n),
        None => n == 0 && forall|k: int|
            0 <= k < es.len() ==> !((#[trigger] es[k]).from == from && es[k].to == to),
    }
}

proof fn lemma_edge_from(es: Seq<EdgeView>, from: Seq<char>, to: Seq<char>, k: int)
    requires
        0 <= k,
    ensures
        match edge_from(es, from, to, k) {
            Some(p) => k <= p < es.len() && es[p].from == from && es[p].to == to && forall|i: int|
                k <= i < p ==> !((#[trigger] es[i]).from == from && es[i].to == to),
            None => forall|i: int|
                k <= i < es.len() ==> !((#[trigger] es[i]).from == from && es[i].to == to),
        },
    decreases es.len() - k,
{
    if k < es.len() && !(es[k].from == from && es[k].to == to) {
        lemma_edge_from(es, from, to, k + 1);
    }
}

proof fn lemma_first_edge(es: Seq<EdgeView>, from: Seq<char>, to: Seq<char>, p: int)
    requires
        0 <= p < es.len(),
        es[p].from == from,
        es[p].to == to,
        forall|i: int| 0 <= i < p ==> !((#[trigger] es[i]).from == from && es[i].to == to),
    ensures
        edge_from(es, from, to, 0) == Some(p),
{
    lemma_edge_from(es, from, to, 0);
    let q = edge_from(es, from, to, 0)->Some_0;
    if q < p {
        assert(!(es[q].from == from && es[q].to == to));
    } else if p < q {
        assert(!(es[p].from == from && es[p].to == to));
    }
}

proof fn lemma_with_call(
    es: Seq<EdgeView>,
    f: Seq<char>,
    t: Seq<char>,
    caller: Seq<char>,
    callee: Seq<char>,
    from: Seq<char>,
    to: Seq<char>,
    n: nat,
)
    requires
        edge_holds(es, from, to, n),
    ensures
        edge_holds(
            with_call(es, f, t, caller, callee),
            from,
            to,
            n + (if f == from && t == to {
                1nat
            } else {
                0
            }),
        ),
{
    let r = with_call(es, f, t, caller, callee);
    lemma_edge_from(es, f, t, 0);
    lemma_edge_from(es, from, to, 0);
    lemma_edge_from(r, from, to, 0);
    match edge_from(es, f, t, 0) {
        Some(k) => {
            if let Some(p) = edge_from(es, from, to, 0) {
                assert forall|i: int| 0 <= i < p implies !((#[trigger] r[i]).from == from && r[i].to
                    == to) by {
                    assert(!(es[i].from == from && es[i].to == to));
                }
                lemma_first_edge(r, from, to, p);
            } else {
                if let Some(q) = edge_from(r, from, to, 0) {
                    assert(es[q].from == from && es[q].to == to);
                }
            }
        },
        None => {
            if let Some(p) = edge_from(es, from, to, 0) {
                assert forall|i: int| 0 <= i < p implies !((#[trigger] r[i]).from == from && r[i].to
                    == to) by {
                    assert(!(es[i].from == from && es[i].to == to));
                }
                lemma_first_edge(r, from, to, p);
            } else if f == from && t == to {
                assert forall|i: int| 0 <= i < es.len() implies !((#[trigger] r[i]).from == from
                    && r[i].to == to) by {
                    assert(!(es[i].from == from && es[i].to == to));
                }
                lemma_first_edge(r, from, to, es.len() as int);
            } else {
                if let Some(q) = edge_from(r, from, to, 0) {
                    if q < es.len() {
                        assert(es[q].from == from && es[q].to == to);
                    }
                }
            }
        },
    }
}

proof fn lemma_with_calls(
    es: Seq<EdgeView>,
    homes: Seq<(Seq<char>, Seq<char>)>,
    caller: Seq<char>,
    callees: Seq<Seq<char>>,
    m: nat,
    from: Seq<char>,
    to: Seq<char>,
    n: nat,
)
    requires
        m <= callees.len(),
        from != to,
        edge_holds(es, from, to, n),
    ensures
        edge_holds(
            with_calls(es, homes, caller, callees, m),
            from,
            to,
            n + sum(callees.take(m as int), call_counts(homes, caller, from, to)),
        ),
    decreases m,
{
    let g = call_counts(homes, caller, from, to);
    if m == 0 {
        assert(callees.take(0) =~= Seq::<Seq<char>>::empty());
    } else {
        let k = (m - 1) as nat;
        lemma_with_calls(es, homes, caller, callees, k, from, to, n);
        assert(callees.take(m as int) =~= callees.take(k as int).push(callees[m - 1]));
        lemma_sum_push(callees.take(k as int), callees[m - 1], g);
        let rest = with_calls(es, homes, caller, callees, k);
        if let (Some(f), Some(t)) = (at(homes, caller), at(homes, callees[m - 1])) {
            if f != t {
                lemma_with_call(
                    rest,
                    f,
                    t,
                    caller,
                    callees[m - 1],
                    from,
                    to,
                    n + sum(callees.take(k as int), g),
                );
            }
        }
    }
}

proof fn lemma_edges(
    homes: Seq<(Seq<char>, Seq<char>)>,
    calls: Seq<(Seq<char>, Seq<Seq<char>>)>,
    n: nat,
    from: Seq<char>,
    to: Seq<char>,
)
    requires
        n <= calls.len(),
        from != to,
    ensures
        edge_holds(
            edges_upto(homes, calls, n),
            from,
            to,
            sum(calls.take(n as int), function_counts(homes, from, to)),
        ),
    decreases n,
{
    let g = function_counts(homes, from, to);
    if n == 0 {
        assert(calls.take(0) =~= Seq::<(Seq<char>, Seq<Seq<char>>)>::empty());
    } else {
        let k = (n - 1) as nat;
        lemma_edges(homes, calls, k, from, to);
        assert(calls.take(n as int) =~= calls.take(k as int).push(calls[n - 1]));
        lemma_sum_push(calls.take(k as int), calls[n - 1], g);
        let c = calls[n - 1];
        lemma_with_calls(
            edges_upto(homes, calls, k),
            homes,
            c.0,
            c.1,
            c.1.len(),
            from,
            to,
            sum(calls.take(k as int), g),
        );
        assert(c.1.take(c.1.len() as int) =~= c.1);
    }
}

/// There is an edge from one module to another if and only if a function that lies in the
/// first calls one that lies in the second, and it counts every such call.
pub proof fn law_edges_count_the_calls(
    homes: Seq<(Seq<char>, Seq<char>)>,
    calls: Seq<(Seq<char>, Seq<Seq<char>>)>,
    from: Seq<char>,
    to: Seq<char>,
)
    requires
        from != to,
    ensures
        ({
            let es = edges_upto(homes, calls, calls.len());
            let n = sum(calls, function_counts(homes, from, to));
            &&& (exists|k: int|
                0 <= k < es.len() && (#[trigger] es[k]).from == from && es[k].to == to) <==> n > 0
            &&& forall|k: int|
                0 <= k < es.len() && (#[trigger] es[k]).from == from && es[k].to == to ==> es[k].n
                    == capped(n)
        }),
{
    let es = edges_upto(homes, calls, calls.len());
    lemma_edges(homes, calls, calls.len(), from, to);
    assert(calls.take(calls.len() as int) =~= calls);
    crate::module_map::law_edges_cross_modules(homes, calls, calls.len());
    lemma_edge_from(es, from, to, 0);
    if let Some(p) = edge_from(es, from, to, 0) {
        assert forall|k: int|
            0 <= k < es.len() && (#[trigger] es[k]).from == from && es[k].to == to implies k
            == p by {
            if k < p {
                assert(!(es[k].from == es[p].from && es[k].to == es[p].to));
            } else if p < k {
                assert(!(es[p].from == es[k].from && es[p].to == es[k].to));
            }
        }
    }
}

/// The edges that are kept are those with at least as many calls as asked for.
pub proof fn law_weak_edges_are_left_out(es: Seq<EdgeView>, least: u64, e: EdgeView)
    ensures
        es.filter(frequent(least)).contains(e) <==> es.contains(e) && e.n >= least,
{
    let p = frequent(least);
    if es.filter(p).contains(e) {
        es.lemma_filter_contains_rev(p, e);
        let places = lemma_filter_places(es, p);
        let k = choose|k: int| 0 <= k < es.filter(p).len() && es.filter(p)[k] == e;
        assert(p(es[places[k]]));
    }
    if es.contains(e) && e.n >= least {
        let i = choose|i: int| 0 <= i < es.len() && es[i] == e;
        es.lemma_filter_contains(p, i);
    }
}

// ---------------------------------------------------------------------------
// Modules

/// What a site counts for a module.
pub open spec fn lies_in(m: Seq<char>, depth: Option<u64>) -> spec_fn(
    (Seq<char>, Seq<char>),
) -> nat {
    |s: (Seq<char>, Seq<char>)|
        if home_of(s.1, depth) == m {
            1nat
        } else {
            0
        }
}

proof fn lemma_counts(
    sites: Seq<(Seq<char>, Seq<char>)>,
    depth: Option<u64>,
    n: nat,
    m: Seq<char>,
)
    requires
        n <= sites.len(),
    ensures
        count_at(counts_upto(sites, depth, n), m) == capped(
            sum(sites.take(n as int), lies_in(m, depth)),
        ),
        at(counts_upto(sites, depth, n), m) is Some <==> sum(
            sites.take(n as int),
            lies_in(m, depth),
        ) > 0,
    decreases n,
{
    if n == 0 {
        assert(sites.take(0) =~= Seq::<(Seq<char>, Seq<char>)>::empty());
    } else {
        let k = (n - 1) as nat;
        lemma_counts(sites, depth, k, m);
        assert(sites.take(n as int) =~= sites.take(k as int).push(sites[n - 1]));
        lemma_sum_push(sites.take(k as int), sites[n - 1], lies_in(m, depth));
        let rest = counts_upto(sites, depth, k);
        let h = home_of(sites[n - 1].1, depth);
        lemma_at_put(rest, h, capped(count_at(rest, h) as nat + 1), m);
    }
}

/// A module has as many symbols as sites lie in it, and there is none without.
pub proof fn law_modules_count_their_symbols(
    sites: Seq<(Seq<char>, Seq<char>)>,
    depth: Option<u64>,
    m: Seq<char>,
)
    ensures
        at(counts_upto(sites, depth, sites.len()), m) == (if sum(sites, lies_in(m, depth)) == 0 {
            None
        } else {
            Some(capped(sum(sites, lies_in(m, depth))))
        }),
{
    lemma_counts(sites, depth, sites.len(), m);
    assert(sites.take(sites.len() as int) =~= sites);
}

/// A symbol lies in the module of the last site that has its name.
pub proof fn law_symbols_lie_where_they_were_last_seen(
    sites: Seq<(Seq<char>, Seq<char>)>,
    depth: Option<u64>,
    n: nat,
    i: int,
)
    requires
        0 <= i < n <= sites.len(),
        forall|j: int| i < j < n ==> segment((#[trigger] sites[j]).0) != segment(sites[i].0),
    ensures
        at(homes_upto(sites, depth, n), segment(sites[i].0)) == Some(home_of(sites[i].1, depth)),
    decreases n,
{
    let k = (n - 1) as nat;
    lemma_at_put(
        homes_upto(sites, depth, k),
        segment(sites[n - 1].0),
        home_of(sites[n - 1].1, depth),
        segment(sites[i].0),
    );
    if i < n - 1 {
        law_symbols_lie_where_they_were_last_seen(sites, depth, k, i);
    }
}

/// A name that no site has lies in no module.
pub proof fn law_unknown_symbols_lie_nowhere(
    sites: Seq<(Seq<char>, Seq<char>)>,
    depth: Option<u64>,
    n: nat,
    name: Seq<char>,
)
    requires
        n <= sites.len(),
        forall|j: int| 0 <= j < n ==> segment((#[trigger] sites[j]).0) != name,
    ensures
        at(homes_upto(sites, depth, n), name) is None,
    decreases n,
{
    if n > 0 {
        let k = (n - 1) as nat;
        law_unknown_symbols_lie_nowhere(sites, depth, k, name);
        lemma_at_put(
            homes_upto(sites, depth, k),
            segment(sites[n - 1].0),
            home_of(sites[n - 1].1, depth),
            name,
        );
    }
}

/// Whether an edge touches what is in focus.
pub open spec fn touches(e: EdgeView, focus: Seq<char>) -> bool {
    starts(e.from, focus) || starts(e.to, focus)
}

proof fn lemma_focused(focus: Seq<char>, counts: Seq<(Seq<char>, u64)>, n: nat, m: Seq<char>)
    requires
        n <= counts.len(),
    ensures
        at(focused_upto(focus, counts, n), m) is Some <==> starts(m, focus) && exists|i: int|
            0 <= i < n && (#[trigger] counts[i]).0 == m,
    decreases n,
{
    if n > 0 {
        lemma_focused(focus, counts, (n - 1) as nat, m);
        lemma_at_put(
            focused_upto(focus, counts, (n - 1) as nat),
            counts[n - 1].0,
            true,
            m,
        );
    }
}

proof fn lemma_coupled(
    focus: Seq<char>,
    vis: Seq<(Seq<char>, bool)>,
    cross: Seq<EdgeView>,
    n: nat,
    m: Seq<char>,
)
    requires
        n <= cross.len(),
    ensures
        at(coupled_upto(focus, vis, cross, n), m) is Some <==> at(vis, m) is Some || exists|i: int|
            0 <= i < n && touches(#[trigger] cross[i], focus) && (cross[i].from == m || cross[i].to
                == m),
    decreases n,
{
    if n > 0 {
        lemma_coupled(focus, vis, cross, (n - 1) as nat, m);
        let rest = coupled_upto(focus, vis, cross, (n - 1) as nat);
        let e = cross[n - 1];
        lemma_at_put(rest, e.from, true, m);
        lemma_at_put(crate::smap::put(rest, e.from, true), e.to, true, m);
    }
}

proof fn lemma_all_seen(counts: Seq<(Seq<char>, u64)>, m: Seq<char>)
    ensures
        at(counts.map_values(|e: (Seq<char>, u64)| (e.0, true)), m) is Some <==> at(counts, m)
            is Some,
    decreases counts.len(),
{
    let f = |e: (Seq<char>, u64)| (e.0, true);
    if counts.len() > 0 {
        assert(counts.map_values(f).drop_first() =~= counts.drop_first().map_values(f));
        lemma_all_seen(counts.drop_first(), m);
    }
}

proof fn lemma_at_some(counts: Seq<(Seq<char>, u64)>, m: Seq<char>)
    ensures
        at(counts, m) is Some <==> exists|i: int|
            0 <= i < counts.len() && (#[trigger] counts[i]).0 == m,
    decreases counts.len(),
{
    if counts.len() > 0 {
        let t = counts.drop_first();
        lemma_at_some(t, m);
        if exists|i: int| 0 <= i < counts.len() && (#[trigger] counts[i]).0 == m {
            let i = choose|i: int| 0 <= i < counts.len() && (#[trigger] counts[i]).0 == m;
            if i > 0 {
                assert(t[i - 1].0 == m);
            }
        }
        if exists|i: int| 0 <= i < t.len() && (#[trigger] t[i]).0 == m {
            let i = choose|i: int| 0 <= i < t.len() && (#[trigger] t[i]).0 == m;
            assert(counts[i + 1].0 == m);
        }
    }
}

/// Without a focus every module is shown. With one, those are shown whose names begin with
/// it, and both ends of every edge that has an end that does.
pub proof fn law_focus_shows_neighbours(
    focus: Seq<char>,
    counts: Seq<(Seq<char>, u64)>,
    cross: Seq<EdgeView>,
    m: Seq<char>,
)
    ensures
        at(visible(focus, counts, cross), m) is Some <==> (if focus.len() == 0 {
            at(counts, m) is Some
        } else {
            (starts(m, focus) && at(counts, m) is Some) || exists|i: int|
                0 <= i < cross.len() && touches(#[trigger] cross[i], focus) && (cross[i].from == m
                    || cross[i].to == m)
        }),
{
    lemma_all_seen(counts, m);
    lemma_at_some(counts, m);
    lemma_focused(focus, counts, counts.len(), m);
    lemma_coupled(
        focus,
        focused_upto(focus, counts, counts.len()),
        cross,
        cross.len(),
        m,
    );
}

proof fn lemma_shown(
    counts: Seq<(Seq<char>, u64)>,
    vis: Seq<(Seq<char>, bool)>,
    n: nat,
    e: (Seq<char>, u64),
)
    requires
        n <= counts.len(),
    ensures
        shown_upto(counts, vis, n).contains(e) <==> at(vis, e.0) is Some && counts.take(
            n as int,
        ).contains(e),
    decreases n,
{
    if n > 0 {
        lemma_shown(counts, vis, (n - 1) as nat, e);
        assert(counts.take(n as int) =~= counts.take(n - 1).push(counts[n - 1]));
        lemma_contains_push(counts.take(n - 1), counts[n - 1], e);
        lemma_contains_push(shown_upto(counts, vis, (n - 1) as nat), counts[n - 1], e);
    }
}

/// The modules of a map are those that are visible, each with its count of symbols, and
/// the ones with the most calls in and out come first.
pub proof fn law_most_coupled_modules_first(
    counts: Seq<(Seq<char>, u64)>,
    vis: Seq<(Seq<char>, bool)>,
    cross: Seq<EdgeView>,
)
    ensures
        ({
            let ms = modules_of(counts, vis, cross);
            &&& forall|e: (Seq<char>, u64)| #[trigger]
                ms.contains(e) <==> at(vis, e.0) is Some && counts.contains(e)
            &&& forall|i: int, j: int|
                0 <= i < j < ms.len() ==> capped(
                    edge_sum(cross, (#[trigger] ms[i]).0, true) as nat + edge_sum(
                        cross,
                        ms[i].0,
                        false,
                    ) as nat,
                ) >= capped(
                    edge_sum(cross, (#[trigger] ms[j]).0, true) as nat + edge_sum(
                        cross,
                        ms[j].0,
                        false,
                    ) as nat,
                )
        }),
{
    let v = shown_upto(counts, vis, counts.len());
    let ks = module_keys(v, cross);
    let o = crate::order::sort_order(ks);
    let ms = modules_of(counts, vis, cross);
    lemma_arranged_items(v, ks);
    crate::order::lemma_sort_order(ks);
    assert forall|e: (Seq<char>, u64)| #[trigger]
        ms.contains(e) <==> at(vis, e.0) is Some && counts.contains(e) by {
        lemma_shown(counts, vis, counts.len(), e);
        assert(counts.take(counts.len() as int) =~= counts);
    }
    assert forall|i: int, j: int| 0 <= i < j < ms.len() implies total(
        cross,
        (#[trigger] ms[i]).0,
    ) >= total(cross, (#[trigger] ms[j]).0) by {
        assert(!crate::order::key_lt(ks[o[j]], ks[o[i]]));
        assert(ms[i] == v[o[i]] && ms[j] == v[o[j]]);
    }
}

// ---------------------------------------------------------------------------
// The text

/// Whether these are the rows of the first outgoing links, each with its examples.
pub open spec fn out_rows(rows: Seq<Seq<char>>, ls: Seq<LinkView>, cap: nat) -> bool {
    &&& rows.len() == (if ls.len() < 8 {
        ls.len()
    } else {
        8
    })
    &&& forall|i: int|
        0 <= i < rows.len() ==> (#[trigger] rows[i]) == "  → "@ + ls[i].name + "/  ("@ + dec(
            ls[i].n as nat,
        ) + " call edge(s))\n"@ + (match sample_line(ls[i], cap) {
            Some(s) => s,
            None => Seq::empty(),
        })
}

/// Whether these are the rows of the first incoming links.
pub open spec fn in_rows(rows: Seq<Seq<char>>, ls: Seq<LinkView>) -> bool {
    &&& rows.len() == (if ls.len() < 8 {
        ls.len()
    } else {
        8
    })
    &&& forall|i: int|
        0 <= i < rows.len() ==> (#[trigger] rows[i]) == "  ← "@ + ls[i].name + "/  ("@ + dec(
            ls[i].n as nat,
        ) + " call edge(s) in)\n"@
}

/// The note on the links that are not shown.
pub open spec fn more_links(n: nat, what: Seq<char>) -> Seq<char> {
    if n > 8 {
        "  … (+"@ + dec((n - 8) as nat) + what
    } else {
        Seq::empty()
    }
}

proof fn lemma_out_rows(
    out: Seq<char>,
    v: Seq<LinkView>,
    cap: nat,
    budget: nat,
    k: int,
    rows: Seq<Seq<char>>,
    start: Seq<char>,
) -> (all: Seq<Seq<char>>)
    requires
        0 <= k <= v.len(),
        k <= 8,
        rows.len() == k,
        out == start + flat(rows),
        forall|i: int|
            0 <= i < rows.len() ==> (#[trigger] rows[i]) == "  → "@ + v[i].name + "/  ("@ + dec(
                v[i].n as nat,
            ) + " call edge(s))\n"@ + (match sample_line(v[i], cap) {
                Some(s) => s,
                None => Seq::empty(),
            }),
        !out_from(out, v, cap, budget, k).1,
    ensures
        out_rows(all, v, cap),
        out_from(out, v, cap, budget, k).0 == start + flat(all),
    decreases v.len() - k,
{
    if k >= v.len() || k >= 8 {
        rows
    } else {
        let tail = match sample_line(v[k], cap) {
            Some(s) => s,
            None => Seq::<char>::empty(),
        };
        let row = out_line(v[k]) + tail;
        lemma_flat_push(rows, row);
        assert(start + flat(rows.push(row)) =~= out + out_line(v[k]) + tail);
        if sample_line(v[k], cap) is None {
            assert(out + out_line(v[k]) + tail =~= out + out_line(v[k]));
        }
        lemma_out_rows(out + out_line(v[k]) + tail, v, cap, budget, k + 1, rows.push(row), start)
    }
}

proof fn lemma_in_rows(
    out: Seq<char>,
    v: Seq<LinkView>,
    budget: nat,
    k: int,
    rows: Seq<Seq<char>>,
    start: Seq<char>,
) -> (all: Seq<Seq<char>>)
    requires
        0 <= k <= v.len(),
        k <= 8,
        rows.len() == k,
        out == start + flat(rows),
        forall|i: int|
            0 <= i < rows.len() ==> (#[trigger] rows[i]) == "  ← "@ + v[i].name + "/  ("@ + dec(
                v[i].n as nat,
            ) + " call edge(s) in)\n"@,
        !in_from(out, v, budget, k).1,
    ensures
        in_rows(all, v),
        in_from(out, v, budget, k).0 == start + flat(all),
    decreases v.len() - k,
{
    if k >= v.len() || k >= 8 {
        rows
    } else {
        let row = in_line(v[k]);
        lemma_flat_push(rows, row);
        assert(start + flat(rows.push(row)) =~= out + row);
        lemma_in_rows(out + row, v, budget, k + 1, rows.push(row), start)
    }
}

/// What is written of the modules that a module calls.
pub open spec fn called_part(o: Seq<LinkView>, outs: Seq<Seq<char>>) -> Seq<char> {
    (if o.len() == 0 {
        "  (no outgoing cross-module calls)\n"@
    } else {
        flat(outs)
    }) + more_links(o.len(), " more outgoing targets)\n"@)
}

/// What is written of the modules that call a module.
pub open spec fn calling_part(i: Seq<LinkView>, ins: Seq<Seq<char>>) -> Seq<char> {
    flat(ins) + more_links(i.len(), " more incoming sources)\n"@)
}

/// What is written of a module: its name and how many symbols and calls it has, then the
/// modules that it calls and how often, then the modules that call it and how often.
pub open spec fn section(
    m: (Seq<char>, u64),
    cross: Seq<EdgeView>,
    outs: Seq<Seq<char>>,
    ins: Seq<Seq<char>>,
) -> Seq<char> {
    (m.0 + "/  ("@ + dec(m.1 as nat) + " symbols, "@ + dec(edge_sum(cross, m.0, true) as nat)
        + " out / "@ + dec(edge_sum(cross, m.0, false) as nat) + " in)\n"@) + called_part(
        links(cross, m.0, true),
        outs,
    ) + calling_part(links(cross, m.0, false), ins) + "\n"@
}

/// Whether a text is what is written of a module.
pub open spec fn section_of(
    text: Seq<char>,
    m: (Seq<char>, u64),
    cross: Seq<EdgeView>,
    cap: nat,
) -> bool {
    exists|outs: Seq<Seq<char>>, ins: Seq<Seq<char>>|
        out_rows(outs, links(cross, m.0, true), cap) && in_rows(ins, links(cross, m.0, false))
            && text == #[trigger] section(m, cross, outs, ins)
}

proof fn lemma_called_part(t: Seq<char>, o: Seq<LinkView>, cap: nat, b: nat) -> (outs: Seq<
    Seq<char>,
>)
    requires
        !with_out(t, o, cap, b).1,
    ensures
        out_rows(outs, o, cap),
        with_out(t, o, cap, b).0 == t + called_part(o, outs),
{
    let none = Seq::<Seq<char>>::empty();
    assert(t =~= t + flat(none));
    let outs = if o.len() == 0 {
        none
    } else {
        lemma_out_rows(t, o, cap, b, 0, none, t)
    };
    assert(with_out(t, o, cap, b).0 =~= t + called_part(o, outs));
    outs
}

proof fn lemma_calling_part(t: Seq<char>, i: Seq<LinkView>, b: nat) -> (ins: Seq<Seq<char>>)
    requires
        !with_in(t, i, b).1,
    ensures
        in_rows(ins, i),
        with_in(t, i, b).0 == t + calling_part(i, ins),
{
    let none = Seq::<Seq<char>>::empty();
    assert(t =~= t + flat(none));
    let ins = lemma_in_rows(t, i, b, 0, none, t);
    assert(with_in(t, i, b).0 =~= t + calling_part(i, ins));
    ins
}

proof fn lemma_four(out: Seq<char>, x: Seq<char>, y: Seq<char>, z: Seq<char>, w: Seq<char>)
    ensures
        out + x + y + z + w == out + (x + y + z + w),
{
    assert(out + x + y + z + w =~= out + (x + y + z + w));
}

proof fn lemma_section(
    out: Seq<char>,
    m: (Seq<char>, u64),
    cross: Seq<EdgeView>,
    a: MapAskView,
) -> (text: Seq<char>)
    requires
        !with_module(out, m, cross, a).1,
    ensures
        with_module(out, m, cross, a).0 == out + text,
        section_of(text, m, cross, a.samples as nat),
{
    let o = links(cross, m.0, true);
    let i = links(cross, m.0, false);
    let x = module_head(m, cross);
    let cap = a.samples as nat;
    let b = a.budget as nat;
    let outs = lemma_called_part(out + x, o, cap, b);
    let y = called_part(o, outs);
    let ins = lemma_calling_part(out + x + y, i, b);
    let z = calling_part(i, ins);
    lemma_four(out, x, y, z, "\n"@);
    let text = section(m, cross, outs, ins);
    assert(section_of(text, m, cross, cap));
    text
}

/// Whether texts are what is written of the modules from the one numbered `k` on.
pub open spec fn sections_of(
    texts: Seq<Seq<char>>,
    ms: Seq<(Seq<char>, u64)>,
    cross: Seq<EdgeView>,
    cap: nat,
    k: int,
) -> bool {
    forall|i: int|
        0 <= i < texts.len() ==> k + i < ms.len() && section_of(
            #[trigger] texts[i],
            ms[k + i],
            cross,
            cap,
        )
}

proof fn lemma_sections(
    start: Seq<char>,
    texts: Seq<Seq<char>>,
    ms: Seq<(Seq<char>, u64)>,
    cross: Seq<EdgeView>,
    a: MapAskView,
    visible: nat,
    first: int,
    k: int,
) -> (all: Seq<Seq<char>>)
    requires
        0 <= first <= k <= ms.len(),
        texts.len() == k - first,
        k - first <= a.max,
        sections_of(texts, ms, cross, a.samples as nat, first),
        modules_from(
            start + flat(texts),
            ms,
            cross,
            a,
            visible,
            (k - first) as nat,
            k,
        ).1 is None,
    ensures
        sections_of(all, ms, cross, a.samples as nat, first),
        all.len() == (if ms.len() - first < a.max {
            ms.len() - first
        } else {
            a.max as int
        }),
        modules_from(
            start + flat(texts),
            ms,
            cross,
            a,
            visible,
            (k - first) as nat,
            k,
        ).0 == start + flat(all) + (if ms.len() - first > a.max {
            "… (+"@ + dec(less_than(visible, (first + a.max) as nat))
                + " more modules; raise \"max\")\n"@
        } else {
            Seq::empty()
        }),
    decreases ms.len() - k,
{
    let out = start + flat(texts);
    if k == ms.len() {
        assert(out + Seq::<char>::empty() =~= out);
        texts
    } else if k - first >= a.max {
        assert(out + ("… (+"@ + dec(less_than(visible, (first + a.max) as nat))
            + " more modules; raise \"max\")\n"@) =~= out + "… (+"@ + dec(
            less_than(visible, k as nat),
        ) + " more modules; raise \"max\")\n"@);
        texts
    } else {
        let text = lemma_section(out, ms[k], cross, a);
        let next = texts.push(text);
        lemma_flat_push(texts, text);
        assert(out + text =~= start + flat(next));
        assert forall|i: int| 0 <= i < next.len() implies first + i < ms.len() && section_of(
            #[trigger] next[i],
            ms[first + i],
            cross,
            a.samples as nat,
        ) by {
            if i < texts.len() {
                assert(next[i] == texts[i]);
                assert(section_of(texts[i], ms[first + i], cross, a.samples as nat));
            }
        }
        lemma_sections(start, next, ms, cross, a, visible, first, k + 1)
    }
}

/// A map that is not cut short shows a section for each of its modules, in order, from the
/// one where it resumes on and as many as may be shown. Each section says how many symbols
/// the module has and how many calls lead out and in, and lists the modules that it calls
/// and the modules that call it.
pub proof fn law_map_shows_its_modules(
    a: MapAskView,
    paths: Seq<Seq<char>>,
    counts: Seq<(Seq<char>, u64)>,
    cross: Seq<EdgeView>,
) -> (r: (Seq<char>, Seq<Seq<char>>))
    requires
        visible(a.focus, counts, cross).len() > 0,
        rendered(a, paths, counts, cross).cut is None,
        a.resume_at <= modules_of(counts, visible(a.focus, counts, cross), cross).len(),
    ensures
        ({
            let ms = modules_of(counts, visible(a.focus, counts, cross), cross);
            let left = ms.len() - a.resume_at;
            &&& starts(rendered(a, paths, counts, cross).text, r.0 + flat(r.1))
            &&& starts(
                r.0,
                "module_map - "@ + dec(visible(a.focus, counts, cross).len()) + " module(s), "@
                    + dec(cross.len()) + " cross-module edge(s)"@,
            )
            &&& r.1.len() == (if left < a.max {
                left
            } else {
                a.max as int
            })
            &&& sections_of(r.1, ms, cross, a.samples as nat, a.resume_at as int)
        }),
{
    let vis = visible(a.focus, counts, cross);
    let ms = modules_of(counts, vis, cross);
    let head = crate::module_map::map_head(a, paths, vis.len(), cross.len());
    let none = Seq::<Seq<char>>::empty();
    assert(head + flat(none) =~= head);
    let all = lemma_sections(
        head,
        none,
        ms,
        cross,
        a,
        vis.len(),
        a.resume_at as int,
        a.resume_at as int,
    );
    let text = rendered(a, paths, counts, cross).text;
    assert(text.take((head + flat(all)).len() as int) =~= head + flat(all));
    let lead = "module_map - "@ + dec(vis.len()) + " module(s), "@ + dec(cross.len())
        + " cross-module edge(s)"@;
    reveal_strlit(" cross-module edge(s)");
    reveal_strlit(" cross-module edge(s)  (roots ");
    assert(head.take(lead.len() as int) =~= lead);
    (head, all)
}

} // verus!

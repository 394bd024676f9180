//! Coupling between modules: symbols grouped by directory, and the calls that
//! cross from one group to another.
use vstd::prelude::*;
use crate::izakaya::replay::arranged;
use crate::json::{get_u64, number_or, str_or, string_or, u64_or, Datum, Json};
use crate::order::{key_views, positioned, sort, sort_order, Key, KeyView};
use crate::smap::{at, entries_view, put, StrMap};
use crate::symbol_def::{seg, segment};
use crate::text::{
    blen, capped, copy, count_up, dec, decimal, is_blank, join, joined, list_text, listed, same,
    size, split_char, split_on, starts, starts_with, strs, trim, trimmed,
};

verus! {

/// Examples kept of one edge.
pub const SAMPLE_CAP: usize = 4;

/// Edges shown of one module in each direction.
pub const EDGE_CAP: usize = 8;

// ---------------------------------------------------------------------------
// Modules

/// The module of a file: its directory, or the first `depth` parts of it.
pub open spec fn home_of(rel: Seq<char>, depth: Option<u64>) -> Seq<char> {
    let parts = split_on(rel, '/');
    if parts.len() <= 1 {
        "."@
    } else {
        let dirs = parts.drop_last();
        match depth {
            Some(d) => if d < dirs.len() {
                joined(dirs.take(d as int), "/"@)
            } else {
                joined(dirs, "/"@)
            },
            None => joined(dirs, "/"@),
        }
    }
}

pub fn module_of(rel: &str, depth: Option<u64>) -> (r: String)
    ensures
        r@ == home_of(rel@, depth),
{
    let parts = split_char(rel, '/');
    let ghost all = split_on(rel@, '/');
    assert(all.len() == parts@.len());
    if parts.len() <= 1 {
        return copy(".");
    }
    let n: usize = parts.len() - 1;
    let m: usize = match depth {
        Some(d) => if d < n as u64 {
            d as usize
        } else {
            n
        },
        None => n,
    };
    let mut some: Vec<String> = Vec::new();
    for i in 0..m
        invariant
            m < parts@.len(),
            some@.len() == i,
            forall|k: int| 0 <= k < i ==> (#[trigger] some@[k])@ == parts@[k]@,
    {
        some.push(copy(parts[i].as_str()));
    }
    assert(strs(some@) =~= all.drop_last().take(m as int));
    assert(all.drop_last().take(n as int) =~= all.drop_last());
    join(&some, "/")
}

/// A symbol and the file that defines it.
pub struct Site {
    pub name: String,
    pub rel: String,
}

/// A function and what it calls.
pub struct Calls {
    pub caller: String,
    pub callees: Vec<String>,
}

pub open spec fn site_views(v: Seq<Site>) -> Seq<(Seq<char>, Seq<char>)> {
    Seq::new(v.len(), |i: int| (v[i].name@, v[i].rel@))
}

pub open spec fn calls_views(v: Seq<Calls>) -> Seq<(Seq<char>, Seq<Seq<char>>)> {
    Seq::new(v.len(), |i: int| (v[i].caller@, strs(v[i].callees@)))
}

/// How many symbols each module has, among the first `n` sites.
pub open spec fn counts_upto(
    sites: Seq<(Seq<char>, Seq<char>)>,
    depth: Option<u64>,
    n: nat,
) -> Seq<(Seq<char>, u64)>
    decreases n,
{
    if n == 0 {
        Seq::empty()
    } else {
        let rest = counts_upto(sites, depth, (n - 1) as nat);
        let m = home_of(sites[n - 1].1, depth);
        put(rest, m, capped(count_at(rest, m) as nat + 1))
    }
}

pub open spec fn count_at(counts: Seq<(Seq<char>, u64)>, m: Seq<char>) -> u64 {
    match at(counts, m) {
        Some(n) => n,
        None => 0,
    }
}

/// The module of each symbol, by the last segment of its name, among the first
/// `n` sites. A later site takes the place of an earlier one.
pub open spec fn homes_upto(
    sites: Seq<(Seq<char>, Seq<char>)>,
    depth: Option<u64>,
    n: nat,
) -> Seq<(Seq<char>, Seq<char>)>
    decreases n,
{
    if n == 0 {
        Seq::empty()
    } else {
        put(
            homes_upto(sites, depth, (n - 1) as nat),
            segment(sites[n - 1].0),
            home_of(sites[n - 1].1, depth),
        )
    }
}

fn place_sites(sites: &Vec<Site>, depth: Option<u64>) -> (r: (StrMap<u64>, StrMap<String>))
    ensures
        r.0.wf(),
        r.1.wf(),
        r.0@ == counts_upto(site_views(sites@), depth, sites@.len()),
        r.1@ == homes_upto(site_views(sites@), depth, sites@.len()),
{
    let ghost all = site_views(sites@);
    let mut counts: StrMap<u64> = StrMap::new();
    let mut homes: StrMap<String> = StrMap::new();
    for i in 0..sites.len()
        invariant
            all == site_views(sites@),
            counts.wf(),
            homes.wf(),
            counts@ == counts_upto(all, depth, i as nat),
            homes@ == homes_upto(all, depth, i as nat),
    {
        let s = &sites[i];
        assert(all[i as int] == (s.name@, s.rel@));
        let m = module_of(s.rel.as_str(), depth);
        let n: u64 = match counts.get(m.as_str()) {
            Some(k) => *k,
            None => 0,
        };
        counts.insert(m.as_str(), count_up(n, 1));
        homes.insert(seg(s.name.as_str()).as_str(), m);
    }
    (counts, homes)
}

// ---------------------------------------------------------------------------
// Edges

/// Calls from one module into another: how many, and a few of them.
pub struct Edge {
    pub from: String,
    pub to: String,
    pub n: u64,
    pub samples: Vec<(String, String)>,
}

/// The values of an [`Edge`].
pub struct EdgeView {
    pub from: Seq<char>,
    pub to: Seq<char>,
    pub n: u64,
    pub samples: Seq<(Seq<char>, Seq<char>)>,
}

pub open spec fn pair_views(v: Seq<(String, String)>) -> Seq<(Seq<char>, Seq<char>)> {
    Seq::new(v.len(), |i: int| (v[i].0@, v[i].1@))
}

impl View for Edge {
    type V = EdgeView;

    open spec fn view(&self) -> EdgeView {
        EdgeView {
            from: self.from@,
            to: self.to@,
            n: self.n,
            samples: pair_views(self.samples@),
        }
    }
}

pub open spec fn edge_views(v: Seq<Edge>) -> Seq<EdgeView> {
    Seq::new(v.len(), |i: int| v[i]@)
}

pub open spec fn edge_from(es: Seq<EdgeView>, from: Seq<char>, to: Seq<char>, k: int) -> Option<int>
    decreases es.len() - k,
{
    if k < 0 || k >= es.len() {
        None
    } else if es[k].from == from && es[k].to == to {
        Some(k)
    } else {
        edge_from(es, from, to, k + 1)
    }
}

/// The edges with one more call from one module into another.
pub open spec fn with_call(
    es: Seq<EdgeView>,
    from: Seq<char>,
    to: Seq<char>,
    caller: Seq<char>,
    callee: Seq<char>,
) -> Seq<EdgeView> {
    match edge_from(es, from, to, 0) {
        Some(k) => es.update(
            k,
            EdgeView {
                n: capped(es[k].n as nat + 1),
                samples: if es[k].samples.len() < SAMPLE_CAP {
                    es[k].samples.push((caller, callee))
                } else {
                    es[k].samples
                },
                ..es[k]
            },
        ),
        None => es.push(EdgeView { from, to, n: 1, samples: seq![(caller, callee)] }),
    }
}

/// The edges with the first `m` calls of a function.
pub open spec fn with_calls(
    es: Seq<EdgeView>,
    homes: Seq<(Seq<char>, Seq<char>)>,
    caller: Seq<char>,
    callees: Seq<Seq<char>>,
    m: nat,
) -> Seq<EdgeView>
    decreases m,
{
    if m == 0 {
        es
    } else {
        let rest = with_calls(es, homes, caller, callees, (m - 1) as nat);
        match (at(homes, caller), at(homes, callees[m - 1])) {
            (Some(from), Some(to)) => if from == to {
                rest
            } else {
                with_call(rest, from, to, caller, callees[m - 1])
            },
            _ => rest,
        }
    }
}

/// The edges that the first `n` functions make.
pub open spec fn edges_upto(
    homes: Seq<(Seq<char>, Seq<char>)>,
    calls: Seq<(Seq<char>, Seq<Seq<char>>)>,
    n: nat,
) -> Seq<EdgeView>
    decreases n,
{
    if n == 0 {
        Seq::empty()
    } else {
        with_calls(
            edges_upto(homes, calls, (n - 1) as nat),
            homes,
            calls[n - 1].0,
            calls[n - 1].1,
            calls[n - 1].1.len(),
        )
    }
}

fn find_edge(es: &Vec<Edge>, from: &str, to: &str) -> (r: Option<usize>)
    ensures
        crate::syntax::place(r) == edge_from(edge_views(es@), from@, to@, 0),
        r matches Some(k) ==> k < es@.len(),
{
    for i in 0..es.len()
        invariant
            edge_from(edge_views(es@), from@, to@, 0) == edge_from(
                edge_views(es@),
                from@,
                to@,
                i as int,
            ),
    {
        assert(edge_views(es@)[i as int] == es@[i as int]@);
        if same(es[i].from.as_str(), from) && same(es[i].to.as_str(), to) {
            return Some(i);
        }
    }
    None
}

fn add_call(es: &mut Vec<Edge>, from: &str, to: &str, caller: &str, callee: &str)
    ensures
        edge_views(final(es)@) == with_call(edge_views(old(es)@), from@, to@, caller@, callee@),
{
    let ghost before = edge_views(es@);
    match find_edge(es, from, to) {
        Some(k) => {
            let mut e = es.remove(k);
            assert(e@ == before[k as int]);
            e.n = count_up(e.n, 1);
            if e.samples.len() < SAMPLE_CAP {
                let ghost sv = pair_views(e.samples@);
                e.samples.push((copy(caller), copy(callee)));
                assert(pair_views(e.samples@) =~= sv.push((caller@, callee@)));
            }
            let ghost ev = e@;
            es.insert(k, e);
            assert(edge_views(es@) =~= before.update(k as int, ev));
        },
        None => {
            let mut samples: Vec<(String, String)> = Vec::new();
            samples.push((copy(caller), copy(callee)));
            assert(pair_views(samples@) =~= seq![(caller@, callee@)]);
            let e = Edge { from: copy(from), to: copy(to), n: 1, samples };
            let ghost ev = e@;
            es.push(e);
            assert(edge_views(es@) =~= before.push(ev));
        },
    }
}

fn find_edges(homes: &StrMap<String>, calls: &Vec<Calls>) -> (r: Vec<Edge>)
    requires
        homes.wf(),
    ensures
        edge_views(r@) == edges_upto(homes@, calls_views(calls@), calls@.len()),
{
    let ghost all = calls_views(calls@);
    let mut es: Vec<Edge> = Vec::new();
    assert(edge_views(es@) =~= Seq::<EdgeView>::empty());
    for i in 0..calls.len()
        invariant
            homes.wf(),
            all == calls_views(calls@),
            edge_views(es@) == edges_upto(homes@, all, i as nat),
    {
        let c = &calls[i];
        let ghost before = edge_views(es@);
        let ghost cv = strs(c.callees@);
        assert(all[i as int] == (c.caller@, cv));
        assert(cv.len() == c.callees@.len());
        for j in 0..c.callees.len()
            invariant
                homes.wf(),
                cv == strs(c.callees@),
                edge_views(es@) == with_calls(before, homes@, c.caller@, cv, j as nat),
        {
            assert(cv[j as int] == c.callees@[j as int]@);
            if let (Some(from), Some(to)) = (
                homes.get(c.caller.as_str()),
                homes.get(c.callees[j].as_str()),
            ) {
                if !same(from.as_str(), to.as_str()) {
                    add_call(
                        &mut es,
                        from.as_str(),
                        to.as_str(),
                        c.caller.as_str(),
                        c.callees[j].as_str(),
                    );
                }
            }
        }
    }
    es
}

/// Edges with at least so many calls.
pub open spec fn frequent(min_edge: u64) -> spec_fn(EdgeView) -> bool {
    |e: EdgeView| e.n >= min_edge
}

fn copy_pairs(v: &Vec<(String, String)>) -> (r: Vec<(String, String)>)
    ensures
        pair_views(r@) == pair_views(v@),
{
    let mut out: Vec<(String, String)> = Vec::new();
    for i in 0..v.len()
        invariant
            out@.len() == i,
            forall|k: int|
                0 <= k < i ==> (#[trigger] out@[k]).0@ == v@[k].0@ && out@[k].1@ == v@[k].1@,
    {
        out.push((copy(v[i].0.as_str()), copy(v[i].1.as_str())));
    }
    assert(pair_views(out@) =~= pair_views(v@));
    out
}

impl Edge {
    pub fn copy(&self) -> (r: Edge)
        ensures
            r@ == self@,
    {
        Edge {
            from: copy(self.from.as_str()),
            to: copy(self.to.as_str()),
            n: self.n,
            samples: copy_pairs(&self.samples),
        }
    }
}

pub fn filter_cross(cross: &Vec<Edge>, min_edge: u64) -> (r: Vec<Edge>)
    ensures
        edge_views(r@) == edge_views(cross@).filter(frequent(min_edge)),
{
    let ghost all = edge_views(cross@);
    let ghost keep = frequent(min_edge);
    let mut out: Vec<Edge> = Vec::new();
    proof {
        reveal(Seq::filter);
        assert(all.take(0) =~= Seq::<EdgeView>::empty());
        assert(edge_views(out@) =~= all.take(0).filter(keep));
    }
    for i in 0..cross.len()
        invariant
            all == edge_views(cross@),
            keep == frequent(min_edge),
            edge_views(out@) == all.take(i as int).filter(keep),
    {
        proof {
            assert(all.take(i + 1) =~= all.take(i as int).push(all[i as int]));
            all.take(i as int).lemma_filter_push(all[i as int], keep);
        }
        assert(all[i as int] == cross@[i as int]@);
        if cross[i].n >= min_edge {
            let ghost before = out@;
            let e = cross[i].copy();
            out.push(e);
            assert(edge_views(out@) =~= edge_views(before).push(e@));
        }
    }
    assert(all.take(all.len() as int) =~= all);
    out
}

// ---------------------------------------------------------------------------
// What is shown

/// The modules, among the first `n` counted, whose names start with the focus.
pub open spec fn focused_upto(
    focus: Seq<char>,
    counts: Seq<(Seq<char>, u64)>,
    n: nat,
) -> Seq<(Seq<char>, bool)>
    decreases n,
{
    if n == 0 {
        Seq::empty()
    } else {
        let rest = focused_upto(focus, counts, (n - 1) as nat);
        if starts(counts[n - 1].0, focus) {
            put(rest, counts[n - 1].0, true)
        } else {
            rest
        }
    }
}

/// The same with the ends of the first `n` edges that have an end in the focus.
pub open spec fn coupled_upto(
    focus: Seq<char>,
    vis: Seq<(Seq<char>, bool)>,
    cross: Seq<EdgeView>,
    n: nat,
) -> Seq<(Seq<char>, bool)>
    decreases n,
{
    if n == 0 {
        vis
    } else {
        let rest = coupled_upto(focus, vis, cross, (n - 1) as nat);
        let e = cross[n - 1];
        if starts(e.from, focus) || starts(e.to, focus) {
            put(put(rest, e.from, true), e.to, true)
        } else {
            rest
        }
    }
}

/// The modules that are shown: all, or those in the focus and their neighbours.
pub open spec fn visible(
    focus: Seq<char>,
    counts: Seq<(Seq<char>, u64)>,
    cross: Seq<EdgeView>,
) -> Seq<(Seq<char>, bool)> {
    if focus.len() == 0 {
        counts.map_values(|e: (Seq<char>, u64)| (e.0, true))
    } else {
        coupled_upto(focus, focused_upto(focus, counts, counts.len()), cross, cross.len())
    }
}

pub fn visible_modules(focus: &str, counts: &StrMap<u64>, cross: &Vec<Edge>) -> (r: StrMap<bool>)
    requires
        counts.wf(),
    ensures
        r.wf(),
        r@ == visible(focus@, counts@, edge_views(cross@)),
{
    let ghost cv = counts@;
    let ghost es = edge_views(cross@);
    if is_blank(focus) {
        let mut entries: Vec<(String, bool)> = Vec::new();
        for i in 0..counts.entries.len()
            invariant
                cv == counts@,
                entries@.len() == i,
                forall|k: int|
                    0 <= k < i ==> (#[trigger] entries@[k]).0@ == cv[k].0 && entries@[k].1,
        {
            entries.push((copy(counts.entries[i].0.as_str()), true));
        }
        let r = StrMap { entries };
        assert(r@ =~= visible(focus@, cv, es));
        assert forall|i: int, j: int| 0 <= i < j < r@.len() implies crate::text::lex_lt(
            #[trigger] r@[i].0,
            #[trigger] r@[j].0,
        ) by {
            assert(crate::text::lex_lt(cv[i].0, cv[j].0));
        }
        return r;
    }
    let mut vis: StrMap<bool> = StrMap::new();
    for i in 0..counts.entries.len()
        invariant
            cv == counts@,
            vis.wf(),
            vis@ == focused_upto(focus@, cv, i as nat),
    {
        assert(cv[i as int].0 == counts.entries@[i as int].0@);
        if starts_with(counts.entries[i].0.as_str(), focus) {
            vis.insert(counts.entries[i].0.as_str(), true);
        }
    }
    let ghost base = vis@;
    for i in 0..cross.len()
        invariant
            es == edge_views(cross@),
            vis.wf(),
            vis@ == coupled_upto(focus@, base, es, i as nat),
    {
        assert(es[i as int] == cross@[i as int]@);
        if starts_with(cross[i].from.as_str(), focus) || starts_with(cross[i].to.as_str(), focus) {
            vis.insert(cross[i].from.as_str(), true);
            vis.insert(cross[i].to.as_str(), true);
        }
    }
    vis
}

/// One end of an edge, as seen from the other.
pub struct Link {
    pub name: String,
    pub n: u64,
    pub samples: Vec<(String, String)>,
}

/// The values of a [`Link`].
pub struct LinkView {
    pub name: Seq<char>,
    pub n: u64,
    pub samples: Seq<(Seq<char>, Seq<char>)>,
}

impl View for Link {
    type V = LinkView;

    open spec fn view(&self) -> LinkView {
        LinkView { name: self.name@, n: self.n, samples: pair_views(self.samples@) }
    }
}

pub open spec fn link_views(v: Seq<Link>) -> Seq<LinkView> {
    Seq::new(v.len(), |i: int| v[i]@)
}

/// The links of a module among the first `n` edges.
pub open spec fn links_upto(cross: Seq<EdgeView>, m: Seq<char>, out: bool, n: nat) -> Seq<LinkView>
    decreases n,
{
    if n == 0 {
        Seq::empty()
    } else {
        let rest = links_upto(cross, m, out, (n - 1) as nat);
        let e = cross[n - 1];
        if out && e.from == m {
            rest.push(LinkView { name: e.to, n: e.n, samples: e.samples })
        } else if !out && e.to == m {
            rest.push(LinkView { name: e.from, n: e.n, samples: e.samples })
        } else {
            rest
        }
    }
}

pub open spec fn link_keys(v: Seq<LinkView>) -> Seq<KeyView> {
    Seq::new(
        v.len(),
        |i: int|
            KeyView { rank: (u64::MAX - v[i].n) as u64, name: v[i].name, number: 0, at: i as nat },
    )
}

/// The links of a module, the strongest first.
pub open spec fn links(cross: Seq<EdgeView>, m: Seq<char>, out: bool) -> Seq<LinkView> {
    let v = links_upto(cross, m, out, cross.len());
    arranged(v, sort_order(link_keys(v)))
}

fn find_links(cross: &Vec<Edge>, m: &str, out: bool) -> (r: Vec<Link>)
    ensures
        link_views(r@) == links(edge_views(cross@), m@, out),
{
    let ghost es = edge_views(cross@);
    let mut loose: Vec<Link> = Vec::new();
    assert(link_views(loose@) =~= Seq::<LinkView>::empty());
    for i in 0..cross.len()
        invariant
            es == edge_views(cross@),
            link_views(loose@) == links_upto(es, m@, out, i as nat),
    {
        let e = &cross[i];
        assert(es[i as int] == e@);
        let ghost before = loose@;
        if out && same(e.from.as_str(), m) {
            let l = Link { name: copy(e.to.as_str()), n: e.n, samples: copy_pairs(&e.samples) };
            loose.push(l);
            assert(link_views(loose@) =~= link_views(before).push(l@));
        } else if !out && same(e.to.as_str(), m) {
            let l = Link { name: copy(e.from.as_str()), n: e.n, samples: copy_pairs(&e.samples) };
            loose.push(l);
            assert(link_views(loose@) =~= link_views(before).push(l@));
        }
    }
    let ghost v = link_views(loose@);
    let mut keys: Vec<Key> = Vec::new();
    for i in 0..loose.len()
        invariant
            v == link_views(loose@),
            keys@.len() == i,
            forall|k: int|
                0 <= k < i ==> (#[trigger] keys@[k])@ == (KeyView {
                    rank: (u64::MAX - v[k].n) as u64,
                    name: v[k].name,
                    number: 0,
                    at: k as nat,
                }),
    {
        keys.push(
            Key {
                rank: u64::MAX - loose[i].n,
                name: copy(loose[i].name.as_str()),
                number: 0,
                at: i,
            },
        );
    }
    assert(key_views(keys@) =~= link_keys(v));
    assert(positioned(key_views(keys@)));
    let order = sort(keys);
    let mut r: Vec<Link> = Vec::new();
    for i in 0..order.len()
        invariant
            v == link_views(loose@),
            r@.len() == i,
            forall|k: int|
                0 <= k < order@.len() ==> (#[trigger] order@[k] as int) == sort_order(
                    link_keys(v),
                )[k] && order@[k] < loose@.len(),
            forall|k: int| 0 <= k < i ==> (#[trigger] r@[k])@ == v[sort_order(link_keys(v))[k]],
    {
        let p: usize = order[i];
        assert(order@[i as int] as int == sort_order(link_keys(v))[i as int]);
        let l = &loose[p];
        assert(v[p as int] == l@);
        r.push(Link { name: copy(l.name.as_str()), n: l.n, samples: copy_pairs(&l.samples) });
    }
    assert(link_views(r@) =~= links(es, m@, out));
    r
}

/// The calls of the first `n` links together.
pub open spec fn link_sum(v: Seq<LinkView>, n: nat) -> nat
    decreases n,
{
    if n == 0 {
        0
    } else {
        link_sum(v, (n - 1) as nat) + v[n - 1].n as nat
    }
}

/// The calls of all links of a module in one direction, as far as the sum fits.
pub open spec fn edge_sum(cross: Seq<EdgeView>, m: Seq<char>, out: bool) -> u64 {
    capped(link_sum(links(cross, m, out), links(cross, m, out).len()))
}

fn sum_links(v: &Vec<Link>) -> (r: u64)
    ensures
        r == capped(link_sum(link_views(v@), v@.len())),
{
    let mut n: u64 = 0;
    for i in 0..v.len()
        invariant
            n == capped(link_sum(link_views(v@), i as nat)),
    {
        assert(link_views(v@)[i as int] == v@[i as int]@);
        n = count_up(n, v[i].n);
    }
    n
}

pub open spec fn total(cross: Seq<EdgeView>, m: Seq<char>) -> u64 {
    capped(edge_sum(cross, m, true) as nat + edge_sum(cross, m, false) as nat)
}

/// The modules shown, among the first `n` counted.
pub open spec fn shown_upto(
    counts: Seq<(Seq<char>, u64)>,
    vis: Seq<(Seq<char>, bool)>,
    n: nat,
) -> Seq<(Seq<char>, u64)>
    decreases n,
{
    if n == 0 {
        Seq::empty()
    } else {
        let rest = shown_upto(counts, vis, (n - 1) as nat);
        if at(vis, counts[n - 1].0) is Some {
            rest.push(counts[n - 1])
        } else {
            rest
        }
    }
}

pub open spec fn module_keys(v: Seq<(Seq<char>, u64)>, cross: Seq<EdgeView>) -> Seq<KeyView> {
    Seq::new(
        v.len(),
        |i: int|
            KeyView {
                rank: (u64::MAX - total(cross, v[i].0)) as u64,
                name: v[i].0,
                number: 0,
                at: i as nat,
            },
    )
}

/// The modules shown, the most coupled first.
pub open spec fn modules_of(
    counts: Seq<(Seq<char>, u64)>,
    vis: Seq<(Seq<char>, bool)>,
    cross: Seq<EdgeView>,
) -> Seq<(Seq<char>, u64)> {
    let v = shown_upto(counts, vis, counts.len());
    arranged(v, sort_order(module_keys(v, cross)))
}

fn find_modules(counts: &StrMap<u64>, vis: &StrMap<bool>, cross: &Vec<Edge>) -> (r: Vec<
    (String, u64),
>)
    requires
        counts.wf(),
        vis.wf(),
    ensures
        entries_view(r@) == modules_of(counts@, vis@, edge_views(cross@)),
{
    let ghost es = edge_views(cross@);
    let ghost cv = counts@;
    let mut loose: Vec<(String, u64)> = Vec::new();
    assert(entries_view(loose@) =~= Seq::<(Seq<char>, u64)>::empty());
    for i in 0..counts.entries.len()
        invariant
            cv == counts@,
            vis.wf(),
            entries_view(loose@) == shown_upto(cv, vis@, i as nat),
    {
        let e = &counts.entries[i];
        assert(cv[i as int] == (e.0@, e.1));
        if vis.get(e.0.as_str()).is_some() {
            let ghost before = loose@;
            loose.push((copy(e.0.as_str()), e.1));
            assert(entries_view(loose@) =~= entries_view(before).push(cv[i as int]));
        }
    }
    let ghost v = entries_view(loose@);
    let mut keys: Vec<Key> = Vec::new();
    for i in 0..loose.len()
        invariant
            v == entries_view(loose@),
            es == edge_views(cross@),
            keys@.len() == i,
            forall|k: int|
                0 <= k < i ==> (#[trigger] keys@[k])@ == (KeyView {
                    rank: (u64::MAX - total(es, v[k].0)) as u64,
                    name: v[k].0,
                    number: 0,
                    at: k as nat,
                }),
    {
        let m = loose[i].0.as_str();
        assert(v[i as int].0 == m@);
        let a: u64 = sum_links(&find_links(cross, m, true));
        let b: u64 = sum_links(&find_links(cross, m, false));
        keys.push(Key { rank: u64::MAX - count_up(a, b), name: copy(m), number: 0, at: i });
    }
    assert(key_views(keys@) =~= module_keys(v, es));
    assert(positioned(key_views(keys@)));
    let order = sort(keys);
    let mut r: Vec<(String, u64)> = Vec::new();
    for i in 0..order.len()
        invariant
            v == entries_view(loose@),
            r@.len() == i,
            forall|k: int|
                0 <= k < order@.len() ==> (#[trigger] order@[k] as int) == sort_order(
                    module_keys(v, es),
                )[k] && order@[k] < loose@.len(),
            forall|k: int|
                0 <= k < i ==> (#[trigger] r@[k]).0@ == v[sort_order(module_keys(v, es))[k]].0
                    && r@[k].1 == v[sort_order(module_keys(v, es))[k]].1,
    {
        let p: usize = order[i];
        assert(order@[i as int] as int == sort_order(module_keys(v, es))[i as int]);
        r.push((copy(loose[p].0.as_str()), loose[p].1));
    }
    assert(entries_view(r@) =~= modules_of(cv, vis@, es));
    r
}

// ---------------------------------------------------------------------------
// Rendering

/// The first `cap` pairs of a list.
pub open spec fn samples_text(v: Seq<(Seq<char>, Seq<char>)>, cap: nat) -> Seq<char> {
    let some = if v.len() > cap {
        v.take(cap as int)
    } else {
        v
    };
    joined(some.map_values(|p: (Seq<char>, Seq<char>)| p.0 + " → "@ + p.1), ", "@)
}

pub fn format_samples(v: &Vec<(String, String)>, cap: u64) -> (r: String)
    ensures
        r@ == samples_text(pair_views(v@), cap as nat),
{
    let m: usize = if v.len() as u64 > cap {
        cap as usize
    } else {
        v.len()
    };
    let mut some: Vec<String> = Vec::new();
    for i in 0..m
        invariant
            m <= v@.len(),
            some@.len() == i,
            forall|k: int|
                0 <= k < i ==> (#[trigger] some@[k])@ == v@[k].0@ + " → "@ + v@[k].1@,
    {
        let mut t = copy(v[i].0.as_str());
        t.append(" → ");
        t.append(v[i].1.as_str());
        some.push(t);
    }
    let ghost pv = pair_views(v@);
    let ghost want = if pv.len() > cap {
        pv.take(cap as int)
    } else {
        pv
    };
    assert(strs(some@) =~= want.map_values(|p: (Seq<char>, Seq<char>)| p.0 + " → "@ + p.1));
    join(&some, ", ")
}

/// Whether a text does not fit behind another.
pub open spec fn over(out: Seq<char>, more: Seq<char>, budget: nat) -> bool {
    blen(out) / 4 + blen(more) / 4 > budget
}

fn is_over(out: &str, more: &str, budget: u64) -> (r: bool)
    ensures
        r == over(out@, more@, budget as nat),
{
    let a: usize = size(out) / 4;
    let b: usize = size(more) / 4;
    (a + b) as u64 > budget
}

pub open spec fn out_line(l: LinkView) -> Seq<char> {
    "  → "@ + l.name + "/  ("@ + dec(l.n as nat) + " call edge(s))\n"@
}

pub open spec fn in_line(l: LinkView) -> Seq<char> {
    "  ← "@ + l.name + "/  ("@ + dec(l.n as nat) + " call edge(s) in)\n"@
}

pub open spec fn sample_line(l: LinkView, cap: nat) -> Option<Seq<char>> {
    let eg = samples_text(l.samples, cap);
    if cap > 0 && eg.len() > 0 {
        Some("      e.g. "@ + eg + "\n"@)
    } else {
        None
    }
}

/// The outgoing links from `k` on, behind a text, and whether the budget was used
/// up before they were all written.
pub open spec fn out_from(
    out: Seq<char>,
    v: Seq<LinkView>,
    cap: nat,
    budget: nat,
    k: int,
) -> (Seq<char>, bool)
    decreases v.len() - k,
{
    if k < 0 || k >= v.len() || k >= EDGE_CAP {
        (out, false)
    } else if over(out, out_line(v[k]), budget) {
        (out, true)
    } else {
        let t = out + out_line(v[k]);
        match sample_line(v[k], cap) {
            Some(s) => if over(t, s, budget) {
                (t, true)
            } else {
                out_from(t + s, v, cap, budget, k + 1)
            },
            None => out_from(t, v, cap, budget, k + 1),
        }
    }
}

/// The same for incoming links.
pub open spec fn in_from(out: Seq<char>, v: Seq<LinkView>, budget: nat, k: int) -> (Seq<char>, bool)
    decreases v.len() - k,
{
    if k < 0 || k >= v.len() || k >= EDGE_CAP {
        (out, false)
    } else if over(out, in_line(v[k]), budget) {
        (out, true)
    } else {
        in_from(out + in_line(v[k]), v, budget, k + 1)
    }
}

pub open spec fn with_out(out: Seq<char>, v: Seq<LinkView>, cap: nat, budget: nat) -> (
    Seq<char>,
    bool,
) {
    if v.len() == 0 {
        (out + "  (no outgoing cross-module calls)\n"@, false)
    } else {
        let (t, full) = out_from(out, v, cap, budget, 0);
        if !full && v.len() > EDGE_CAP {
            (
                t + "  … (+"@ + dec((v.len() - EDGE_CAP) as nat) + " more outgoing targets)\n"@,
                false,
            )
        } else {
            (t, full)
        }
    }
}

pub open spec fn with_in(out: Seq<char>, v: Seq<LinkView>, budget: nat) -> (Seq<char>, bool) {
    let (t, full) = in_from(out, v, budget, 0);
    if !full && v.len() > EDGE_CAP {
        (t + "  … (+"@ + dec((v.len() - EDGE_CAP) as nat) + " more incoming sources)\n"@, false)
    } else {
        (t, full)
    }
}

fn append_out(out: String, v: &Vec<Link>, cap: u64, budget: u64) -> (r: (String, bool))
    ensures
        (r.0@, r.1) == with_out(out@, link_views(v@), cap as nat, budget as nat),
{
    let ghost lv = link_views(v@);
    let mut t = out;
    if v.len() == 0 {
        t.append("  (no outgoing cross-module calls)\n");
        return (t, false);
    }
    let ghost want = out_from(out@, lv, cap as nat, budget as nat, 0);
    let m: usize = if v.len() > EDGE_CAP {
        EDGE_CAP
    } else {
        v.len()
    };
    for k in 0..m
        invariant
            lv == link_views(v@),
            m <= v@.len(),
            m <= EDGE_CAP,
            v@.len() > 0,
            want == out_from(out@, lv, cap as nat, budget as nat, 0),
            want == out_from(t@, lv, cap as nat, budget as nat, k as int),
    {
        let l = &v[k];
        assert(lv[k as int] == l@);
        let mut line = copy("  → ");
        line.append(l.name.as_str());
        line.append("/  (");
        line.append(decimal(l.n).as_str());
        line.append(" call edge(s))\n");
        if is_over(t.as_str(), line.as_str(), budget) {
            return (t, true);
        }
        t.append(line.as_str());
        if cap > 0 {
            let eg = format_samples(&l.samples, cap);
            if !is_blank(eg.as_str()) {
                let mut s = copy("      e.g. ");
                s.append(eg.as_str());
                s.append("\n");
                if is_over(t.as_str(), s.as_str(), budget) {
                    return (t, true);
                }
                t.append(s.as_str());
            }
        }
    }
    if v.len() > EDGE_CAP {
        t.append("  … (+");
        t.append(decimal((v.len() - EDGE_CAP) as u64).as_str());
        t.append(" more outgoing targets)\n");
    }
    (t, false)
}

fn append_in(out: String, v: &Vec<Link>, budget: u64) -> (r: (String, bool))
    ensures
        (r.0@, r.1) == with_in(out@, link_views(v@), budget as nat),
{
    let ghost lv = link_views(v@);
    let mut t = out;
    let ghost want = in_from(out@, lv, budget as nat, 0);
    let m: usize = if v.len() > EDGE_CAP {
        EDGE_CAP
    } else {
        v.len()
    };
    for k in 0..m
        invariant
            lv == link_views(v@),
            m <= v@.len(),
            m <= EDGE_CAP,
            want == in_from(out@, lv, budget as nat, 0),
            want == in_from(t@, lv, budget as nat, k as int),
    {
        let l = &v[k];
        assert(lv[k as int] == l@);
        let mut line = copy("  ← ");
        line.append(l.name.as_str());
        line.append("/  (");
        line.append(decimal(l.n).as_str());
        line.append(" call edge(s) in)\n");
        if is_over(t.as_str(), line.as_str(), budget) {
            return (t, true);
        }
        t.append(line.as_str());
    }
    if v.len() > EDGE_CAP {
        t.append("  … (+");
        t.append(decimal((v.len() - EDGE_CAP) as u64).as_str());
        t.append(" more incoming sources)\n");
    }
    (t, false)
}

/// What is asked for.
pub struct MapAsk {
    pub depth: Option<u64>,
    pub max: u64,
    pub samples: u64,
    pub min_edge: u64,
    pub focus: String,
    pub budget: u64,
    pub resume_at: u64,
}

/// The values of a [`MapAsk`].
pub struct MapAskView {
    pub depth: Option<u64>,
    pub max: u64,
    pub samples: u64,
    pub min_edge: u64,
    pub focus: Seq<char>,
    pub budget: u64,
    pub resume_at: u64,
}

impl View for MapAsk {
    type V = MapAskView;

    open spec fn view(&self) -> MapAskView {
        MapAskView {
            depth: self.depth,
            max: self.max,
            samples: self.samples,
            min_edge: self.min_edge,
            focus: self.focus@,
            budget: self.budget,
            resume_at: self.resume_at,
        }
    }
}

pub open spec fn one_or_more(n: u64) -> u64 {
    if n > 1 {
        n
    } else {
        1
    }
}

fn at_least_one(n: u64) -> (r: u64)
    ensures
        r == one_or_more(n),
{
    if n > 1 {
        n
    } else {
        1
    }
}

pub open spec fn map_ask_of(args: Json, resume_at: u64) -> MapAskView {
    MapAskView {
        depth: match crate::json::as_u64(crate::json::get(args, "depth"@)) {
            Some(d) => Some(one_or_more(d)),
            None => None,
        },
        max: one_or_more(u64_or(args, "max"@, 40)),
        samples: u64_or(args, "samples"@, 3),
        min_edge: one_or_more(u64_or(args, "min_edge"@, 1)),
        focus: trimmed(str_or(args, "focus"@, ""@)),
        budget: u64_or(args, "token_budget"@, 1200),
        resume_at,
    }
}

pub fn read_map_ask(args: &Datum, resume_at: u64) -> (r: MapAsk)
    ensures
        r@ == map_ask_of(args@, resume_at),
{
    MapAsk {
        depth: match get_u64(args, "depth") {
            Some(d) => Some(at_least_one(d)),
            None => None,
        },
        max: at_least_one(number_or(args, "max", 40)),
        samples: number_or(args, "samples", 3),
        min_edge: at_least_one(number_or(args, "min_edge", 1)),
        focus: trim(string_or(args, "focus", "").as_str()),
        budget: number_or(args, "token_budget", 1200),
        resume_at,
    }
}

pub open spec fn less_than(a: nat, b: nat) -> nat {
    if a >= b {
        (a - b) as nat
    } else {
        0
    }
}

pub open spec fn module_head(m: (Seq<char>, u64), cross: Seq<EdgeView>) -> Seq<char> {
    m.0 + "/  ("@ + dec(m.1 as nat) + " symbols, "@ + dec(edge_sum(cross, m.0, true) as nat)
        + " out / "@ + dec(edge_sum(cross, m.0, false) as nat) + " in)\n"@
}

/// A module with its links, behind a text, and whether the budget was used up.
pub open spec fn with_module(
    out: Seq<char>,
    m: (Seq<char>, u64),
    cross: Seq<EdgeView>,
    a: MapAskView,
) -> (Seq<char>, bool) {
    let t = out + module_head(m, cross);
    let (o, full) = with_out(t, links(cross, m.0, true), a.samples as nat, a.budget as nat);
    let (i, full) = if full {
        (o, true)
    } else {
        with_in(o, links(cross, m.0, false), a.budget as nat)
    };
    (i + "\n"@, full)
}

/// The modules from `k` on, behind a text, and where to go on if the budget was
/// used up.
pub open spec fn modules_from(
    out: Seq<char>,
    ms: Seq<(Seq<char>, u64)>,
    cross: Seq<EdgeView>,
    a: MapAskView,
    visible: nat,
    shown: nat,
    k: int,
) -> (Seq<char>, Option<nat>)
    decreases ms.len() - k,
{
    if k < 0 || k >= ms.len() {
        (out, None)
    } else if shown >= a.max {
        (
            out + "… (+"@ + dec(less_than(visible, k as nat)) + " more modules; raise \"max\")\n"@,
            None,
        )
    } else if over(out, module_head(ms[k], cross), a.budget as nat) && shown > 0 {
        (out, Some(k as nat))
    } else {
        let (t, full) = with_module(out, ms[k], cross, a);
        if full {
            (t, Some((k + 1) as nat))
        } else {
            modules_from(t, ms, cross, a, visible, shown + 1, k + 1)
        }
    }
}

pub open spec fn map_head(
    a: MapAskView,
    paths: Seq<Seq<char>>,
    visible: nat,
    edges: nat,
) -> Seq<char> {
    "module_map - "@ + dec(visible) + " module(s), "@ + dec(edges)
        + " cross-module edge(s)  (roots "@ + listed(paths) + ", "@ + (match a.depth {
        Some(d) => "depth "@ + dec(d as nat),
        None => "full dir"@,
    }) + (if a.focus.len() == 0 {
        ""@
    } else {
        ", focus \""@ + a.focus + "\""@
    }) + ")"@ + (if a.resume_at > 0 {
        " [continuation from module #"@ + dec(a.resume_at as nat) + "]"@
    } else {
        ""@
    }) + "\n\n"@
}

/// The map: its text, where to go on, and how many modules are left there.
pub struct ModuleMap {
    pub text: String,
    pub cut: Option<u64>,
    pub left: u64,
}

/// The values of a [`ModuleMap`].
pub struct ModuleMapView {
    pub text: Seq<char>,
    pub cut: Option<nat>,
    pub left: nat,
}

impl View for ModuleMap {
    type V = ModuleMapView;

    open spec fn view(&self) -> ModuleMapView {
        ModuleMapView {
            text: self.text@,
            cut: match self.cut {
                Some(k) => Some(k as nat),
                None => None,
            },
            left: self.left as nat,
        }
    }
}

/// The map of modules, given the counts and the edges that are shown.
pub open spec fn rendered(
    a: MapAskView,
    paths: Seq<Seq<char>>,
    counts: Seq<(Seq<char>, u64)>,
    cross: Seq<EdgeView>,
) -> ModuleMapView {
    let vis = visible(a.focus, counts, cross);
    let head = map_head(a, paths, vis.len(), cross.len());
    if vis.len() == 0 {
        ModuleMapView { text: head + "(no modules match focus)\n"@, cut: None, left: 0 }
    } else {
        let (text, cut) = modules_from(
            head,
            modules_of(counts, vis, cross),
            cross,
            a,
            vis.len(),
            0,
            a.resume_at as int,
        );
        ModuleMapView {
            text,
            cut,
            left: match cut {
                Some(k) => less_than(vis.len(), k),
                None => 0,
            },
        }
    }
}

/// The map of modules, given where symbols are defined and what calls what.
pub open spec fn map_of(
    a: MapAskView,
    paths: Seq<Seq<char>>,
    sites: Seq<(Seq<char>, Seq<char>)>,
    calls: Seq<(Seq<char>, Seq<Seq<char>>)>,
) -> ModuleMapView {
    let homes = homes_upto(sites, a.depth, sites.len());
    rendered(
        a,
        paths,
        counts_upto(sites, a.depth, sites.len()),
        edges_upto(homes, calls, calls.len()).filter(frequent(a.min_edge)),
    )
}

fn make_map_head(a: &MapAsk, paths: &Vec<String>, visible: u64, edges: u64) -> (r: String)
    ensures
        r@ == map_head(a@, strs(paths@), visible as nat, edges as nat),
{
    let mut t = copy("module_map - ");
    t.append(decimal(visible).as_str());
    t.append(" module(s), ");
    t.append(decimal(edges).as_str());
    t.append(" cross-module edge(s)  (roots ");
    t.append(list_text(paths).as_str());
    t.append(", ");
    let depth: String = match a.depth {
        Some(d) => {
            let mut m = copy("depth ");
            m.append(decimal(d).as_str());
            m
        },
        None => copy("full dir"),
    };
    t.append(depth.as_str());
    let mut focus = copy("");
    if !is_blank(a.focus.as_str()) {
        focus = copy(", focus \"");
        focus.append(a.focus.as_str());
        focus.append("\"");
    }
    t.append(focus.as_str());
    t.append(")");
    let mut note = copy("");
    if a.resume_at > 0 {
        note = copy(" [continuation from module #");
        note.append(decimal(a.resume_at).as_str());
        note.append("]");
    }
    t.append(note.as_str());
    t.append("\n\n");
    t
}

fn make_module_head(m: &(String, u64), out: u64, into: u64) -> (r: String)
    ensures
        r@ == m.0@ + "/  ("@ + dec(m.1 as nat) + " symbols, "@ + dec(out as nat) + " out / "@ + dec(
            into as nat,
        ) + " in)\n"@,
{
    let mut t = copy(m.0.as_str());
    t.append("/  (");
    t.append(decimal(m.1).as_str());
    t.append(" symbols, ");
    t.append(decimal(out).as_str());
    t.append(" out / ");
    t.append(decimal(into).as_str());
    t.append(" in)\n");
    t
}

/// Renders the modules and the edges between them.
pub fn render(
    a: &MapAsk,
    paths: &Vec<String>,
    counts: &StrMap<u64>,
    cross: &Vec<Edge>,
) -> (r: ModuleMap)
    requires
        counts.wf(),
    ensures
        r@ == rendered(a@, strs(paths@), counts@, edge_views(cross@)),
{
    let vis = visible_modules(a.focus.as_str(), counts, cross);
    let ghost es = edge_views(cross@);
    let ghost av = a@;
    let n: u64 = vis.entries.len() as u64;
    assert(vis@.len() == n);
    let mut t = make_map_head(a, paths, n, cross.len() as u64);
    if n == 0 {
        t.append("(no modules match focus)\n");
        return ModuleMap { text: t, cut: None, left: 0 };
    }
    let ms = find_modules(counts, &vis, cross);
    let ghost mv = modules_of(counts@, vis@, es);
    assert(mv.len() == ms@.len());
    let ghost want = modules_from(t@, mv, es, av, n as nat, 0, a.resume_at as int);
    let ghost full_want = rendered(av, strs(paths@), counts@, es);
    let mut shown: u64 = 0;
    let mut k: u64 = a.resume_at;
    while k < ms.len() as u64
        invariant
            av == a@,
            es == edge_views(cross@),
            mv == entries_view(ms@),
            shown <= k,
            want == modules_from(t@, mv, es, av, n as nat, shown as nat, k as int),
            full_want == rendered(a@, strs(paths@), counts@, edge_views(cross@)),
            full_want == (ModuleMapView {
                text: want.0,
                cut: want.1,
                left: match want.1 {
                    Some(c) => less_than(n as nat, c),
                    None => 0,
                },
            }),
        decreases ms@.len() - k,
    {
        let m = &ms[k as usize];
        assert(mv[k as int] == (m.0@, m.1));
        if shown >= a.max {
            t.append("… (+");
            t.append(
                decimal(
                    if n >= k {
                        n - k
                    } else {
                        0
                    },
                ).as_str(),
            );
            t.append(" more modules; raise \"max\")\n");
            return ModuleMap { text: t, cut: None, left: 0 };
        }
        let outs = find_links(cross, m.0.as_str(), true);
        let ins = find_links(cross, m.0.as_str(), false);
        assert(link_views(outs@).len() == outs@.len());
        assert(link_views(ins@).len() == ins@.len());
        let head = make_module_head(m, sum_links(&outs), sum_links(&ins));
        assert(head@ == module_head(mv[k as int], es));
        if is_over(t.as_str(), head.as_str(), a.budget) && shown > 0 {
            return ModuleMap {
                text: t,
                cut: Some(k),
                left: if n >= k {
                    n - k
                } else {
                    0
                },
            };
        }
        t.append(head.as_str());
        let (o, full) = append_out(t, &outs, a.samples, a.budget);
        let (o, full) = if full {
            (o, true)
        } else {
            append_in(o, &ins, a.budget)
        };
        t = o;
        t.append("\n");
        if full {
            return ModuleMap {
                text: t,
                cut: Some(k + 1),
                left: if n >= k + 1 {
                    n - (k + 1)
                } else {
                    0
                },
            };
        }
        shown = shown + 1;
        k = k + 1;
    }
    ModuleMap { text: t, cut: None, left: 0 }
}

/// Builds the map of modules.
pub fn build(a: &MapAsk, paths: &Vec<String>, sites: &Vec<Site>, calls: &Vec<Calls>) -> (r:
    ModuleMap)
    ensures
        r@ == map_of(a@, strs(paths@), site_views(sites@), calls_views(calls@)),
{
    let (counts, homes) = place_sites(sites, a.depth);
    let es = find_edges(&homes, calls);
    let cross = filter_cross(&es, a.min_edge);
    render(a, paths, &counts, &cross)
}

// ---------------------------------------------------------------------------
// Laws

/// No edge leads from a module to itself, and each pair of modules has one edge.
pub proof fn law_edges_cross_modules(
    homes: Seq<(Seq<char>, Seq<char>)>,
    calls: Seq<(Seq<char>, Seq<Seq<char>>)>,
    n: nat,
)
    requires
        n <= calls.len(),
    ensures
        crossing(edges_upto(homes, calls, n)),
    decreases n,
{
    if n > 0 {
        law_edges_cross_modules(homes, calls, (n - 1) as nat);
        lemma_calls_cross(
            edges_upto(homes, calls, (n - 1) as nat),
            homes,
            calls[n - 1].0,
            calls[n - 1].1,
            calls[n - 1].1.len(),
        );
    }
}

/// Edges between different modules, one for each pair, with few examples each.
pub open spec fn crossing(es: Seq<EdgeView>) -> bool {
    &&& forall|i: int|
        0 <= i < es.len() ==> (#[trigger] es[i]).from != es[i].to && es[i].samples.len()
            <= SAMPLE_CAP
    &&& forall|i: int, j: int|
        0 <= i < j < es.len() ==> !((#[trigger] es[i]).from == (#[trigger] es[j]).from && es[i].to
            == es[j].to)
}

proof fn lemma_edge_from(es: Seq<EdgeView>, from: Seq<char>, to: Seq<char>, k: int)
    requires
        0 <= k,
    ensures
        match edge_from(es, from, to, k) {
            Some(p) => k <= p < es.len() && es[p].from == from && es[p].to == to,
            None => forall|i: int|
                k <= i < es.len() ==> !((#[trigger] es[i]).from == from && es[i].to == to),
        },
    decreases es.len() - k,
{
    if k < es.len() && !(es[k].from == from && es[k].to == to) {
        lemma_edge_from(es, from, to, k + 1);
    }
}

proof fn lemma_calls_cross(
    es: Seq<EdgeView>,
    homes: Seq<(Seq<char>, Seq<char>)>,
    caller: Seq<char>,
    callees: Seq<Seq<char>>,
    m: nat,
)
    requires
        crossing(es),
        m <= callees.len(),
    ensures
        crossing(with_calls(es, homes, caller, callees, m)),
    decreases m,
{
    if m > 0 {
        lemma_calls_cross(es, homes, caller, callees, (m - 1) as nat);
        let rest = with_calls(es, homes, caller, callees, (m - 1) as nat);
        if let (Some(from), Some(to)) = (at(homes, caller), at(homes, callees[m - 1])) {
            lemma_edge_from(rest, from, to, 0);
        }
    }
}

/// A map that was cut goes on behind the module with which the work started.
pub proof fn law_map_goes_on(
    a: MapAskView,
    paths: Seq<Seq<char>>,
    counts: Seq<(Seq<char>, u64)>,
    cross: Seq<EdgeView>,
)
    ensures
        rendered(a, paths, counts, cross).cut matches Some(k) ==> a.resume_at < k,
{
    let vis = visible(a.focus, counts, cross);
    lemma_goes_on(
        map_head(a, paths, vis.len(), cross.len()),
        modules_of(counts, vis, cross),
        cross,
        a,
        vis.len(),
        0,
        a.resume_at as int,
    );
}

proof fn lemma_goes_on(
    out: Seq<char>,
    ms: Seq<(Seq<char>, u64)>,
    cross: Seq<EdgeView>,
    a: MapAskView,
    visible: nat,
    shown: nat,
    k: int,
)
    requires
        k == a.resume_at + shown,
    ensures
        modules_from(out, ms, cross, a, visible, shown, k).1 matches Some(c) ==> a.resume_at < c,
    decreases ms.len() - k,
{
    if 0 <= k < ms.len() && shown < a.max && !(over(out, module_head(ms[k], cross), a.budget as nat)
        && shown > 0) {
        let (t, full) = with_module(out, ms[k], cross, a);
        if !full {
            lemma_goes_on(t, ms, cross, a, visible, shown + 1, k + 1);
        }
    }
}

} // verus!

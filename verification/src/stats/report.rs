//! The report on tool calls: a table, signals for improvement, and the same as a
//! document.
use vstd::prelude::*;
use crate::args::{optional_str, text_at};
use crate::izakaya::replay::arranged;
use crate::json::{add_member, bool_or, build, flag_or, json_opt_str, json_opt_u64, json_pretty, members};
use crate::json::{no_members, object, opt_str_value, opt_u64_value, pretty, record, serde_held, str_or};
use crate::json::{str_value, string_or, Datum, Json};
use crate::order::{key_views, positioned, sort, sort_order, Key, KeyView};
use crate::smap::{at, StrMap};
use crate::stats::figures::{age, commafy, count_text, elapsed, pct_precise, percent_text, percentile};
use crate::stats::figures::percentile_us;
use crate::stats::{event_views, less_by, mean_ms, net_negative, is_net_negative, registry_of, ring, saved};
use crate::stats::{tool_to_value, tools_json, workspace_of, Event, EventView, Store, StoreView, Tool};
use crate::text::{copy, dec, decimal, is_blank, join, joined, opt_text, pad_left, pad_right};
use crate::text::{padded_left, padded_right, same, strs};

verus! {

/// Tools with a mean duration from this on are slow.
pub const SLOW_MS_FLOOR: u64 = 50;

pub const TRUNC_RATE_PCT: u64 = 15;

pub const ERROR_RATE_PCT: u64 = 10;

pub const ERROR_MIN_CALLS: u64 = 5;

pub type Counters = Seq<(Seq<char>, Tool)>;

// ---------------------------------------------------------------------------
// Totals

/// The calls, the baselines and the answers of the first `n` tools.
pub open spec fn totals(tools: Counters, n: nat) -> (nat, nat, nat)
    decreases n,
{
    if n == 0 {
        (0, 0, 0)
    } else {
        let (c, b, r) = totals(tools, (n - 1) as nat);
        let t = tools[n - 1].1;
        (c + t.calls as nat, b + t.baseline_tokens as nat, r + t.returned_tokens as nat)
    }
}

/// Whether the totals fit into 64 bits.
pub open spec fn totals_fit(tools: Counters) -> bool {
    let (c, b, r) = totals(tools, tools.len());
    c <= u64::MAX && b <= u64::MAX && r <= u64::MAX
}

fn sum_up(tools: &StrMap<Tool>) -> (r: Option<(u64, u64, u64)>)
    ensures
        match r {
            Some((c, b, t)) => totals_fit(tools@) && totals(tools@, tools@.len()) == (
                c as nat,
                b as nat,
                t as nat,
            ),
            None => !totals_fit(tools@),
        },
{
    let ghost all = tools@;
    let mut c: u128 = 0;
    let mut b: u128 = 0;
    let mut t: u128 = 0;
    assert(all.len() == tools.entries@.len());
    for i in 0..tools.entries.len()
        invariant
            all == tools@,
            all.len() == tools.entries@.len(),
            totals(all, i as nat) == (c as nat, b as nat, t as nat),
            c <= i * u64::MAX,
            b <= i * u64::MAX,
            t <= i * u64::MAX,
    {
        assert(tools.entries@.len() == tools.entries.len());
        assert(all[i as int].1 == tools.entries@[i as int].1);
        assert((i + 1) * u64::MAX == i * u64::MAX + u64::MAX) by (nonlinear_arith);
        assert((i + 1) * u64::MAX <= u128::MAX) by (nonlinear_arith)
            requires
                i + 1 <= u64::MAX,
        ;
        c = c + tools.entries[i].1.calls as u128;
        b = b + tools.entries[i].1.baseline_tokens as u128;
        t = t + tools.entries[i].1.returned_tokens as u128;
    }
    let top: u128 = u64::MAX as u128;
    if c <= top && b <= top && t <= top {
        Some((c as u64, b as u64, t as u64))
    } else {
        None
    }
}

pub fn do_totals_fit(tools: &StrMap<Tool>) -> (r: bool)
    ensures
        r == totals_fit(tools@),
{
    sum_up(tools).is_some()
}

// ---------------------------------------------------------------------------
// The table

/// A row of the table.
pub open spec fn row(name: Seq<char>, t: Tool) -> Seq<char> {
    let avoided = less_by(t.baseline_tokens, t.returned_tokens);
    "  "@ + padded_right(name, 16) + " "@ + padded_left(dec(t.calls as nat), 5) + " "@
        + padded_left(dec(mean_ms(t) as nat), 8) + " "@ + padded_left(dec(t.trunc_count as nat), 5)
        + " "@ + padded_left(dec(t.error_count as nat), 4) + " "@ + padded_left(
        count_text(t.baseline_tokens),
        11,
    ) + " "@ + padded_left(count_text(t.returned_tokens), 11) + " "@ + padded_left(
        count_text(avoided),
        11,
    ) + " "@ + padded_left(percent_text(avoided, t.baseline_tokens), 5) + "%\n"@
}

fn write_row(name: &str, t: &Tool) -> (r: String)
    ensures
        r@ == row(name@, *t),
{
    let avoided: u64 = saved(t.baseline_tokens, t.returned_tokens);
    let mut s = copy("  ");
    s.append(pad_right(name, 16).as_str());
    s.append(" ");
    s.append(pad_left(decimal(t.calls).as_str(), 5).as_str());
    s.append(" ");
    s.append(pad_left(decimal(t.avg_ms()).as_str(), 8).as_str());
    s.append(" ");
    s.append(pad_left(decimal(t.trunc_count).as_str(), 5).as_str());
    s.append(" ");
    s.append(pad_left(decimal(t.error_count).as_str(), 4).as_str());
    s.append(" ");
    s.append(pad_left(commafy(t.baseline_tokens).as_str(), 11).as_str());
    s.append(" ");
    s.append(pad_left(commafy(t.returned_tokens).as_str(), 11).as_str());
    s.append(" ");
    s.append(pad_left(commafy(avoided).as_str(), 11).as_str());
    s.append(" ");
    s.append(pad_left(pct_precise(avoided, t.baseline_tokens).as_str(), 5).as_str());
    s.append("%\n");
    s
}

pub open spec fn rows(tools: Counters, n: nat) -> Seq<char>
    decreases n,
{
    if n == 0 {
        ""@
    } else {
        rows(tools, (n - 1) as nat) + row(tools[n - 1].0, tools[n - 1].1)
    }
}

/// The row of totals.
pub open spec fn total_row(tools: Counters) -> Seq<char> {
    let (c, b, r) = totals(tools, tools.len());
    let avoided = less_by(b as u64, r as u64);
    "  "@ + padded_right("TOTAL"@, 16) + " "@ + padded_left(dec(c), 5) + " "@ + padded_left(
        "-"@,
        8,
    ) + " "@ + padded_left("-"@, 5) + " "@ + padded_left("-"@, 4) + " "@ + padded_left(
        count_text(b as u64),
        11,
    ) + " "@ + padded_left(count_text(r as u64), 11) + " "@ + padded_left(count_text(avoided), 11)
        + " "@ + padded_left(percent_text(avoided, b as u64), 5) + "%\n"@
}

/// The heads of the columns.
pub open spec fn column_heads() -> Seq<char> {
    "  tool             calls   avg ms trunc  err   distilled    returned     avoided  red%\n"@
}

pub open spec fn legend() -> Seq<char> {
    "\n(distilled = est. tokens to read raw material; returned = tokens emitted;\navoided = estimated context avoided; avg ms = mean wall time; trunc/err = outcome counts; ~4 chars/token.)"@
}

/// The table of all tools.
pub open spec fn table(since: u64, now: u64, tools: Counters) -> Seq<char> {
    if tools.len() == 0 {
        "wordkeep estimated context avoided - no tool calls recorded yet."@
    } else {
        "wordkeep estimated context avoided - tracking since "@ + age(since, now) + "\n\n"@
            + column_heads() + rows(tools, tools.len()) + total_row(tools) + legend()
    }
}

fn write_total(c: u64, b: u64, r: u64) -> (s: String)
    ensures
        s@ == ({
            let avoided = less_by(b, r);
            "  "@ + padded_right("TOTAL"@, 16) + " "@ + padded_left(dec(c as nat), 5) + " "@
                + padded_left("-"@, 8) + " "@ + padded_left("-"@, 5) + " "@ + padded_left("-"@, 4)
                + " "@ + padded_left(count_text(b), 11) + " "@ + padded_left(count_text(r), 11)
                + " "@ + padded_left(count_text(avoided), 11) + " "@ + padded_left(
                percent_text(avoided, b),
                5,
            ) + "%\n"@
        }),
{
    let avoided: u64 = saved(b, r);
    let mut s = copy("  ");
    s.append(pad_right("TOTAL", 16).as_str());
    s.append(" ");
    s.append(pad_left(decimal(c).as_str(), 5).as_str());
    s.append(" ");
    s.append(pad_left("-", 8).as_str());
    s.append(" ");
    s.append(pad_left("-", 5).as_str());
    s.append(" ");
    s.append(pad_left("-", 4).as_str());
    s.append(" ");
    s.append(pad_left(commafy(b).as_str(), 11).as_str());
    s.append(" ");
    s.append(pad_left(commafy(r).as_str(), 11).as_str());
    s.append(" ");
    s.append(pad_left(commafy(avoided).as_str(), 11).as_str());
    s.append(" ");
    s.append(pad_left(pct_precise(avoided, b).as_str(), 5).as_str());
    s.append("%\n");
    s
}

pub fn render(since: u64, now: u64, tools: &StrMap<Tool>) -> (r: String)
    requires
        totals_fit(tools@),
    ensures
        r@ == table(since, now, tools@),
{
    let ghost all = tools@;
    assert(all.len() == tools.entries@.len());
    if tools.entries.len() == 0 {
        return copy("wordkeep estimated context avoided - no tool calls recorded yet.");
    }
    let mut list = copy("");
    for i in 0..tools.entries.len()
        invariant
            all == tools@,
            list@ == rows(all, i as nat),
    {
        assert(all[i as int] == (tools.entries@[i as int].0@, tools.entries@[i as int].1));
        list.append(
            write_row(tools.entries[i].0.as_str(), &tools.entries[i].1).as_str(),
        );
    }
    let (c, b, t): (u64, u64, u64) = match sum_up(tools) {
        Some(x) => x,
        None => (0, 0, 0),
    };
    let mut out = copy("wordkeep estimated context avoided - tracking since ");
    out.append(elapsed(since, now).as_str());
    out.append("\n\n");
    out.append(
        "  tool             calls   avg ms trunc  err   distilled    returned     avoided  red%\n",
    );
    out.append(list.as_str());
    out.append(write_total(c, b, t).as_str());
    out.append(
        "\n(distilled = est. tokens to read raw material; returned = tokens emitted;\navoided = estimated context avoided; avg ms = mean wall time; trunc/err = outcome counts; ~4 chars/token.)",
    );
    out
}

// ---------------------------------------------------------------------------
// Signals

/// Whether a count is at least `pct` percent of the calls.
pub open spec fn rate_from(count: u64, calls: u64, pct: u64) -> bool {
    count * 100 / calls as int >= pct
}

fn is_rate_from(count: u64, calls: u64, pct: u64) -> (r: bool)
    requires
        calls > 0,
    ensures
        r == rate_from(count, calls, pct),
{
    (count as u128 * 100) / (calls as u128) >= pct as u128
}

/// Patterns that a tool can show.
#[derive(Clone, Copy, PartialEq, Eq, Structural)]
pub enum Sign {
    Slow,
    Truncates,
    Fails,
    Invalid,
    NotFound,
    NetNegative,
}

pub open spec fn shows(t: Tool, s: Sign) -> bool {
    match s {
        Sign::Slow => t.calls > 0 && mean_ms(t) >= SLOW_MS_FLOOR,
        Sign::Truncates => t.calls > 0 && t.trunc_count > 0 && rate_from(
            t.trunc_count,
            t.calls,
            TRUNC_RATE_PCT,
        ),
        Sign::Fails => t.calls >= ERROR_MIN_CALLS && rate_from(
            t.error_count,
            t.calls,
            ERROR_RATE_PCT,
        ),
        Sign::Invalid => t.calls >= ERROR_MIN_CALLS && rate_from(
            t.invalid_count,
            t.calls,
            ERROR_RATE_PCT,
        ),
        Sign::NotFound => t.calls >= ERROR_MIN_CALLS && rate_from(
            t.not_found_count,
            t.calls,
            ERROR_RATE_PCT,
        ),
        Sign::NetNegative => net_negative(t.baseline_tokens, t.returned_tokens),
    }
}

fn does_show(t: &Tool, s: Sign) -> (r: bool)
    ensures
        r == shows(*t, s),
{
    match s {
        Sign::Slow => t.calls > 0 && t.avg_ms() >= SLOW_MS_FLOOR,
        Sign::Truncates => t.calls > 0 && t.trunc_count > 0 && is_rate_from(
            t.trunc_count,
            t.calls,
            TRUNC_RATE_PCT,
        ),
        Sign::Fails => t.calls >= ERROR_MIN_CALLS && is_rate_from(
            t.error_count,
            t.calls,
            ERROR_RATE_PCT,
        ),
        Sign::Invalid => t.calls >= ERROR_MIN_CALLS && is_rate_from(
            t.invalid_count,
            t.calls,
            ERROR_RATE_PCT,
        ),
        Sign::NotFound => t.calls >= ERROR_MIN_CALLS && is_rate_from(
            t.not_found_count,
            t.calls,
            ERROR_RATE_PCT,
        ),
        Sign::NetNegative => is_net_negative(t.baseline_tokens, t.returned_tokens),
    }
}

/// Which of the first `n` tools show a pattern.
pub open spec fn showing(tools: Counters, s: Sign, n: nat) -> Seq<int>
    decreases n,
{
    if n == 0 {
        Seq::empty()
    } else {
        let before = showing(tools, s, (n - 1) as nat);
        if shows(tools[n - 1].1, s) {
            before.push(n - 1)
        } else {
            before
        }
    }
}

pub open spec fn places(v: Seq<usize>) -> Seq<int> {
    v.map_values(|i: usize| i as int)
}

fn find_showing(tools: &StrMap<Tool>, s: Sign) -> (r: Vec<usize>)
    ensures
        places(r@) == showing(tools@, s, tools@.len()),
        forall|i: int| 0 <= i < r@.len() ==> #[trigger] r@[i] < tools.entries@.len(),
{
    let ghost all = tools@;
    assert(all.len() == tools.entries@.len());
    let mut out: Vec<usize> = Vec::new();
    assert(places(out@) =~= Seq::<int>::empty());
    for i in 0..tools.entries.len()
        invariant
            all == tools@,
            places(out@) == showing(all, s, i as nat),
            forall|k: int| 0 <= k < out@.len() ==> #[trigger] out@[k] < i,
    {
        assert(all[i as int].1 == tools.entries@[i as int].1);
        if does_show(&tools.entries[i].1, s) {
            let ghost before = out@;
            out.push(i);
            assert(places(out@) =~= places(before).push(i as int));
        }
    }
    out
}

/// How strongly a tool shows a pattern by which tools are ranked.
pub open spec fn strength(t: Tool, s: Sign) -> int {
    match s {
        Sign::Truncates => t.trunc_count * 100 / t.calls as int,
        _ => mean_ms(t) as int,
    }
}

/// The strength within 64 bits.
pub open spec fn weight(t: Tool, s: Sign) -> u64 {
    if strength(t, s) > u64::MAX {
        u64::MAX
    } else {
        strength(t, s) as u64
    }
}

fn find_weight(t: &Tool, s: Sign) -> (r: u64)
    requires
        t.calls > 0,
    ensures
        r == weight(*t, s),
{
    match s {
        Sign::Truncates => {
            let n: u128 = (t.trunc_count as u128 * 100) / (t.calls as u128);
            if n > u64::MAX as u128 {
                u64::MAX
            } else {
                n as u64
            }
        },
        _ => t.avg_ms(),
    }
}

pub open spec fn sign_keys(tools: Counters, s: Sign, found: Seq<int>) -> Seq<KeyView> {
    Seq::new(
        found.len(),
        |i: int|
            KeyView {
                rank: (u64::MAX - weight(tools[found[i]].1, s)) as u64,
                name: tools[found[i]].0,
                number: 0,
                at: i as nat,
            },
    )
}

/// The tools that show a pattern, those that show it most first.
pub open spec fn ranked(tools: Counters, s: Sign) -> Seq<int> {
    let found = showing(tools, s, tools.len());
    arranged(found, sort_order(sign_keys(tools, s, found)))
}

fn rank(tools: &StrMap<Tool>, s: Sign) -> (r: Vec<usize>)
    requires
        s == Sign::Slow || s == Sign::Truncates,
    ensures
        places(r@) == ranked(tools@, s),
        forall|i: int| 0 <= i < r@.len() ==> #[trigger] r@[i] < tools.entries@.len(),
{
    let ghost all = tools@;
    let found = find_showing(tools, s);
    let ghost fv = places(found@);
    let ghost ks = sign_keys(all, s, fv);
    proof {
        lemma_showing(all, s, all.len());
    }
    let mut keys: Vec<Key> = Vec::new();
    for i in 0..found.len()
        invariant
            s == Sign::Slow || s == Sign::Truncates,
            all == tools@,
            fv == places(found@),
            ks == sign_keys(all, s, fv),
            forall|k: int| 0 <= k < found@.len() ==> #[trigger] found@[k] < tools.entries@.len(),
            forall|k: int| 0 <= k < fv.len() ==> shows(all[#[trigger] fv[k]].1, s),
            keys@.len() == i,
            forall|k: int| 0 <= k < i ==> (#[trigger] keys@[k])@ == ks[k],
    {
        let p: usize = found[i];
        assert(fv[i as int] == p);
        assert(all[p as int] == (tools.entries@[p as int].0@, tools.entries@[p as int].1));
        assert(shows(all[fv[i as int]].1, s));
        let w: u64 = find_weight(&tools.entries[p].1, s);
        keys.push(
            Key { rank: u64::MAX - w, name: copy(tools.entries[p].0.as_str()), number: 0, at: i },
        );
    }
    assert(key_views(keys@) =~= ks);
    assert(positioned(key_views(keys@)));
    let order = sort(keys);
    let mut out: Vec<usize> = Vec::new();
    for i in 0..order.len()
        invariant
            fv == places(found@),
            forall|k: int| 0 <= k < found@.len() ==> #[trigger] found@[k] < tools.entries@.len(),
            out@.len() == i,
            forall|k: int|
                0 <= k < order@.len() ==> (#[trigger] order@[k] as int) == sort_order(ks)[k]
                    && order@[k] < found@.len(),
            forall|k: int| 0 <= k < i ==> (#[trigger] out@[k]) as int == fv[sort_order(ks)[k]],
            forall|k: int| 0 <= k < i ==> #[trigger] out@[k] < tools.entries@.len(),
    {
        let p: usize = order[i];
        assert(order@[i as int] as int == sort_order(ks)[i as int]);
        assert(fv[p as int] == found@[p as int]);
        out.push(found[p]);
    }
    assert(places(out@) =~= ranked(all, s));
    out
}

proof fn lemma_showing(tools: Counters, s: Sign, n: nat)
    requires
        n <= tools.len(),
    ensures
        forall|i: int|
            0 <= i < showing(tools, s, n).len() ==> 0 <= #[trigger] showing(tools, s, n)[i] < n
                && shows(tools[showing(tools, s, n)[i]].1, s),
    decreases n,
{
    if n > 0 {
        lemma_showing(tools, s, (n - 1) as nat);
        let before = showing(tools, s, (n - 1) as nat);
        let now = showing(tools, s, n);
        assert forall|i: int| 0 <= i < now.len() implies 0 <= #[trigger] now[i] < n && shows(
            tools[now[i]].1,
            s,
        ) by {
            if i < before.len() {
                assert(now[i] == before[i]);
            }
        }
    }
}

/// The tools behind the slowest.
pub open spec fn also_slow(tools: Counters, order: Seq<int>, n: nat) -> Seq<char>
    decreases n,
{
    if n <= 1 {
        ""@
    } else {
        also_slow(tools, order, (n - 1) as nat) + ("  also slow: "@ + tools[order[n - 1]].0 + " ("@
            + dec(mean_ms(tools[order[n - 1]].1) as nat) + "ms avg)\n"@)
    }
}

pub open spec fn slow_lines(tools: Counters) -> Seq<char> {
    let order = ranked(tools, Sign::Slow);
    if order.len() == 0 {
        ""@
    } else {
        "slowest (avg ms): "@ + tools[order[0]].0 + " ("@ + dec(mean_ms(tools[order[0]].1) as nat)
            + "ms avg)\n"@ + also_slow(
            tools,
            order,
            if order.len() < 3 {
                order.len()
            } else {
                3
            },
        )
    }
}

fn write_slow(tools: &StrMap<Tool>) -> (r: String)
    ensures
        r@ == slow_lines(tools@),
{
    let ghost all = tools@;
    let order = rank(tools, Sign::Slow);
    let ghost ov = places(order@);
    assert(ov.len() == order@.len());
    if order.len() == 0 {
        return copy("");
    }
    let p: usize = order[0];
    assert(ov[0] == p);
    assert(order@[0] < tools.entries@.len());
    assert(all[p as int] == (tools.entries@[p as int].0@, tools.entries@[p as int].1));
    let mut out = copy("slowest (avg ms): ");
    out.append(tools.entries[p].0.as_str());
    out.append(" (");
    out.append(decimal(tools.entries[p].1.avg_ms()).as_str());
    out.append("ms avg)\n");
    let n: usize = if order.len() < 3 {
        order.len()
    } else {
        3
    };
    let mut more = copy("");
    for i in 1..n
        invariant
            1 <= n <= order@.len(),
            all == tools@,
            ov == places(order@),
            forall|k: int| 0 <= k < order@.len() ==> #[trigger] order@[k] < tools.entries@.len(),
            more@ == also_slow(all, ov, i as nat),
    {
        let q: usize = order[i];
        assert(ov[i as int] == q);
        assert(all[q as int] == (tools.entries@[q as int].0@, tools.entries@[q as int].1));
        let mut line = copy("  also slow: ");
        line.append(tools.entries[q].0.as_str());
        line.append(" (");
        line.append(decimal(tools.entries[q].1.avg_ms()).as_str());
        line.append("ms avg)\n");
        more.append(line.as_str());
    }
    out.append(more.as_str());
    out
}

pub open spec fn trunc_line(tools: Counters) -> Seq<char> {
    let order = ranked(tools, Sign::Truncates);
    if order.len() == 0 {
        ""@
    } else {
        let (name, t) = tools[order[0]];
        "high truncation: "@ + name + " ("@ + dec(t.trunc_count as nat) + "/"@ + dec(
            t.calls as nat,
        ) + " calls - raise token_budget or max)\n"@
    }
}

fn write_trunc(tools: &StrMap<Tool>) -> (r: String)
    ensures
        r@ == trunc_line(tools@),
{
    let ghost all = tools@;
    let order = rank(tools, Sign::Truncates);
    let ghost ov = places(order@);
    assert(ov.len() == order@.len());
    if order.len() == 0 {
        return copy("");
    }
    let p: usize = order[0];
    assert(ov[0] == p);
    assert(order@[0] < tools.entries@.len());
    assert(all[p as int] == (tools.entries@[p as int].0@, tools.entries@[p as int].1));
    let mut out = copy("high truncation: ");
    out.append(tools.entries[p].0.as_str());
    out.append(" (");
    out.append(decimal(tools.entries[p].1.trunc_count).as_str());
    out.append("/");
    out.append(decimal(tools.entries[p].1.calls).as_str());
    out.append(" calls - raise token_budget or max)\n");
    out
}

pub open spec fn names_at(tools: Counters, found: Seq<int>) -> Seq<Seq<char>> {
    found.map_values(|i: int| tools[i].0)
}

/// A line with the tools that show a pattern, if any does.
pub open spec fn list_line(label: Seq<char>, names: Seq<Seq<char>>) -> Seq<char> {
    if names.len() == 0 {
        ""@
    } else {
        label + ": "@ + joined(names, ", "@) + "\n"@
    }
}

pub open spec fn sign_line(tools: Counters, s: Sign, label: Seq<char>) -> Seq<char> {
    list_line(label, names_at(tools, showing(tools, s, tools.len())))
}

fn write_list(label: &str, names: &Vec<String>) -> (r: String)
    ensures
        r@ == list_line(label@, strs(names@)),
{
    assert(strs(names@).len() == names@.len());
    if names.len() == 0 {
        return copy("");
    }
    let mut out = copy(label);
    out.append(": ");
    out.append(join(names, ", ").as_str());
    out.append("\n");
    out
}

fn write_sign(tools: &StrMap<Tool>, s: Sign, label: &str) -> (r: String)
    ensures
        r@ == sign_line(tools@, s, label@),
{
    let ghost all = tools@;
    let found = find_showing(tools, s);
    let ghost fv = places(found@);
    let mut names: Vec<String> = Vec::new();
    for i in 0..found.len()
        invariant
            all == tools@,
            fv == places(found@),
            forall|k: int| 0 <= k < found@.len() ==> #[trigger] found@[k] < tools.entries@.len(),
            names@.len() == i,
            forall|k: int| 0 <= k < i ==> (#[trigger] names@[k])@ == all[fv[k]].0,
    {
        let p: usize = found[i];
        assert(fv[i as int] == p);
        assert(all[p as int].0 == tools.entries@[p as int].0@);
        names.push(copy(tools.entries[p].0.as_str()));
    }
    assert(strs(names@) =~= names_at(all, fv));
    write_list(label, &names)
}

/// The first `n` tools on offer that were never called.
pub open spec fn never_called(tools: Counters, reg: Seq<Seq<char>>, n: nat) -> Seq<Seq<char>>
    decreases n,
{
    if n == 0 {
        Seq::empty()
    } else {
        let before = never_called(tools, reg, (n - 1) as nat);
        if at(tools, reg[n - 1]) is None {
            before.push(reg[n - 1])
        } else {
            before
        }
    }
}

fn find_never_called(tools: &StrMap<Tool>, reg: &Vec<String>) -> (r: Vec<String>)
    ensures
        strs(r@) == never_called(tools@, strs(reg@), reg@.len()),
{
    let ghost rv = strs(reg@);
    let mut out: Vec<String> = Vec::new();
    assert(strs(out@) =~= Seq::<Seq<char>>::empty());
    for i in 0..reg.len()
        invariant
            rv == strs(reg@),
            strs(out@) == never_called(tools@, rv, i as nat),
    {
        assert(rv[i as int] == reg@[i as int]@);
        if tools.get(reg[i].as_str()).is_none() {
            let ghost before = out@;
            out.push(copy(reg[i].as_str()));
            assert(strs(out@) =~= strs(before).push(rv[i as int]));
        }
    }
    out
}

pub open spec fn signals(tools: Counters, reg: Seq<Seq<char>>) -> Seq<char> {
    slow_lines(tools) + trunc_line(tools) + sign_line(tools, Sign::Fails, "error-prone"@)
        + sign_line(tools, Sign::Invalid, "invalid-prone"@) + sign_line(
        tools,
        Sign::NotFound,
        "not-found-prone"@,
    ) + sign_line(tools, Sign::NetNegative, "net-negative (returned ≥ distilled)"@) + list_line(
        "never called"@,
        never_called(tools, reg, reg.len()),
    )
}

/// What could be improved, if anything.
pub open spec fn insights(tools: Counters, reg: Seq<Seq<char>>) -> Seq<char> {
    if tools.len() == 0 || signals(tools, reg).len() == 0 {
        ""@
    } else {
        "\n--- improvement signals ---\n"@ + signals(tools, reg)
    }
}

pub fn render_insights(tools: &StrMap<Tool>, registry: &Vec<String>) -> (r: String)
    ensures
        r@ == insights(tools@, strs(registry@)),
{
    assert(tools@.len() == tools.entries@.len());
    assert(strs(registry@).len() == registry@.len());
    if tools.entries.len() == 0 {
        return copy("");
    }
    let mut s = write_slow(tools);
    s.append(write_trunc(tools).as_str());
    s.append(write_sign(tools, Sign::Fails, "error-prone").as_str());
    s.append(write_sign(tools, Sign::Invalid, "invalid-prone").as_str());
    s.append(write_sign(tools, Sign::NotFound, "not-found-prone").as_str());
    s.append(
        write_sign(tools, Sign::NetNegative, "net-negative (returned ≥ distilled)").as_str(),
    );
    s.append(write_list("never called", &find_never_called(tools, registry)).as_str());
    if is_blank(s.as_str()) {
        return copy("");
    }
    let mut out = copy("\n--- improvement signals ---\n");
    out.append(s.as_str());
    out
}

/// The slowest tool that is named has the longest mean duration of all that are
/// slow.
pub proof fn law_slowest_is_slowest(tools: Counters, i: int)
    requires
        ranked(tools, Sign::Slow).len() > 0,
        0 <= i < ranked(tools, Sign::Slow).len(),
    ensures
        mean_ms(tools[ranked(tools, Sign::Slow)[i]].1) >= SLOW_MS_FLOOR,
        mean_ms(tools[ranked(tools, Sign::Slow)[0]].1) >= mean_ms(
            tools[ranked(tools, Sign::Slow)[i]].1,
        ),
{
    let s = Sign::Slow;
    let found = showing(tools, s, tools.len());
    let ks = sign_keys(tools, s, found);
    lemma_showing(tools, s, tools.len());
    crate::order::lemma_sort_order(ks);
    crate::order::lemma_key_order();
    let sk = crate::order::sorted_keys(ks);
    ks.lemma_sort_by_ensures(crate::order::key_le());
    sk.to_multiset_ensures();
    ks.to_multiset_ensures();
    assert(sk.contains(sk[0]) && sk.contains(sk[i]));
    assert(ks.to_multiset().contains(sk[0]) && ks.to_multiset().contains(sk[i]));
    let a = choose|a: int| 0 <= a < ks.len() && ks[a] == sk[0];
    let b = choose|b: int| 0 <= b < ks.len() && ks[b] == sk[i];
    assert(sort_order(ks)[0] == a && sort_order(ks)[i] == b);
    assert(shows(tools[found[a]].1, s) && shows(tools[found[b]].1, s));
    if i > 0 {
        assert(crate::order::key_le()(sk[0], sk[i]));
    }
}

// ---------------------------------------------------------------------------
// The document

/// Whether a call belongs to the workspace that is asked for.
pub open spec fn belongs(e: EventView, filter: Option<Seq<char>>) -> bool {
    match filter {
        Some(w) => e.workspace_id.len() == 0 || e.workspace_id == w,
        None => true,
    }
}

/// The durations of the first `n` calls that belong to a workspace.
pub open spec fn durations(events: Seq<EventView>, filter: Option<Seq<char>>, n: nat) -> Seq<u64>
    decreases n,
{
    if n == 0 {
        Seq::empty()
    } else {
        let before = durations(events, filter, (n - 1) as nat);
        if belongs(events[n - 1], filter) {
            before.push(events[n - 1].elapsed_us)
        } else {
            before
        }
    }
}

fn find_durations(events: &Vec<Event>, filter: &Option<String>) -> (r: Vec<u64>)
    ensures
        r@ == durations(event_views(events@), opt_text(*filter), events@.len()),
{
    let ghost all = event_views(events@);
    let mut out: Vec<u64> = Vec::new();
    for i in 0..events.len()
        invariant
            all == event_views(events@),
            out@ == durations(all, opt_text(*filter), i as nat),
    {
        let e = &events[i];
        assert(all[i as int] == e@);
        let ours: bool = match filter {
            Some(w) => is_blank(e.workspace_id.as_str()) || same(
                e.workspace_id.as_str(),
                w.as_str(),
            ),
            None => true,
        };
        if ours {
            out.push(e.elapsed_us);
        }
    }
    out
}

pub open spec fn percentiles_json(v: Seq<u64>) -> Json {
    record(
        seq![
            (
                "elapsed_us"@,
                record(
                    seq![
                        ("p50"@, json_opt_u64(percentile(v, 50))),
                        ("p95"@, json_opt_u64(percentile(v, 95))),
                        ("p99"@, json_opt_u64(percentile(v, 99))),
                    ],
                ),
            ),
        ],
    )
}

fn write_percentiles(v: &Vec<u64>) -> (r: Datum)
    ensures
        r@ == percentiles_json(v@),
{
    let mut inner = no_members();
    add_member(&mut inner, "p50", opt_u64_value(percentile_us(v, 50)));
    add_member(&mut inner, "p95", opt_u64_value(percentile_us(v, 95)));
    add_member(&mut inner, "p99", opt_u64_value(percentile_us(v, 99)));
    assert(members(inner@) =~= seq![
        ("p50"@, json_opt_u64(percentile(v@, 50))),
        ("p95"@, json_opt_u64(percentile(v@, 95))),
        ("p99"@, json_opt_u64(percentile(v@, 99))),
    ]);
    let mut outer = no_members();
    add_member(&mut outer, "elapsed_us", build(inner));
    assert(members(outer@) =~= seq![
        (
            "elapsed_us"@,
            record(
                seq![
                    ("p50"@, json_opt_u64(percentile(v@, 50))),
                    ("p95"@, json_opt_u64(percentile(v@, 95))),
                    ("p99"@, json_opt_u64(percentile(v@, 99))),
                ],
            ),
        ),
    ]);
    build(outer)
}

pub open spec fn report_head(
    since: u64,
    now: u64,
    filter: Option<Seq<char>>,
) -> Seq<(Seq<char>, Json)> {
    seq![
        ("version"@, Json::UInt(5)),
        ("label"@, Json::Str("estimated context avoided"@)),
        ("since"@, Json::UInt(since)),
        ("now"@, Json::UInt(now)),
        ("workspace"@, json_opt_str(filter)),
    ]
}

pub open spec fn report_tail(
    tools: Counters,
    events: Seq<EventView>,
    filter: Option<Seq<char>>,
) -> Seq<(Seq<char>, Json)> {
    let (c, b, r) = totals(tools, tools.len());
    let avoided = less_by(b as u64, r as u64);
    seq![
        ("baseline_tokens"@, Json::UInt(b as u64)),
        ("returned_tokens"@, Json::UInt(r as u64)),
        ("avoided_tokens"@, Json::UInt(avoided)),
        ("reduction_pct"@, Json::Str(percent_text(avoided, b as u64))),
        ("tools"@, tools_json(tools)),
        ("percentiles"@, percentiles_json(durations(events, filter, events.len()))),
    ]
}

/// The report as a document.
pub open spec fn report_json(
    since: u64,
    now: u64,
    tools: Counters,
    events: Seq<EventView>,
    filter: Option<Seq<char>>,
) -> Json {
    record(report_head(since, now, filter) + report_tail(tools, events, filter))
}

fn write_tools(tools: &StrMap<Tool>) -> (r: Datum)
    ensures
        r@ == tools_json(tools@),
{
    let mut ts: Vec<(String, Datum)> = no_members();
    let ghost want = tools@.map_values(
        |kv: (Seq<char>, Tool)| (kv.0, crate::stats::tool_json(kv.1)),
    );
    assert(want.take(0) =~= members(ts@));
    for i in 0..tools.entries.len()
        invariant
            want == tools@.map_values(
                |kv: (Seq<char>, Tool)| (kv.0, crate::stats::tool_json(kv.1)),
            ),
            members(ts@) == want.take(i as int),
    {
        let ghost before = members(ts@);
        assert(tools@[i as int] == (tools.entries@[i as int].0@, tools.entries@[i as int].1));
        add_member(&mut ts, tools.entries[i].0.as_str(), tool_to_value(&tools.entries[i].1));
        assert(members(ts@) =~= before.push(want[i as int]));
        assert(want.take(i + 1) =~= want.take(i as int).push(want[i as int]));
    }
    assert(want.take(want.len() as int) =~= want);
    assert(tools@.len() == tools.entries@.len());
    object(ts)
}

pub fn render_json(
    since: u64,
    now: u64,
    tools: &StrMap<Tool>,
    events: &Vec<Event>,
    workspace_filter: &Option<String>,
) -> (r: String)
    requires
        totals_fit(tools@),
    ensures
        r@ == json_pretty(
            serde_held(
                report_json(
                    since,
                    now,
                    tools@,
                    event_views(events@),
                    opt_text(*workspace_filter),
                ),
            ),
        ),
{
    let ghost filter = opt_text(*workspace_filter);
    let ghost all = event_views(events@);
    assert(all.len() == events@.len());
    let (c, b, t): (u64, u64, u64) = match sum_up(tools) {
        Some(x) => x,
        None => (0, 0, 0),
    };
    let avoided: u64 = saved(b, t);
    let samples = find_durations(events, workspace_filter);
    let mut ms = no_members();
    add_member(&mut ms, "version", Datum::UInt(5));
    add_member(&mut ms, "label", str_value("estimated context avoided"));
    add_member(&mut ms, "since", Datum::UInt(since));
    add_member(&mut ms, "now", Datum::UInt(now));
    add_member(&mut ms, "workspace", opt_str_value(workspace_filter));
    assert(members(ms@) =~= report_head(since, now, filter));
    add_member(&mut ms, "baseline_tokens", Datum::UInt(b));
    add_member(&mut ms, "returned_tokens", Datum::UInt(t));
    add_member(&mut ms, "avoided_tokens", Datum::UInt(avoided));
    add_member(&mut ms, "reduction_pct", str_value(pct_precise(avoided, b).as_str()));
    add_member(&mut ms, "tools", write_tools(tools));
    add_member(&mut ms, "percentiles", write_percentiles(&samples));
    assert(members(ms@) =~= report_head(since, now, filter) + report_tail(tools@, all, filter));
    pretty(&build(ms))
}

// ---------------------------------------------------------------------------
// The request

/// What a report asks for.
pub struct ReportAsk {
    pub reset: bool,
    pub insights: bool,
    pub json: bool,
    pub workspace: Option<String>,
}

/// The workspace whose calls are looked at: the one asked for, or else the
/// current one.
pub open spec fn filter_of(j: Json, s: StoreView) -> Option<Seq<char>> {
    match text_at(j, "workspace"@) {
        Some(w) => Some(w),
        None => if workspace_of(s).len() == 0 {
            None
        } else {
            Some(workspace_of(s))
        },
    }
}

/// Reads a request for a report.
pub fn read_report(args: &Datum, s: &Store) -> (r: ReportAsk)
    ensures
        r.reset == bool_or(args@, "reset"@, false),
        r.insights == bool_or(args@, "insights"@, true),
        r.json == (str_or(args@, "format"@, "text"@) == "json"@),
        opt_text(r.workspace) == filter_of(args@, s@),
{
    proof {
        reveal_strlit("");
    }
    let workspace = match optional_str(args, "workspace") {
        Some(w) => Some(w),
        None => match &s.workspace_id {
            Some(w) => if is_blank(w.as_str()) {
                None
            } else {
                Some(copy(w.as_str()))
            },
            None => None,
        },
    };
    ReportAsk {
        reset: flag_or(args, "reset", false),
        insights: flag_or(args, "insights", true),
        json: same(string_or(args, "format", "text").as_str(), "json"),
        workspace,
    }
}

/// The report that is asked for.
pub open spec fn report_text(s: StoreView, now: u64, json: bool, hints: bool, filter: Option<
    Seq<char>,
>) -> Seq<char> {
    if json {
        json_pretty(serde_held(report_json(s.since, now, s.tools, s.events, filter)))
    } else if hints {
        table(s.since, now, s.tools) + insights(s.tools, registry_of(s))
    } else {
        table(s.since, now, s.tools)
    }
}

pub open spec fn reset_text() -> Seq<char> {
    "wordkeep estimated context avoided - counters reset."@
}

/// Answers a request for a report. A reset clears the counters instead.
pub fn report(s: &mut Store, ask: &ReportAsk, now: u64) -> (r: String)
    requires
        old(s).wf(),
        ask.reset || totals_fit(old(s)@.tools),
    ensures
        final(s).wf(),
        if ask.reset {
            r@ == reset_text() && final(s)@ == (StoreView {
                since: now,
                tools: Seq::empty(),
                events: Seq::empty(),
                pending_flush: 0,
                ..old(s)@
            })
        } else {
            r@ == report_text(old(s)@, now, ask.json, ask.insights, opt_text(ask.workspace))
                && final(s)@ == old(s)@
        },
{
    if ask.reset {
        s.reset(now);
        return copy("wordkeep estimated context avoided - counters reset.");
    }
    if ask.json {
        return render_json(s.since, now, &s.tools, &s.events, &ask.workspace);
    }
    let mut text = render(s.since, now, &s.tools);
    if ask.insights {
        let none: Vec<String> = Vec::new();
        assert(strs(none@) =~= Seq::<Seq<char>>::empty());
        let hints = match &s.registry {
            Some(names) => render_insights(&s.tools, names),
            None => render_insights(&s.tools, &none),
        };
        text.append(hints.as_str());
    }
    text
}

/// The line that tells of a call that ended.
pub fn call_line(
    tool: &str,
    returned: u64,
    baseline: u64,
    elapsed_us: u64,
    outcome: crate::stats::Outcome,
) -> (r: String)
    ensures
        r@ == ({
            let avoided = less_by(baseline, returned);
            "[wordkeep] "@ + tool@ + ": ~"@ + dec(returned as nat) + " tok returned vs ~"@ + dec(
                baseline as nat,
            ) + " distilled (avoided ~"@ + dec(avoided as nat) + ", "@ + percent_text(
                avoided,
                baseline,
            ) + "%, "@ + dec((elapsed_us / 1000) as nat) + "ms, "@ + crate::stats::outcome_name(
                outcome,
            ) + ")"@
        }),
{
    let avoided: u64 = saved(baseline, returned);
    let mut t = copy("[wordkeep] ");
    t.append(tool);
    t.append(": ~");
    t.append(decimal(returned).as_str());
    t.append(" tok returned vs ~");
    t.append(decimal(baseline).as_str());
    t.append(" distilled (avoided ~");
    t.append(decimal(avoided).as_str());
    t.append(", ");
    t.append(pct_precise(avoided, baseline).as_str());
    t.append("%, ");
    t.append(decimal(elapsed_us / 1000).as_str());
    t.append("ms, ");
    t.append(outcome.as_str());
    t.append(")");
    t
}

// ---------------------------------------------------------------------------
// The snapshot for the dashboard

/// The counters of a tool, for display.
pub struct ToolStat {
    pub name: String,
    pub calls: u64,
    pub baseline_tokens: u64,
    pub returned_tokens: u64,
    pub peak_baseline: u64,
    pub peak_returned: u64,
    pub peak_saved: u64,
    pub last_ts: u64,
    pub total_ms: u64,
    pub peak_ms: u64,
    pub trunc_count: u64,
    pub error_count: u64,
    pub low_yield_count: u64,
}

impl ToolStat {
    pub fn avg_ms(&self) -> (r: u64)
        ensures
            r == (if self.calls == 0 {
                0
            } else {
                self.total_ms / self.calls
            }),
    {
        if self.calls == 0 {
            0
        } else {
            self.total_ms / self.calls
        }
    }
}

/// Whether a displayed row stands for a tool.
pub open spec fn stat_of(s: ToolStat, name: Seq<char>, t: Tool) -> bool {
    &&& s.name@ == name
    &&& s.calls == t.calls
    &&& s.baseline_tokens == t.baseline_tokens
    &&& s.returned_tokens == t.returned_tokens
    &&& s.peak_baseline == t.peak_baseline
    &&& s.peak_returned == t.peak_returned
    &&& s.peak_saved == t.peak_saved
    &&& s.last_ts == t.last_ts
    &&& s.total_ms == t.total_us / 1000
    &&& s.peak_ms == t.peak_us / 1000
    &&& s.trunc_count == t.trunc_count
    &&& s.error_count == t.error_count
    &&& s.low_yield_count == t.low_yield_count
}

/// A call, for display.
pub struct EventLog {
    pub ts: u64,
    pub tool: String,
    pub baseline: u64,
    pub returned: u64,
    pub elapsed_ms: u64,
    pub outcome: String,
}

/// Whether a displayed row stands for a call.
pub open spec fn log_of(l: EventLog, e: EventView) -> bool {
    &&& l.ts == e.ts
    &&& l.tool@ == e.tool
    &&& l.baseline == e.baseline
    &&& l.returned == e.returned
    &&& l.elapsed_ms == e.elapsed_us / 1000
    &&& l.outcome@ == e.outcome
}

/// The counters and the latest calls at a moment, for display.
pub struct Snapshot {
    pub since: u64,
    pub now: u64,
    pub tools: Vec<ToolStat>,
    pub events: Vec<EventLog>,
}

/// The calls that are displayed: those of the store, or else the latest of the
/// log.
pub open spec fn displayed(s: StoreView, log: Seq<EventView>) -> Seq<EventView> {
    if s.events.len() == 0 {
        ring(log)
    } else {
        s.events
    }
}

fn show_event(e: &Event) -> (r: EventLog)
    ensures
        log_of(r, e@),
{
    EventLog {
        ts: e.ts,
        tool: copy(e.tool.as_str()),
        baseline: e.baseline,
        returned: e.returned,
        elapsed_ms: e.elapsed_ms(),
        outcome: copy(e.outcome.as_str()),
    }
}

fn show_tool(name: &str, t: &Tool) -> (r: ToolStat)
    ensures
        stat_of(r, name@, *t),
{
    ToolStat {
        name: copy(name),
        calls: t.calls,
        baseline_tokens: t.baseline_tokens,
        returned_tokens: t.returned_tokens,
        peak_baseline: t.peak_baseline,
        peak_returned: t.peak_returned,
        peak_saved: t.peak_saved,
        last_ts: t.last_ts,
        total_ms: t.total_ms(),
        peak_ms: t.peak_ms(),
        trunc_count: t.trunc_count,
        error_count: t.error_count,
        low_yield_count: t.low_yield_count,
    }
}

/// Takes a snapshot. The log is what was logged of the workspace that the store's
/// document names.
pub fn read_snapshot(s: &Store, log: &Vec<Event>, now: u64) -> (r: Snapshot)
    ensures
        r.since == s@.since,
        r.now == now,
        r.tools@.len() == s@.tools.len(),
        forall|i: int|
            0 <= i < r.tools@.len() ==> stat_of(
                #[trigger] r.tools@[i],
                s@.tools[i].0,
                s@.tools[i].1,
            ),
        r.events@.len() == displayed(s@, event_views(log@)).len(),
        forall|i: int|
            0 <= i < r.events@.len() ==> log_of(
                #[trigger] r.events@[i],
                displayed(s@, event_views(log@))[i],
            ),
{
    let mut tools: Vec<ToolStat> = Vec::new();
    for i in 0..s.tools.entries.len()
        invariant
            tools@.len() == i,
            forall|k: int|
                0 <= k < i ==> stat_of(#[trigger] tools@[k], s@.tools[k].0, s@.tools[k].1),
    {
        assert(s@.tools[i as int] == (
            s.tools.entries@[i as int].0@,
            s.tools.entries@[i as int].1,
        ));
        tools.push(show_tool(s.tools.entries[i].0.as_str(), &s.tools.entries[i].1));
    }
    let ghost want = displayed(s@, event_views(log@));
    let source: &Vec<Event> = if s.events.len() == 0 {
        log
    } else {
        &s.events
    };
    let skip: usize = if s.events.len() == 0 && log.len() > crate::stats::EVENT_CAP {
        log.len() - crate::stats::EVENT_CAP
    } else {
        0
    };
    let ghost all = event_views(source@);
    assert(want =~= all.skip(skip as int));
    let mut events: Vec<EventLog> = Vec::new();
    for i in skip..source.len()
        invariant
            skip <= source@.len(),
            all == event_views(source@),
            want == all.skip(skip as int),
            events@.len() == i - skip,
            forall|k: int| 0 <= k < events@.len() ==> log_of(#[trigger] events@[k], want[k]),
    {
        assert(all[i as int] == source@[i as int]@);
        assert(want[i - skip] == all[i as int]);
        events.push(show_event(&source[i]));
    }
    Snapshot { since: s.since, now, tools, events }
}

} // verus!

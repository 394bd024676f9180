//! What is reported of the calls of tools: figures, rows, and what stands out.
use vstd::prelude::*;
use crate::args::text_at;
use crate::json::{get, json_opt_str, lemma_record_get, Json};
use crate::laws::lists::{lemma_arranged_items, lemma_contains_push};
use crate::laws::texts::{flat, lemma_flat_push};
use crate::order::{key_lt, lemma_sort_order, positioned, sort_order};
use crate::smap::at;
use crate::stats::figures::{
    age, ascending_samples, count_text, grouped, percent, percent_text, percentile,
    percentile_place, sample_keys, short_count,
};
use crate::stats::report::{
    also_slow, belongs, displayed, durations, filter_of, insights, legend, list_line, names_at,
    never_called, percentiles_json, ranked, rate_from, report_head, report_json, report_tail,
    report_text, row, rows, showing, shows, sign_keys, signals, slow_lines, strength, table,
    total_row, totals, trunc_line, weight, Sign,
};
use crate::stats::{
    mean_ms, registry_of, ring, tools_json, workspace_of, EventView, StoreView, Tool,
};
use crate::text::{dec, joined, padded_left, padded_right};

verus! {

// ---------------------------------------------------------------------------
// Figures

proof fn lemma_grouped_same(s: Seq<char>, t: Seq<char>, n: nat)
    requires
        n <= t.len(),
        s.len() == t.len() + 3,
        t == s.take(t.len() as int),
    ensures
        grouped(s, n) == grouped(t, n),
    decreases n,
{
    if n > 0 {
        lemma_grouped_same(s, t, (n - 1) as nat);
        assert(s[n - 1] == t[n - 1]);
        assert((s.len() - (n - 1)) % 3 == (t.len() - (n - 1)) % 3);
    }
}

/// Digits are grouped by three from the right.
pub proof fn law_digits_are_grouped(s: Seq<char>)
    ensures
        s.len() <= 3 ==> grouped(s, s.len()) == s,
        s.len() > 3 ==> grouped(s, s.len()) == grouped(
            s.take(s.len() - 3),
            (s.len() - 3) as nat,
        ) + seq![',', s[s.len() - 3], s[s.len() - 2], s[s.len() - 1]],
{
    let n = s.len();
    reveal_strlit("");
    if n <= 3 {
        reveal_with_fuel(grouped, 4);
        assert(grouped(s, n) =~= s);
    } else {
        let t = s.take(n - 3);
        lemma_grouped_same(s, t, (n - 3) as nat);
        let g = grouped(s, (n - 3) as nat);
        assert(grouped(s, (n - 2) as nat) == g.push(',').push(s[n - 3]));
        assert(grouped(s, (n - 1) as nat) == g.push(',').push(s[n - 3]).push(s[n - 2]));
        assert(grouped(s, n) =~= g + seq![',', s[n - 3], s[n - 2], s[n - 1]]);
    }
}

/// Counts are shown in full below a million, and in the largest unit that they reach above.
pub proof fn law_counts_are_shown(n: u64)
    ensures
        n < 1_000_000 ==> count_text(n) == grouped(dec(n as nat), dec(n as nat).len()),
        1_000_000 <= n < 1_000_000_000 ==> count_text(n) == short_count(n, 1_000_000) + "M"@,
        1_000_000_000 <= n < 1_000_000_000_000 ==> count_text(n) == short_count(n, 1_000_000_000)
            + "B"@,
        1_000_000_000_000 <= n < 1_000_000_000_000_000 ==> count_text(n) == short_count(
            n,
            1_000_000_000_000,
        ) + "T"@,
        n >= 1_000_000_000_000_000 ==> count_text(n) == short_count(n, 1_000_000_000_000_000)
            + "Q"@,
{
}

/// How long ago something was: in days and hours, hours and minutes, or minutes.
pub proof fn law_how_long_ago(since: u64, now: u64, days: nat, hours: nat, mins: nat, secs: nat)
    requires
        now - since == 86_400 * days + 3_600 * hours + 60 * mins + secs,
        hours < 24,
        mins < 60,
        secs < 60,
    ensures
        days > 0 ==> age(since, now) == dec(days) + "d "@ + dec(hours) + "h ago"@,
        days == 0 && hours > 0 ==> age(since, now) == dec(hours) + "h "@ + dec(mins) + "m ago"@,
        days == 0 && hours == 0 ==> age(since, now) == dec(mins) + "m ago"@,
{
}

/// What lies ahead was just now.
pub proof fn law_what_lies_ahead_is_now(since: u64, now: u64)
    requires
        now < since,
    ensures
        age(since, now) == dec(0) + "m ago"@,
{
}

/// Of nothing every part is none; what is whole is a hundred percent.
pub proof fn law_parts_in_percent(part: u64, whole: u64)
    ensures
        whole == 0 ==> percent(part, whole) == 0 && percent_text(part, whole) == "0"@,
        whole > 0 && part >= whole ==> percent_text(part, whole) == "100"@,
{
}

/// A percentile is one of the samples, of which those before it in order are not larger and
/// those behind it not smaller; of no samples there is none.
pub proof fn law_percentile_is_a_sample(v: Seq<u64>, p: u64)
    ensures
        v.len() == 0 ==> percentile(v, p) is None,
        v.len() > 0 ==> (percentile(v, p) matches Some(x) && v.contains(x)),
        v.len() > 0 ==> percentile_place(v.len(), p) < v.len() && forall|i: int|
            0 <= i < v.len() ==> {
                &&& i <= percentile_place(v.len(), p) ==> #[trigger] ascending_samples(v)[i]
                    <= percentile(v, p)->Some_0
                &&& i >= percentile_place(v.len(), p) ==> ascending_samples(v)[i] >= percentile(
                    v,
                    p,
                )->Some_0
            },
{
    if v.len() > 0 {
        let keys = sample_keys(v);
        assert(positioned(keys));
        lemma_arranged_items(v, keys);
        lemma_sort_order(keys);
        let k = percentile_place(v.len(), p) as int;
        let s = ascending_samples(v);
        assert(0 <= k < v.len());
        assert(s.contains(s[k]));
        assert forall|i: int| 0 <= i < v.len() implies {
            &&& i <= k ==> #[trigger] s[i] <= s[k]
            &&& i >= k ==> s[i] >= s[k]
        } by {
            let o = sort_order(keys);
            assert(s[i] == v[o[i]] && s[k] == v[o[k]]);
            if i < k {
                assert(!key_lt(keys[o[k]], keys[o[i]]));
            }
            if k < i {
                assert(!key_lt(keys[o[i]], keys[o[k]]));
            }
        }
    }
}

// ---------------------------------------------------------------------------
// The table

/// What is added up over the tools.
pub enum Count {
    Calls,
    Baseline,
    Returned,
}

/// A count of the first `n` tools.
pub open spec fn sum_of(tools: Seq<(Seq<char>, Tool)>, n: nat, c: Count) -> nat
    decreases n,
{
    if n == 0 {
        0
    } else {
        let t = tools[n - 1].1;
        sum_of(tools, (n - 1) as nat, c) + match c {
            Count::Calls => t.calls as nat,
            Count::Baseline => t.baseline_tokens as nat,
            Count::Returned => t.returned_tokens as nat,
        }
    }
}

proof fn lemma_totals(tools: Seq<(Seq<char>, Tool)>, n: nat)
    requires
        n <= tools.len(),
    ensures
        totals(tools, n) == (
            sum_of(tools, n, Count::Calls),
            sum_of(tools, n, Count::Baseline),
            sum_of(tools, n, Count::Returned),
        ),
    decreases n,
{
    if n > 0 {
        lemma_totals(tools, (n - 1) as nat);
    }
}

/// What was avoided in all: what was distilled, less what was returned.
pub open spec fn saved_by(tools: Seq<(Seq<char>, Tool)>) -> u64 {
    let b = sum_of(tools, tools.len(), Count::Baseline) as u64;
    let r = sum_of(tools, tools.len(), Count::Returned) as u64;
    if b > r {
        (b - r) as u64
    } else {
        0
    }
}

/// The row of a tool: its calls, mean time, outcomes, and what it distilled, returned and
/// avoided.
pub proof fn law_row_of_a_tool(name: Seq<char>, t: Tool)
    ensures
        ({
            let avoided = if t.baseline_tokens > t.returned_tokens {
                (t.baseline_tokens - t.returned_tokens) as u64
            } else {
                0
            };
            row(name, t) == "  "@ + padded_right(name, 16) + " "@ + padded_left(
                dec(t.calls as nat),
                5,
            ) + " "@ + padded_left(dec(mean_ms(t) as nat), 8) + " "@ + padded_left(
                dec(t.trunc_count as nat),
                5,
            ) + " "@ + padded_left(dec(t.error_count as nat), 4) + " "@ + padded_left(
                count_text(t.baseline_tokens),
                11,
            ) + " "@ + padded_left(count_text(t.returned_tokens), 11) + " "@ + padded_left(
                count_text(avoided),
                11,
            ) + " "@ + padded_left(percent_text(avoided, t.baseline_tokens), 5) + "%\n"@
        }),
{
}

proof fn lemma_rows(tools: Seq<(Seq<char>, Tool)>, n: nat)
    requires
        n <= tools.len(),
    ensures
        rows(tools, n) == flat(Seq::new(n, |i: int| row(tools[i].0, tools[i].1))),
    decreases n,
{
    reveal_strlit("");
    let all = Seq::new(n, |i: int| row(tools[i].0, tools[i].1));
    if n > 0 {
        let m = (n - 1) as nat;
        lemma_rows(tools, m);
        let before = Seq::new(m, |i: int| row(tools[i].0, tools[i].1));
        lemma_flat_push(before, all[n - 1]);
        assert(all =~= before.push(all[n - 1]));
    } else {
        assert(all =~= Seq::<Seq<char>>::empty());
    }
}

/// The table has a row for each tool and one for all of them; without a call it says so.
pub proof fn law_table_has_a_row_for_each_tool(
    since: u64,
    now: u64,
    tools: Seq<(Seq<char>, Tool)>,
)
    ensures
        tools.len() == 0 ==> table(since, now, tools)
            == "wordkeep estimated context avoided - no tool calls recorded yet."@,
        tools.len() > 0 ==> table(since, now, tools)
            == "wordkeep estimated context avoided - tracking since "@ + age(since, now) + "\n\n"@
            + "  tool             calls   avg ms trunc  err   distilled    returned     avoided  red%\n"@
            + flat(Seq::new(tools.len(), |i: int| row(tools[i].0, tools[i].1))) + total_row(tools)
            + legend(),
{
    lemma_rows(tools, tools.len());
}

/// The row of all tools gives the sums.
pub proof fn law_row_of_all_tools(tools: Seq<(Seq<char>, Tool)>)
    ensures
        ({
            let b = sum_of(tools, tools.len(), Count::Baseline) as u64;
            let r = sum_of(tools, tools.len(), Count::Returned) as u64;
            total_row(tools) == "  "@ + padded_right("TOTAL"@, 16) + " "@ + padded_left(
                dec(sum_of(tools, tools.len(), Count::Calls)),
                5,
            ) + " "@ + padded_left("-"@, 8) + " "@ + padded_left("-"@, 5) + " "@ + padded_left(
                "-"@,
                4,
            ) + " "@ + padded_left(count_text(b), 11) + " "@ + padded_left(count_text(r), 11) + " "@
                + padded_left(count_text(saved_by(tools)), 11) + " "@ + padded_left(
                percent_text(saved_by(tools), b),
                5,
            ) + "%\n"@
        }),
{
    lemma_totals(tools, tools.len());
}

// ---------------------------------------------------------------------------
// What stands out

/// Whether a share of the calls is some percent at least.
pub open spec fn share_at_least(count: u64, calls: u64, pct: int) -> bool {
    calls > 0 && count * 100 >= pct * calls
}

proof fn lemma_share(count: u64, calls: u64, pct: u64)
    requires
        calls > 0,
    ensures
        rate_from(count, calls, pct) <==> share_at_least(count, calls, pct as int),
{
    let (x, c, p) = (count * 100, calls as int, pct as int);
    assert((x / c >= p) <==> (x >= p * c)) by (nonlinear_arith)
        requires
            c > 0,
            x >= 0,
            p >= 0,
    ;
}

/// When a tool stands out: by its mean time, by how often its answers are cut short, by how
/// often its calls fail, are wrong or find nothing, and by giving back more than it saves.
pub proof fn law_when_tools_stand_out(t: Tool)
    ensures
        shows(t, Sign::Slow) <==> t.calls > 0 && mean_ms(t) >= 50,
        shows(t, Sign::Truncates) <==> t.trunc_count > 0 && share_at_least(
            t.trunc_count,
            t.calls,
            15,
        ),
        shows(t, Sign::Fails) <==> t.calls >= 5 && share_at_least(t.error_count, t.calls, 10),
        shows(t, Sign::Invalid) <==> t.calls >= 5 && share_at_least(t.invalid_count, t.calls, 10),
        shows(t, Sign::NotFound) <==> t.calls >= 5 && share_at_least(
            t.not_found_count,
            t.calls,
            10,
        ),
        shows(t, Sign::NetNegative) <==> t.baseline_tokens >= 500 && t.returned_tokens
            >= t.baseline_tokens,
{
    if t.calls > 0 {
        lemma_share(t.trunc_count, t.calls, 15);
        lemma_share(t.error_count, t.calls, 10);
        lemma_share(t.invalid_count, t.calls, 10);
        lemma_share(t.not_found_count, t.calls, 10);
    }
}

/// A tool is named where it stands out, and only there.
pub proof fn law_tools_that_stand_out(
    tools: Seq<(Seq<char>, Tool)>,
    s: Sign,
    n: nat,
    i: int,
)
    requires
        n <= tools.len(),
    ensures
        showing(tools, s, n).contains(i) <==> 0 <= i < n && shows(tools[i].1, s),
    decreases n,
{
    if n > 0 {
        law_tools_that_stand_out(tools, s, (n - 1) as nat, i);
        lemma_contains_push(showing(tools, s, (n - 1) as nat), n - 1, i);
    }
}

/// What stands out is ranked by how far it does, and nothing is lost by ranking.
pub proof fn law_ranked_by_strength(tools: Seq<(Seq<char>, Tool)>, s: Sign, i: int, a: int, b: int)
    ensures
        ranked(tools, s).contains(i) <==> 0 <= i < tools.len() && shows(tools[i].1, s),
        0 <= a < b < ranked(tools, s).len() ==> weight(tools[ranked(tools, s)[a]].1, s) >= weight(
            tools[ranked(tools, s)[b]].1,
            s,
        ),
{
    let found = showing(tools, s, tools.len());
    let keys = sign_keys(tools, s, found);
    assert(positioned(keys));
    lemma_arranged_items(found, keys);
    lemma_sort_order(keys);
    law_tools_that_stand_out(tools, s, tools.len(), i);
    if 0 <= a < b < ranked(tools, s).len() {
        let o = sort_order(keys);
        assert(ranked(tools, s)[a] == found[o[a]] && ranked(tools, s)[b] == found[o[b]]);
        assert(!key_lt(keys[o[b]], keys[o[a]]));
    }
}

/// How far a tool stands out: by its share of answers that were cut short, or by its mean
/// time.
pub proof fn law_strength_of_a_sign(t: Tool)
    ensures
        strength(t, Sign::Slow) == mean_ms(t),
        t.calls > 0 ==> strength(t, Sign::Truncates) == t.trunc_count * 100 / t.calls as int,
{
}

/// What is said of the slowest tool, of two more, and of the one whose answers are cut short
/// most often.
pub proof fn law_what_is_said_of_the_slowest(tools: Seq<(Seq<char>, Tool)>)
    ensures
        ({
            let slow = ranked(tools, Sign::Slow);
            let cut = ranked(tools, Sign::Truncates);
            let also = |k: int|
                "  also slow: "@ + tools[slow[k]].0 + " ("@ + dec(mean_ms(tools[slow[k]].1) as nat)
                    + "ms avg)\n"@;
            let first = "slowest (avg ms): "@ + tools[slow[0]].0 + " ("@ + dec(
                mean_ms(tools[slow[0]].1) as nat,
            ) + "ms avg)\n"@;
            &&& slow.len() == 0 ==> slow_lines(tools).len() == 0
            &&& slow.len() == 1 ==> slow_lines(tools) == first
            &&& slow.len() == 2 ==> slow_lines(tools) == first + also(1)
            &&& slow.len() >= 3 ==> slow_lines(tools) == first + (also(1) + also(2))
            &&& cut.len() == 0 ==> trunc_line(tools).len() == 0
            &&& cut.len() > 0 ==> trunc_line(tools) == "high truncation: "@ + tools[cut[0]].0
                + " ("@ + dec(tools[cut[0]].1.trunc_count as nat) + "/"@ + dec(
                tools[cut[0]].1.calls as nat,
            ) + " calls - raise token_budget or max)\n"@
        }),
{
    reveal_strlit("");
    let slow = ranked(tools, Sign::Slow);
    let e = ""@;
    if slow.len() > 0 {
        reveal_with_fuel(also_slow, 4);
        let first = "slowest (avg ms): "@ + tools[slow[0]].0 + " ("@ + dec(
            mean_ms(tools[slow[0]].1) as nat,
        ) + "ms avg)\n"@;
        assert(first + e =~= first);
        if slow.len() > 1 {
            let one = "  also slow: "@ + tools[slow[1]].0 + " ("@ + dec(
                mean_ms(tools[slow[1]].1) as nat,
            ) + "ms avg)\n"@;
            assert(e + one =~= one);
            assert(also_slow(tools, slow, 2) == one);
        }
    }
}

/// A list of names stands on a line of its own, behind its label; an empty one is left out.
pub proof fn law_lists_of_names(label: Seq<char>, names: Seq<Seq<char>>)
    ensures
        names.len() == 0 ==> list_line(label, names).len() == 0,
        names.len() > 0 ==> list_line(label, names) == label + ": "@ + joined(names, ", "@) + "\n"@,
{
    reveal_strlit("");
}

/// Tools that were never called are those on offer without counters.
pub proof fn law_tools_never_called(
    tools: Seq<(Seq<char>, Tool)>,
    reg: Seq<Seq<char>>,
    n: nat,
    name: Seq<char>,
)
    requires
        n <= reg.len(),
    ensures
        never_called(tools, reg, n).contains(name) <==> at(tools, name) is None && reg.take(
            n as int,
        ).contains(name),
    decreases n,
{
    if n > 0 {
        let m = (n - 1) as nat;
        law_tools_never_called(tools, reg, m, name);
        lemma_contains_push(never_called(tools, reg, m), reg[n - 1], name);
        assert(reg.take(n as int) =~= reg.take(m as int).push(reg[n - 1]));
        lemma_contains_push(reg.take(m as int), reg[n - 1], name);
    }
}

/// What stands out is told in this order: the slowest, what is cut short, what fails, what is
/// wrong, what finds nothing, what gives back too much, and what was never called.
pub proof fn law_what_stands_out_is_told(tools: Seq<(Seq<char>, Tool)>, reg: Seq<Seq<char>>)
    ensures
        ({
            let named = |s: Sign| names_at(tools, showing(tools, s, tools.len()));
            let all = slow_lines(tools) + trunc_line(tools) + list_line(
                "error-prone"@,
                named(Sign::Fails),
            ) + list_line("invalid-prone"@, named(Sign::Invalid)) + list_line(
                "not-found-prone"@,
                named(Sign::NotFound),
            ) + list_line("net-negative (returned ≥ distilled)"@, named(Sign::NetNegative))
                + list_line("never called"@, never_called(tools, reg, reg.len()));
            &&& tools.len() > 0 && all.len() > 0 ==> insights(tools, reg)
                == "\n--- improvement signals ---\n"@ + all
            &&& tools.len() == 0 || all.len() == 0 ==> insights(tools, reg).len() == 0
        }),
{
    reveal_strlit("");
}

// ---------------------------------------------------------------------------
// Reports

/// What a report says: since when, what was distilled, returned and avoided in all, and what
/// each tool did.
pub proof fn law_what_a_report_of_tools_says(
    since: u64,
    now: u64,
    tools: Seq<(Seq<char>, Tool)>,
    events: Seq<EventView>,
    filter: Option<Seq<char>>,
)
    ensures
        ({
            let b = report_json(since, now, tools, events, filter);
            &&& get(b, "version"@) == Some(Json::UInt(5))
            &&& get(b, "label"@) == Some(Json::Str("estimated context avoided"@))
            &&& get(b, "since"@) == Some(Json::UInt(since))
            &&& get(b, "now"@) == Some(Json::UInt(now))
            &&& get(b, "workspace"@) == Some(json_opt_str(filter))
            &&& get(b, "baseline_tokens"@) == Some(Json::UInt(sum_of(tools, tools.len(), Count::Baseline) as u64))
            &&& get(b, "returned_tokens"@) == Some(Json::UInt(sum_of(tools, tools.len(), Count::Returned) as u64))
            &&& get(b, "avoided_tokens"@) == Some(Json::UInt(saved_by(tools)))
            &&& get(b, "reduction_pct"@) == Some(Json::Str(percent_text(saved_by(tools), sum_of(tools, tools.len(), Count::Baseline) as u64)))
            &&& get(b, "tools"@) == Some(tools_json(tools))
            &&& get(b, "percentiles"@) == Some(percentiles_json(durations(events, filter, events.len())))
        }),
{
    lemma_totals(tools, tools.len());
    let ms = report_head(since, now, filter) + report_tail(tools, events, filter);
    reveal_strlit("version");
    reveal_strlit("label");
    reveal_strlit("since");
    reveal_strlit("now");
    reveal_strlit("workspace");
    reveal_strlit("baseline_tokens");
    reveal_strlit("returned_tokens");
    reveal_strlit("avoided_tokens");
    reveal_strlit("reduction_pct");
    reveal_strlit("tools");
    reveal_strlit("percentiles");
    assert("version"@.len() == 7);
    assert("label"@.len() == 5);
    assert("since"@.len() == 5);
    assert("now"@.len() == 3);
    assert("workspace"@.len() == 9);
    assert("baseline_tokens"@.len() == 15);
    assert("returned_tokens"@.len() == 15);
    assert("avoided_tokens"@.len() == 14);
    assert("reduction_pct"@.len() == 13);
    assert("tools"@.len() == 5);
    assert("percentiles"@.len() == 11);
    assert("label"@[0] == 'l');
    assert("since"@[0] == 's');
    assert("baseline_tokens"@[0] == 'b');
    assert("returned_tokens"@[0] == 'r');
    assert("tools"@[0] == 't');
    assert(ms[0].0 == "version"@);
    assert(ms[1].0 == "label"@);
    assert(ms[2].0 == "since"@);
    assert(ms[3].0 == "now"@);
    assert(ms[4].0 == "workspace"@);
    assert(ms[5].0 == "baseline_tokens"@);
    assert(ms[6].0 == "returned_tokens"@);
    assert(ms[7].0 == "avoided_tokens"@);
    assert(ms[8].0 == "reduction_pct"@);
    assert(ms[9].0 == "tools"@);
    assert(ms[10].0 == "percentiles"@);
    lemma_record_get(ms, 0);
    lemma_record_get(ms, 1);
    lemma_record_get(ms, 2);
    lemma_record_get(ms, 3);
    lemma_record_get(ms, 4);
    lemma_record_get(ms, 5);
    lemma_record_get(ms, 6);
    lemma_record_get(ms, 7);
    lemma_record_get(ms, 8);
    lemma_record_get(ms, 9);
    lemma_record_get(ms, 10);
}

/// A report is a table, with what stands out where that is asked for, or a document.
pub proof fn law_forms_of_a_report(s: StoreView, now: u64, filter: Option<Seq<char>>)
    ensures
        report_text(s, now, false, false, filter) == table(s.since, now, s.tools),
        report_text(s, now, false, true, filter) == table(s.since, now, s.tools) + insights(
            s.tools,
            registry_of(s),
        ),
        report_text(s, now, true, true, filter) == report_text(s, now, true, false, filter),
{
}

/// Which calls a report is about: those of a workspace, where one is named or known, and
/// those of none.
pub proof fn law_calls_of_a_workspace(
    j: Json,
    s: StoreView,
    e: EventView,
    filter: Option<Seq<char>>,
)
    ensures
        belongs(e, filter) <==> (filter matches Some(w) ==> e.workspace_id.len() == 0
            || e.workspace_id == w),
        text_at(j, "workspace"@) is Some ==> filter_of(j, s) == text_at(j, "workspace"@),
        text_at(j, "workspace"@) is None && workspace_of(s).len() > 0 ==> filter_of(j, s) == Some(
            workspace_of(s),
        ),
        text_at(j, "workspace"@) is None && workspace_of(s).len() == 0 ==> filter_of(j, s) is None,
{
}

/// The times that percentiles are taken of are those of the calls of a workspace, in order.
pub proof fn law_times_of_calls(events: Seq<EventView>, filter: Option<Seq<char>>, n: nat)
    requires
        n <= events.len(),
    ensures
        durations(events, filter, n) == events.take(n as int).filter(
            |e: EventView| belongs(e, filter),
        ).map_values(|e: EventView| e.elapsed_us),
    decreases n,
{
    let f = |e: EventView| belongs(e, filter);
    let g = |e: EventView| e.elapsed_us;
    if n > 0 {
        let m = (n - 1) as nat;
        law_times_of_calls(events, filter, m);
        assert(events.take(n as int) =~= events.take(m as int).push(events[n - 1]));
        events.take(m as int).lemma_filter_push(events[n - 1], f);
        let v = events.take(m as int).filter(f);
        assert(v.push(events[n - 1]).map_values(g) =~= v.map_values(g).push(
            events[n - 1].elapsed_us,
        ));
    } else {
        reveal(Seq::filter);
        assert(events.take(0) =~= Seq::<EventView>::empty());
        assert(durations(events, filter, 0) =~= events.take(0).filter(f).map_values(g));
    }
}

/// What is displayed are the calls at hand, or, without any, the latest of the log.
pub proof fn law_displayed_calls(s: StoreView, log: Seq<EventView>)
    ensures
        s.events.len() > 0 ==> displayed(s, log) == s.events,
        s.events.len() == 0 ==> displayed(s, log) == ring(log),
{
}

} // verus!

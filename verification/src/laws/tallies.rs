//! What calls are counted as, and what is kept of them.
use vstd::prelude::*;
use crate::laws::lists::lemma_contains_push;
use crate::stats::{
    counted, counters, empty_below, event_counts, event_for, events_from, final_meta, head_line,
    mean_ms, micros, net_negative, observed, outcome_name, outcome_of, pruned, reason_of, ring,
    says_invalid, says_not_found, settled_tool, has_room, EventView, MetaView, Outcome, StoreView,
    Tool,
};
use crate::json::{u64_or, Json};
use crate::smap::at;
use crate::text::{holds, lines_of, lowered, starts, trimmed};

verus! {

// ---------------------------------------------------------------------------
// Outcomes

/// What is said where something was not found.
pub open spec fn not_found_words() -> Seq<Seq<char>> {
    seq!["not found"@, "no definition"@, "unsupported"@, "no such"@, "cannot find"@, "cannot read"@, "no top-level"@, "unknown symbol"@, "no matches"@, "no matching"@, "no test file"@]
}

/// What is said where a call was wrong.
pub open spec fn invalid_words() -> Seq<Seq<char>> {
    seq!["is required"@, "requires:"@, "requires "@, "invalid "@, "unknown mode"@, "must be"@, "must provide"@, "must end with"@, "expected "@]
}

/// Whether a text holds one of some words, whatever the case.
pub open spec fn holds_one(text: Seq<char>, words: Seq<Seq<char>>) -> bool {
    exists|i: int| 0 <= i < words.len() && holds(lowered(text), #[trigger] words[i])
}

proof fn lemma_words(text: Seq<char>)
    ensures
        says_not_found(text) <==> holds_one(text, not_found_words()),
        says_invalid(text) <==> holds_one(text, invalid_words()),
{
    assert(not_found_words()[0] == "not found"@);
    assert(not_found_words()[1] == "no definition"@);
    assert(not_found_words()[2] == "unsupported"@);
    assert(not_found_words()[3] == "no such"@);
    assert(not_found_words()[4] == "cannot find"@);
    assert(not_found_words()[5] == "cannot read"@);
    assert(not_found_words()[6] == "no top-level"@);
    assert(not_found_words()[7] == "unknown symbol"@);
    assert(not_found_words()[8] == "no matches"@);
    assert(not_found_words()[9] == "no matching"@);
    assert(not_found_words()[10] == "no test file"@);
    assert(invalid_words()[0] == "is required"@);
    assert(invalid_words()[1] == "requires:"@);
    assert(invalid_words()[2] == "requires "@);
    assert(invalid_words()[3] == "invalid "@);
    assert(invalid_words()[4] == "unknown mode"@);
    assert(invalid_words()[5] == "must be"@);
    assert(invalid_words()[6] == "must provide"@);
    assert(invalid_words()[7] == "must end with"@);
    assert(invalid_words()[8] == "expected "@);
}

/// Whether a line says that a list is empty.
pub open spec fn says_empty(line: Seq<char>) -> bool {
    starts(lowered(trimmed(line)), "(no matching occurrences)"@) || starts(
        lowered(trimmed(line)),
        "(no matching hooks"@,
    )
}

/// What a call came to. An error is a wrong call, or something not found, or else an error.
/// An answer is cut short, speaks in its first line of something not found or of a wrong
/// call, is empty below it, or else goes by how much came back: nothing, little, or enough.
pub proof fn law_outcome_of_a_call(r: Result<Seq<char>, Seq<char>>, returned: u64)
    ensures
        match r {
            Err(e) => {
                let wrong = holds_one(e, invalid_words());
                let absent = holds_one(e, not_found_words());
                outcome_of(r, returned) == (if wrong {
                    Outcome::Invalid
                } else if absent {
                    Outcome::NotFound
                } else {
                    Outcome::Error
                })
            },
            Ok(text) => {
                let top = if lines_of(text).len() > 0 {
                    lines_of(text)[0]
                } else {
                    text
                };
                let cut = holds(text, "truncated by token_budget"@) || holds(
                    text,
                    "more; raise"@,
                );
                let absent = holds_one(top, not_found_words());
                let wrong = holds_one(top, invalid_words());
                let none = exists|i: int|
                    1 <= i < lines_of(text).len() && says_empty(#[trigger] lines_of(text)[i]);
                let o = outcome_of(r, returned);
                &&& o == Outcome::Truncated <==> cut
                &&& o == Outcome::NotFound <==> !cut && (absent || (!wrong && none))
                &&& o == Outcome::Invalid <==> !cut && !absent && wrong
                &&& o == Outcome::Empty <==> !cut && !absent && !wrong && !none && returned == 0
                &&& o == Outcome::LowYield <==> !cut && !absent && !wrong && !none && 1 <= returned
                    <= 25
                &&& o == Outcome::Good <==> !cut && !absent && !wrong && !none && returned > 25
            },
        },
{
    match r {
        Err(e) => {
            lemma_words(e);
        },
        Ok(text) => {
            lemma_words(head_line(text));
            let ls = lines_of(text);
            if empty_below(text) {
                let i = choose|i: int|
                    1 <= i < ls.len() && crate::stats::empty_line(#[trigger] ls[i]);
                assert(says_empty(ls[i]));
            }
            if exists|i: int| 1 <= i < ls.len() && says_empty(#[trigger] ls[i]) {
                let i = choose|i: int| 1 <= i < ls.len() && says_empty(#[trigger] ls[i]);
                assert(crate::stats::empty_line(ls[i]));
            }
        },
    }
}

/// What an outcome is written as.
pub proof fn law_names_of_outcomes(o: Outcome)
    ensures
        outcome_name(o) == match o {
            Outcome::Good => "ok"@,
            Outcome::Empty => "empty"@,
            Outcome::LowYield => "low_yield"@,
            Outcome::Truncated => "truncated"@,
            Outcome::Invalid => "invalid"@,
            Outcome::NotFound => "not_found"@,
            Outcome::Error => "error"@,
        },
{
}

/// Why a call came to what it did: its first line, cut to two hundred and forty characters;
/// a good call needs no reason.
pub proof fn law_reason_of_an_outcome(r: Result<Seq<char>, Seq<char>>, o: Outcome)
    ensures
        ({
            let raw = if r is Ok {
                r->Ok_0
            } else {
                r->Err_0
            };
            let line = trimmed(
                if lines_of(raw).len() > 0 {
                    lines_of(raw)[0]
                } else {
                    raw
                },
            );
            &&& reason_of(r, o) is None <==> o == Outcome::Good || line.len() == 0
            &&& o != Outcome::Good && 0 < line.len() <= 240 ==> reason_of(r, o) == Some(line)
            &&& o != Outcome::Good && line.len() > 240 ==> reason_of(r, o) == Some(
                line.take(240) + "…"@,
            )
        }),
{
}

/// What a call leaves to be counted keeps the reason that it gave itself, and else gets the
/// one of its outcome.
pub proof fn law_given_reason_stays(m: MetaView, r: Result<Seq<char>, Seq<char>>)
    ensures
        m.reason is Some ==> final_meta(Some(m), r) == m,
        m.reason is None ==> final_meta(Some(m), r) == (MetaView {
            reason: reason_of(r, outcome_of(r, m.returned)),
            ..m
        }),
        final_meta(None, r).baseline == 0 && final_meta(None, r).returned == 0,
{
}

// ---------------------------------------------------------------------------
// Counters

/// What a call adds to the counters of its tool.
pub proof fn law_call_is_counted(t: Tool, m: MetaView, us: u64, o: Outcome, ts: u64)
    requires
        has_room(t, m, us),
    ensures
        ({
            let n = counted(t, m, us, o, ts);
            let saved = if m.baseline > m.returned {
                m.baseline - m.returned
            } else {
                0
            };
            &&& n.calls == t.calls + 1
            &&& n.baseline_tokens == t.baseline_tokens + m.baseline
            &&& n.returned_tokens == t.returned_tokens + m.returned
            &&& n.total_us == t.total_us + us
            &&& n.bytes_read == t.bytes_read + m.bytes_read
            &&& n.cache_hits == t.cache_hits + m.cache_hits
            &&& n.cache_misses == t.cache_misses + m.cache_misses
            &&& n.last_ts == ts
            &&& n.peak_baseline >= t.peak_baseline && n.peak_baseline >= m.baseline && (
            n.peak_baseline == t.peak_baseline || n.peak_baseline == m.baseline)
            &&& n.peak_returned >= t.peak_returned && n.peak_returned >= m.returned && (
            n.peak_returned == t.peak_returned || n.peak_returned == m.returned)
            &&& n.peak_saved >= t.peak_saved && n.peak_saved >= saved && (n.peak_saved
                == t.peak_saved || n.peak_saved == saved)
            &&& n.peak_us >= t.peak_us && n.peak_us >= us && (n.peak_us == t.peak_us || n.peak_us
                == us)
            &&& o == Outcome::Truncated ==> n.trunc_count == t.trunc_count + 1
            &&& o != Outcome::Truncated ==> n.trunc_count == t.trunc_count
            &&& o == Outcome::Error ==> n.error_count == t.error_count + 1
            &&& o != Outcome::Error ==> n.error_count == t.error_count
            &&& o == Outcome::LowYield ==> n.low_yield_count == t.low_yield_count + 1
            &&& o != Outcome::LowYield ==> n.low_yield_count == t.low_yield_count
            &&& o == Outcome::Invalid ==> n.invalid_count == t.invalid_count + 1
            &&& o != Outcome::Invalid ==> n.invalid_count == t.invalid_count
            &&& o == Outcome::NotFound ==> n.not_found_count == t.not_found_count + 1
            &&& o != Outcome::NotFound ==> n.not_found_count == t.not_found_count
        }),
{
}

/// A tool that was not called yet is counted from nothing.
pub proof fn law_first_call_counts_from_nothing(tools: Seq<(Seq<char>, Tool)>, name: Seq<char>)
    ensures
        at(tools, name) is None ==> {
            let t = counters(tools, name);
            &&& t.calls == 0 && t.baseline_tokens == 0 && t.returned_tokens == 0 && t.total_us == 0
            &&& t.peak_baseline == 0 && t.peak_returned == 0 && t.peak_saved == 0 && t.peak_us == 0
            &&& t.trunc_count == 0 && t.error_count == 0 && t.low_yield_count == 0
            &&& t.invalid_count == 0 && t.not_found_count == 0 && t.bytes_read == 0
            &&& t.cache_hits == 0 && t.cache_misses == 0
        },
        at(tools, name) matches Some(t) ==> counters(tools, name) == t,
{
}

/// The mean time of a call in thousandths of a second.
pub proof fn law_mean_time(t: Tool)
    ensures
        t.calls == 0 ==> mean_ms(t) == 0,
        t.calls > 0 ==> mean_ms(t) * t.calls <= t.total_us / 1000 < (mean_ms(t) + 1) * t.calls,
{
    if t.calls > 0 {
        let (x, d) = ((t.total_us / 1000) as int, t.calls as int);
        assert((x / d) * d <= x < (x / d + 1) * d) by (nonlinear_arith)
            requires
                d > 0,
                x >= 0,
        ;
    }
}

/// A tool takes more than it saves where it gives back as much as the sources hold, unless
/// those are small.
pub proof fn law_more_taken_than_saved(baseline: u64, returned: u64)
    ensures
        net_negative(baseline, returned) <==> baseline >= 500 && !(returned < baseline),
{
}

/// Times that were kept in thousandths are read where none are kept in millionths.
pub proof fn law_times_are_read(j: Json, us: Seq<char>, ms: Seq<char>)
    ensures
        u64_or(j, us, 0) > 0 ==> micros(j, us, ms) == u64_or(j, us, 0),
        u64_or(j, us, 0) == 0 && u64_or(j, ms, 0) * 1000 <= u64::MAX ==> micros(j, us, ms)
            == u64_or(j, ms, 0) * 1000,
        u64_or(j, us, 0) == 0 && u64_or(j, ms, 0) * 1000 > u64::MAX ==> micros(j, us, ms)
            == u64::MAX,
{
}

// ---------------------------------------------------------------------------
// What is kept

/// What is kept of a call.
pub proof fn law_call_is_kept(
    tool: Seq<char>,
    us: u64,
    o: Outcome,
    ts: u64,
    workspace: Seq<char>,
    m: MetaView,
    version: Seq<char>,
)
    ensures
        ({
            let e = event_for(tool, us, o, ts, workspace, m, version);
            &&& e.tool == tool && e.ts == ts && e.elapsed_us == us
            &&& e.outcome == outcome_name(o) && e.reason == m.reason
            &&& e.baseline == m.baseline && e.returned == m.returned
            &&& e.bytes_read == m.bytes_read && e.cache_hits == m.cache_hits && e.cache_misses
                == m.cache_misses
            &&& e.workspace_id == workspace && e.wordkeep_version == version
        }),
{
}

/// Up to two hundred calls are kept, the latest.
pub proof fn law_latest_two_hundred_calls(s: Seq<EventView>)
    ensures
        s.len() <= 200 ==> ring(s) == s,
        s.len() > 200 ==> ring(s).len() == 200 && forall|i: int|
            0 <= i < 200 ==> #[trigger] ring(s)[i] == s[s.len() - 200 + i],
{
}

/// A call that is observed waits to be written, and leaves the rest of the store alone.
pub proof fn law_observed_call_waits(
    s: StoreView,
    tool: Seq<char>,
    us: u64,
    o: Outcome,
    ts: u64,
    workspace: Seq<char>,
    m: MetaView,
    version: Seq<char>,
)
    requires
        s.pending_flush < u64::MAX,
    ensures
        ({
            let t = observed(s, tool, us, o, ts, workspace, m, version);
            &&& t.pending_flush == s.pending_flush + 1
            &&& t.since == s.since && t.registry == s.registry && t.workspace_id == s.workspace_id
            &&& t.saved_workspace_id == s.saved_workspace_id
            &&& t.events == ring(s.events.push(event_for(tool, us, o, ts, workspace, m, version)))
        }),
{
}

/// Which calls count: those after a time, where one is given, that belong to a workspace
/// or to none.
pub proof fn law_calls_that_count(
    s: Seq<EventView>,
    since: u64,
    workspace: Seq<char>,
    n: nat,
    e: EventView,
)
    requires
        n <= s.len(),
    ensures
        events_from(s, since, workspace, n).contains(e) <==> s.take(n as int).contains(e) && !(since
            > 0 && e.ts <= since) && !(e.workspace_id.len() > 0 && e.workspace_id != workspace),
    decreases n,
{
    if n > 0 {
        let m = (n - 1) as nat;
        law_calls_that_count(s, since, workspace, m, e);
        lemma_contains_push(events_from(s, since, workspace, m), s[n - 1], e);
        assert(s.take(n as int) =~= s.take(m as int).push(s[n - 1]));
        lemma_contains_push(s.take(m as int), s[n - 1], e);
        assert(event_counts(s[n - 1], since, workspace) <==> !(since > 0 && s[n - 1].ts <= since)
            && !(s[n - 1].workspace_id.len() > 0 && s[n - 1].workspace_id != workspace));
    }
}

/// Tools that are on offer stay, and all do where it is not known which are.
pub proof fn law_tools_on_offer_stay(
    tools: Seq<(Seq<char>, Tool)>,
    reg: Seq<Seq<char>>,
    n: nat,
    x: (Seq<char>, Tool),
)
    requires
        n <= tools.len(),
    ensures
        pruned(tools, reg, n).contains(x) <==> (reg.len() == 0 || reg.contains(x.0)) && exists|
            i: int,
        |
            0 <= i < n && (#[trigger] tools[i]).0 == x.0 && x.1 == settled_tool(x.0, tools[i].1),
    decreases n,
{
    if n > 0 {
        let m = (n - 1) as nat;
        law_tools_on_offer_stay(tools, reg, m, x);
        let y = (tools[n - 1].0, settled_tool(tools[n - 1].0, tools[n - 1].1));
        lemma_contains_push(pruned(tools, reg, m), y, x);
        assert(crate::text::among(reg, tools[n - 1].0) <==> reg.contains(tools[n - 1].0));
        if exists|i: int|
            0 <= i < m && (#[trigger] tools[i]).0 == x.0 && x.1 == settled_tool(x.0, tools[i].1) {
            let i = choose|i: int|
                0 <= i < m && (#[trigger] tools[i]).0 == x.0 && x.1 == settled_tool(
                    x.0,
                    tools[i].1,
                );
            assert(tools[i].0 == x.0);
        }
        if x == y {
            assert(tools[n - 1].0 == x.0);
        }
    }
}

} // verus!

//! What tool calls cost and what they save: counters for each tool, the latest
//! calls, and the document that keeps both.
use vstd::prelude::*;
use crate::json::{add_member, array, as_array, as_object, build, get, get_items, get_str};
use crate::json::{lemma_record_get, members, no_members, number_or, object, record as json_record};
use crate::json::{str_or, str_value, string_or, u64_or, views, Datum, Json};
use crate::smap::{ascending, at, put, StrMap};
use crate::text::{contains, copy, copy_opt, first_chars, holds, is_among, among, is_blank, lex_lt, lines};
use crate::text::{lines_of, lower_ascii, lowered, opt_text, same, starts, starts_with, strs, take_chars};
use crate::text::{to_chars, trim, trimmed};

pub mod figures;
pub mod report;

verus! {

/// The latest calls that are kept.
pub const EVENT_CAP: usize = 200;

/// Answers with no more tokens than this are of low yield.
pub const LOW_YIELD_FLOOR: u64 = 25;

/// Counters are written after so many calls, or after so many milliseconds.
pub const FLUSH_EVENTS: u64 = 25;

pub const FLUSH_INTERVAL_MS: u64 = 2000;

/// The low yields of a tool are notable from this rate and number of calls on.
pub const LOW_YIELD_RATE_PCT: u64 = 25;

pub const LOW_YIELD_MIN_CALLS: u64 = 10;

pub const NET_NEGATIVE_BASELINE_FLOOR: u64 = 500;

// ---------------------------------------------------------------------------
// Outcomes

/// How a call went.
#[derive(Debug, Clone, Copy, PartialEq, Eq, Structural)]
pub enum Outcome {
    Error,
    Truncated,
    NotFound,
    Invalid,
    Empty,
    LowYield,
    Good,
}

pub open spec fn outcome_name(o: Outcome) -> Seq<char> {
    match o {
        Outcome::Error => "error"@,
        Outcome::Truncated => "truncated"@,
        Outcome::NotFound => "not_found"@,
        Outcome::Invalid => "invalid"@,
        Outcome::Empty => "empty"@,
        Outcome::LowYield => "low_yield"@,
        Outcome::Good => "ok"@,
    }
}

impl Outcome {
    pub fn as_str(self) -> (r: &'static str)
        ensures
            r@ == outcome_name(self),
    {
        match self {
            Outcome::Error => "error",
            Outcome::Truncated => "truncated",
            Outcome::NotFound => "not_found",
            Outcome::Invalid => "invalid",
            Outcome::Empty => "empty",
            Outcome::LowYield => "low_yield",
            Outcome::Good => "ok",
        }
    }
}

/// A text that says that something was not found.
pub open spec fn says_not_found(text: Seq<char>) -> bool {
    let t = lowered(text);
    ||| holds(t, "not found"@)
    ||| holds(t, "no definition"@)
    ||| holds(t, "unsupported"@)
    ||| holds(t, "no such"@)
    ||| holds(t, "cannot find"@)
    ||| holds(t, "cannot read"@)
    ||| holds(t, "no top-level"@)
    ||| holds(t, "unknown symbol"@)
    ||| holds(t, "no matches"@)
    ||| holds(t, "no matching"@)
    ||| holds(t, "no test file"@)
}

fn looks_like_not_found(text: &str) -> (r: bool)
    ensures
        r == says_not_found(text@),
{
    let low = lower_ascii(text);
    let t = low.as_str();
    contains(t, "not found") || contains(t, "no definition") || contains(t, "unsupported")
        || contains(t, "no such") || contains(t, "cannot find") || contains(t, "cannot read")
        || contains(t, "no top-level") || contains(t, "unknown symbol") || contains(t, "no matches")
        || contains(t, "no matching") || contains(t, "no test file")
}

/// A text that says that a request was not valid.
pub open spec fn says_invalid(text: Seq<char>) -> bool {
    let t = lowered(text);
    ||| holds(t, "is required"@)
    ||| holds(t, "requires:"@)
    ||| holds(t, "requires "@)
    ||| holds(t, "invalid "@)
    ||| holds(t, "unknown mode"@)
    ||| holds(t, "must be"@)
    ||| holds(t, "must provide"@)
    ||| holds(t, "must end with"@)
    ||| holds(t, "expected "@)
}

fn looks_like_invalid(text: &str) -> (r: bool)
    ensures
        r == says_invalid(text@),
{
    let low = lower_ascii(text);
    let t = low.as_str();
    contains(t, "is required") || contains(t, "requires:") || contains(t, "requires ") || contains(
        t,
        "invalid ",
    ) || contains(t, "unknown mode") || contains(t, "must be") || contains(t, "must provide")
        || contains(t, "must end with") || contains(t, "expected ")
}

/// The first line of a text.
pub open spec fn head_line(text: Seq<char>) -> Seq<char> {
    let ls = lines_of(text);
    if ls.len() > 0 {
        ls[0]
    } else {
        text
    }
}

fn first_line(text: &str) -> (r: String)
    ensures
        r@ == head_line(text@),
{
    let ls = lines(text);
    assert(strs(ls@).len() == ls@.len());
    if ls.len() > 0 {
        assert(strs(ls@)[0] == ls@[0]@);
        copy(ls[0].as_str())
    } else {
        copy(text)
    }
}

/// A line that says that nothing matched.
pub open spec fn empty_line(line: Seq<char>) -> bool {
    let t = lowered(trimmed(line));
    starts(t, "(no matching occurrences)"@) || starts(t, "(no matching hooks"@)
}

/// Whether a line behind the first says that nothing matched.
pub open spec fn empty_below(text: Seq<char>) -> bool {
    exists|i: int| 1 <= i < lines_of(text).len() && empty_line(#[trigger] lines_of(text)[i])
}

fn says_empty_below(text: &str) -> (r: bool)
    ensures
        r == empty_below(text@),
{
    let ls = lines(text);
    let ghost lv = lines_of(text@);
    assert(lv.len() == ls@.len());
    let mut i: usize = 1;
    while i < ls.len()
        invariant
            1 <= i,
            lv == strs(ls@),
            lv == lines_of(text@),
            forall|k: int| 1 <= k < i && k < lv.len() ==> !empty_line(#[trigger] lv[k]),
        decreases ls@.len() - i,
    {
        assert(lv[i as int] == ls@[i as int]@);
        let low = lower_ascii(trim(ls[i].as_str()).as_str());
        if starts_with(low.as_str(), "(no matching occurrences)") || starts_with(
            low.as_str(),
            "(no matching hooks",
        ) {
            assert(empty_line(lv[i as int]));
            return true;
        }
        i += 1;
    }
    false
}

/// How a call went, by its answer. Of an answer only the first line tells that
/// something was not found or not valid; what follows may be quoted text.
pub open spec fn outcome_of(r: Result<Seq<char>, Seq<char>>, returned: u64) -> Outcome {
    match r {
        Err(e) => if says_invalid(e) {
            Outcome::Invalid
        } else if says_not_found(e) {
            Outcome::NotFound
        } else {
            Outcome::Error
        },
        Ok(text) => if holds(text, "truncated by token_budget"@) || holds(text, "more; raise"@) {
            Outcome::Truncated
        } else if says_not_found(head_line(text)) {
            Outcome::NotFound
        } else if says_invalid(head_line(text)) {
            Outcome::Invalid
        } else if empty_below(text) {
            Outcome::NotFound
        } else if returned == 0 {
            Outcome::Empty
        } else if returned <= LOW_YIELD_FLOOR {
            Outcome::LowYield
        } else {
            Outcome::Good
        },
    }
}

pub fn classify_outcome(result: &Result<String, String>, returned_tokens: u64) -> (r: Outcome)
    ensures
        r == outcome_of(crate::text::outcome(*result), returned_tokens),
{
    match result {
        Err(e) => if looks_like_invalid(e.as_str()) {
            Outcome::Invalid
        } else if looks_like_not_found(e.as_str()) {
            Outcome::NotFound
        } else {
            Outcome::Error
        },
        Ok(text) => {
            if contains(text.as_str(), "truncated by token_budget") || contains(
                text.as_str(),
                "more; raise",
            ) {
                return Outcome::Truncated;
            }
            let header = first_line(text.as_str());
            if looks_like_not_found(header.as_str()) {
                return Outcome::NotFound;
            }
            if looks_like_invalid(header.as_str()) {
                return Outcome::Invalid;
            }
            if says_empty_below(text.as_str()) {
                return Outcome::NotFound;
            }
            if returned_tokens == 0 {
                Outcome::Empty
            } else if returned_tokens <= LOW_YIELD_FLOOR {
                Outcome::LowYield
            } else {
                Outcome::Good
            }
        },
    }
}

/// Why a call went as it did: the first line of its answer, cut short.
pub open spec fn reason_of(r: Result<Seq<char>, Seq<char>>, o: Outcome) -> Option<Seq<char>> {
    let raw = match r {
        Ok(t) => t,
        Err(e) => e,
    };
    let line = trimmed(head_line(raw));
    if o == Outcome::Good || line.len() == 0 {
        None
    } else if line.len() > 240 {
        Some(first_chars(line, 240) + "…"@)
    } else {
        Some(line)
    }
}

pub fn outcome_reason(result: &Result<String, String>, outcome: Outcome) -> (r: Option<String>)
    ensures
        opt_text(r) == reason_of(crate::text::outcome(*result), outcome),
{
    if outcome == Outcome::Good {
        return None;
    }
    let raw = match result {
        Ok(t) => t,
        Err(e) => e,
    };
    let line = trim(first_line(raw.as_str()).as_str());
    if is_blank(line.as_str()) {
        return None;
    }
    let n: usize = to_chars(line.as_str()).len();
    if n > 240 {
        let mut t = take_chars(line.as_str(), 240);
        t.append("…");
        Some(t)
    } else {
        Some(line)
    }
}

// ---------------------------------------------------------------------------
// What a call reports

/// What a call says about itself.
#[derive(Debug)]
pub struct RecordMeta {
    pub baseline: u64,
    pub returned: u64,
    pub bytes_read: u64,
    pub cache_hits: u64,
    pub cache_misses: u64,
    pub reason: Option<String>,
}

#[verifier::ext_equal]
pub struct MetaView {
    pub baseline: u64,
    pub returned: u64,
    pub bytes_read: u64,
    pub cache_hits: u64,
    pub cache_misses: u64,
    pub reason: Option<Seq<char>>,
}

impl View for RecordMeta {
    type V = MetaView;

    open spec fn view(&self) -> MetaView {
        MetaView {
            baseline: self.baseline,
            returned: self.returned,
            bytes_read: self.bytes_read,
            cache_hits: self.cache_hits,
            cache_misses: self.cache_misses,
            reason: opt_text(self.reason),
        }
    }
}

pub open spec fn no_meta() -> MetaView {
    MetaView {
        baseline: 0,
        returned: 0,
        bytes_read: 0,
        cache_hits: 0,
        cache_misses: 0,
        reason: None,
    }
}

impl Default for RecordMeta {
    fn default() -> (r: RecordMeta)
        ensures
            r@ == no_meta(),
    {
        RecordMeta {
            baseline: 0,
            returned: 0,
            bytes_read: 0,
            cache_hits: 0,
            cache_misses: 0,
            reason: None,
        }
    }
}

/// What the call that runs has reported so far.
pub struct Pending {
    pub meta: Option<RecordMeta>,
}

pub open spec fn meta_of(p: Pending) -> Option<MetaView> {
    match p.meta {
        Some(m) => Some(m@),
        None => None,
    }
}

/// Reports the tokens of a call; the last report counts.
pub fn record(p: &mut Pending, tool: &str, baseline_tokens: u64, returned_tokens: u64)
    ensures
        meta_of(*final(p)) == Some(
            MetaView { baseline: baseline_tokens, returned: returned_tokens, ..no_meta() },
        ),
{
    let mut meta = RecordMeta::default();
    meta.baseline = baseline_tokens;
    meta.returned = returned_tokens;
    record_ext(p, tool, meta);
}

/// Reports all there is to say about a call.
pub fn record_ext(p: &mut Pending, tool: &str, meta: RecordMeta)
    ensures
        meta_of(*final(p)) == Some(meta@),
{
    let _ = tool;
    p.meta = Some(meta);
}

// ---------------------------------------------------------------------------
// Counters

/// The counters of a tool.
#[derive(Debug, Clone, Copy)]
pub struct Tool {
    pub calls: u64,
    pub baseline_tokens: u64,
    pub returned_tokens: u64,
    pub peak_baseline: u64,
    pub peak_returned: u64,
    pub peak_saved: u64,
    pub last_ts: u64,
    pub total_us: u64,
    pub peak_us: u64,
    pub trunc_count: u64,
    pub error_count: u64,
    pub low_yield_count: u64,
    pub bytes_read: u64,
    pub cache_hits: u64,
    pub cache_misses: u64,
    pub invalid_count: u64,
    pub not_found_count: u64,
}

impl View for Tool {
    type V = Tool;

    open spec fn view(&self) -> Tool {
        *self
    }
}

pub open spec fn unused() -> Tool {
    Tool {
        calls: 0,
        baseline_tokens: 0,
        returned_tokens: 0,
        peak_baseline: 0,
        peak_returned: 0,
        peak_saved: 0,
        last_ts: 0,
        total_us: 0,
        peak_us: 0,
        trunc_count: 0,
        error_count: 0,
        low_yield_count: 0,
        bytes_read: 0,
        cache_hits: 0,
        cache_misses: 0,
        invalid_count: 0,
        not_found_count: 0,
    }
}

impl Default for Tool {
    fn default() -> (r: Tool)
        ensures
            r == unused(),
    {
        Tool {
            calls: 0,
            baseline_tokens: 0,
            returned_tokens: 0,
            peak_baseline: 0,
            peak_returned: 0,
            peak_saved: 0,
            last_ts: 0,
            total_us: 0,
            peak_us: 0,
            trunc_count: 0,
            error_count: 0,
            low_yield_count: 0,
            bytes_read: 0,
            cache_hits: 0,
            cache_misses: 0,
            invalid_count: 0,
            not_found_count: 0,
        }
    }
}

pub open spec fn larger(a: u64, b: u64) -> u64 {
    if a < b {
        b
    } else {
        a
    }
}

/// What is left of `a` without `b`, if anything is.
pub open spec fn less_by(a: u64, b: u64) -> u64 {
    if a < b {
        0
    } else {
        (a - b) as u64
    }
}

fn max(a: u64, b: u64) -> (r: u64)
    ensures
        r == larger(a, b),
{
    if a < b {
        b
    } else {
        a
    }
}

pub fn saved(baseline: u64, returned: u64) -> (r: u64)
    ensures
        r == less_by(baseline, returned),
{
    if baseline < returned {
        0
    } else {
        baseline - returned
    }
}

/// Whether the counters have room for one more call.
pub open spec fn has_room(t: Tool, m: MetaView, elapsed_us: u64) -> bool {
    &&& t.calls < u64::MAX
    &&& t.baseline_tokens + m.baseline <= u64::MAX
    &&& t.returned_tokens + m.returned <= u64::MAX
    &&& t.total_us + elapsed_us <= u64::MAX
    &&& t.bytes_read + m.bytes_read <= u64::MAX
    &&& t.cache_hits + m.cache_hits <= u64::MAX
    &&& t.cache_misses + m.cache_misses <= u64::MAX
    &&& t.trunc_count < u64::MAX
    &&& t.error_count < u64::MAX
    &&& t.low_yield_count < u64::MAX
    &&& t.not_found_count < u64::MAX
    &&& t.invalid_count < u64::MAX
}

pub open spec fn one_if(b: bool) -> int {
    if b {
        1
    } else {
        0
    }
}

/// The counters after one more call.
pub open spec fn counted(t: Tool, m: MetaView, elapsed_us: u64, o: Outcome, ts: u64) -> Tool {
    Tool {
        calls: (t.calls + 1) as u64,
        baseline_tokens: (t.baseline_tokens + m.baseline) as u64,
        returned_tokens: (t.returned_tokens + m.returned) as u64,
        peak_baseline: larger(t.peak_baseline, m.baseline),
        peak_returned: larger(t.peak_returned, m.returned),
        peak_saved: larger(t.peak_saved, less_by(m.baseline, m.returned)),
        last_ts: ts,
        total_us: (t.total_us + elapsed_us) as u64,
        peak_us: larger(t.peak_us, elapsed_us),
        trunc_count: (t.trunc_count + one_if(o == Outcome::Truncated)) as u64,
        error_count: (t.error_count + one_if(o == Outcome::Error)) as u64,
        low_yield_count: (t.low_yield_count + one_if(o == Outcome::LowYield)) as u64,
        bytes_read: (t.bytes_read + m.bytes_read) as u64,
        cache_hits: (t.cache_hits + m.cache_hits) as u64,
        cache_misses: (t.cache_misses + m.cache_misses) as u64,
        invalid_count: (t.invalid_count + one_if(o == Outcome::Invalid)) as u64,
        not_found_count: (t.not_found_count + one_if(o == Outcome::NotFound)) as u64,
    }
}

fn room(a: u64, b: u64) -> (r: bool)
    ensures
        r == (a + b <= u64::MAX),
{
    a <= u64::MAX - b
}

impl Tool {
    pub fn can_observe(&self, elapsed_us: u64, meta: &RecordMeta) -> (r: bool)
        ensures
            r == has_room(*self, meta@, elapsed_us),
    {
        room(self.calls, 1) && room(self.baseline_tokens, meta.baseline) && room(
            self.returned_tokens,
            meta.returned,
        ) && room(self.total_us, elapsed_us) && room(self.bytes_read, meta.bytes_read) && room(
            self.cache_hits,
            meta.cache_hits,
        ) && room(self.cache_misses, meta.cache_misses) && room(self.trunc_count, 1) && room(
            self.error_count,
            1,
        ) && room(self.low_yield_count, 1) && room(self.not_found_count, 1) && room(
            self.invalid_count,
            1,
        )
    }

    /// Counts a call. The tokens given here take the place of those in `meta`.
    pub fn observe(
        &mut self,
        baseline: u64,
        returned: u64,
        elapsed_us: u64,
        outcome: Outcome,
        ts: u64,
        meta: &RecordMeta,
    )
        requires
            has_room(
                *old(self),
                (MetaView { baseline, returned, ..meta@ }),
                elapsed_us,
            ),
        ensures
            *final(self) == counted(
                *old(self),
                (MetaView { baseline, returned, ..meta@ }),
                elapsed_us,
                outcome,
                ts,
            ),
    {
        self.calls = self.calls + 1;
        self.baseline_tokens = self.baseline_tokens + baseline;
        self.returned_tokens = self.returned_tokens + returned;
        self.peak_baseline = max(self.peak_baseline, baseline);
        self.peak_returned = max(self.peak_returned, returned);
        self.peak_saved = max(self.peak_saved, saved(baseline, returned));
        self.last_ts = ts;
        self.total_us = self.total_us + elapsed_us;
        self.peak_us = max(self.peak_us, elapsed_us);
        self.bytes_read = self.bytes_read + meta.bytes_read;
        self.cache_hits = self.cache_hits + meta.cache_hits;
        self.cache_misses = self.cache_misses + meta.cache_misses;
        match outcome {
            Outcome::Truncated => {
                self.trunc_count = self.trunc_count + 1;
            },
            Outcome::Error => {
                self.error_count = self.error_count + 1;
            },
            Outcome::LowYield => {
                self.low_yield_count = self.low_yield_count + 1;
            },
            Outcome::NotFound => {
                self.not_found_count = self.not_found_count + 1;
            },
            Outcome::Invalid => {
                self.invalid_count = self.invalid_count + 1;
            },
            Outcome::Empty => {},
            Outcome::Good => {},
        }
    }

    pub fn total_ms(&self) -> (r: u64)
        ensures
            r == self.total_us / 1000,
    {
        self.total_us / 1000
    }

    pub fn peak_ms(&self) -> (r: u64)
        ensures
            r == self.peak_us / 1000,
    {
        self.peak_us / 1000
    }

    pub fn avg_ms(&self) -> (r: u64)
        ensures
            r == mean_ms(*self),
    {
        if self.calls == 0 {
            0
        } else {
            self.total_ms() / self.calls
        }
    }
}

/// The mean duration of a tool's calls.
pub open spec fn mean_ms(t: Tool) -> u64 {
    if t.calls == 0 {
        0
    } else {
        (t.total_us / 1000 / t.calls) as u64
    }
}

pub fn is_notable_low_yield(calls: u64, low_yield_count: u64) -> (r: bool)
    ensures
        r == (calls >= LOW_YIELD_MIN_CALLS && low_yield_count * 100 / calls as int
            >= LOW_YIELD_RATE_PCT),
{
    calls >= LOW_YIELD_MIN_CALLS && (low_yield_count as u128 * 100) / (calls as u128)
        >= LOW_YIELD_RATE_PCT as u128
}

/// Whether the answers of a tool cost more than what they stand for.
pub open spec fn net_negative(baseline: u64, returned: u64) -> bool {
    baseline >= NET_NEGATIVE_BASELINE_FLOOR && returned >= baseline
}

pub fn is_net_negative(baseline_tokens: u64, returned_tokens: u64) -> (r: bool)
    ensures
        r == net_negative(baseline_tokens, returned_tokens),
{
    baseline_tokens >= NET_NEGATIVE_BASELINE_FLOOR && returned_tokens >= baseline_tokens
}

/// The counters of outcomes grow by one at most with each call, and never by two.
pub proof fn law_one_outcome_each(t: Tool, m: MetaView, elapsed_us: u64, o: Outcome, ts: u64)
    requires
        has_room(t, m, elapsed_us),
    ensures
        ({
            let n = counted(t, m, elapsed_us, o, ts);
            let before = t.trunc_count + t.error_count + t.low_yield_count + t.invalid_count
                + t.not_found_count;
            let after = n.trunc_count + n.error_count + n.low_yield_count + n.invalid_count
                + n.not_found_count;
            &&& n.calls == t.calls + 1
            &&& after == before + one_if(o != Outcome::Good && o != Outcome::Empty)
            &&& n.peak_us >= t.peak_us && n.peak_us >= elapsed_us
        }),
{
}

// ---------------------------------------------------------------------------
// Counters as JSON

pub open spec fn tool_head(t: Tool) -> Seq<(Seq<char>, Json)> {
    seq![
        ("calls"@, Json::UInt(t.calls)),
        ("baseline_tokens"@, Json::UInt(t.baseline_tokens)),
        ("returned_tokens"@, Json::UInt(t.returned_tokens)),
        ("peak_baseline"@, Json::UInt(t.peak_baseline)),
        ("peak_returned"@, Json::UInt(t.peak_returned)),
        ("peak_saved"@, Json::UInt(t.peak_saved)),
        ("last_ts"@, Json::UInt(t.last_ts)),
        ("total_us"@, Json::UInt(t.total_us)),
        ("peak_us"@, Json::UInt(t.peak_us)),
        ("total_ms"@, Json::UInt((t.total_us / 1000) as u64)),
    ]
}

pub open spec fn tool_tail(t: Tool) -> Seq<(Seq<char>, Json)> {
    seq![
        ("peak_ms"@, Json::UInt((t.peak_us / 1000) as u64)),
        ("trunc_count"@, Json::UInt(t.trunc_count)),
        ("error_count"@, Json::UInt(t.error_count)),
        ("low_yield_count"@, Json::UInt(t.low_yield_count)),
        ("bytes_read"@, Json::UInt(t.bytes_read)),
        ("cache_hits"@, Json::UInt(t.cache_hits)),
        ("cache_misses"@, Json::UInt(t.cache_misses)),
        ("invalid_count"@, Json::UInt(t.invalid_count)),
        ("not_found_count"@, Json::UInt(t.not_found_count)),
    ]
}

pub open spec fn tool_json(t: Tool) -> Json {
    json_record(tool_head(t) + tool_tail(t))
}

fn add_head(ms: &mut Vec<(String, Datum)>, t: &Tool)
    ensures
        members(final(ms)@) == members(old(ms)@) + tool_head(*t),
{
    let ghost first = members(ms@);
    add_member(ms, "calls", Datum::UInt(t.calls));
    add_member(ms, "baseline_tokens", Datum::UInt(t.baseline_tokens));
    add_member(ms, "returned_tokens", Datum::UInt(t.returned_tokens));
    add_member(ms, "peak_baseline", Datum::UInt(t.peak_baseline));
    add_member(ms, "peak_returned", Datum::UInt(t.peak_returned));
    add_member(ms, "peak_saved", Datum::UInt(t.peak_saved));
    add_member(ms, "last_ts", Datum::UInt(t.last_ts));
    add_member(ms, "total_us", Datum::UInt(t.total_us));
    add_member(ms, "peak_us", Datum::UInt(t.peak_us));
    add_member(ms, "total_ms", Datum::UInt(t.total_ms()));
    assert(members(ms@) =~= first + tool_head(*t));
}

fn add_tail(ms: &mut Vec<(String, Datum)>, t: &Tool)
    ensures
        members(final(ms)@) == members(old(ms)@) + tool_tail(*t),
{
    let ghost first = members(ms@);
    add_member(ms, "peak_ms", Datum::UInt(t.peak_ms()));
    add_member(ms, "trunc_count", Datum::UInt(t.trunc_count));
    add_member(ms, "error_count", Datum::UInt(t.error_count));
    add_member(ms, "low_yield_count", Datum::UInt(t.low_yield_count));
    add_member(ms, "bytes_read", Datum::UInt(t.bytes_read));
    add_member(ms, "cache_hits", Datum::UInt(t.cache_hits));
    add_member(ms, "cache_misses", Datum::UInt(t.cache_misses));
    add_member(ms, "invalid_count", Datum::UInt(t.invalid_count));
    add_member(ms, "not_found_count", Datum::UInt(t.not_found_count));
    assert(members(ms@) =~= first + tool_tail(*t));
}

pub fn tool_to_value(t: &Tool) -> (r: Datum)
    ensures
        r@ == tool_json(*t),
{
    let mut ms = no_members();
    add_head(&mut ms, t);
    add_tail(&mut ms, t);
    assert(members(ms@) =~= tool_head(*t) + tool_tail(*t));
    build(ms)
}

/// A duration in microseconds; where none is given, that in milliseconds counts.
pub open spec fn micros(j: Json, us: Seq<char>, ms: Seq<char>) -> u64 {
    if u64_or(j, us, 0) == 0 {
        if u64_or(j, ms, 0) * 1000 > u64::MAX {
            u64::MAX
        } else {
            (u64_or(j, ms, 0) * 1000) as u64
        }
    } else {
        u64_or(j, us, 0)
    }
}

fn read_micros(v: &Datum, us: &str, ms: &str) -> (r: u64)
    ensures
        r == micros(v@, us@, ms@),
{
    let n: u64 = number_or(v, us, 0);
    if n == 0 {
        let m: u64 = number_or(v, ms, 0);
        if m > u64::MAX / 1000 {
            u64::MAX
        } else {
            m * 1000
        }
    } else {
        n
    }
}

/// The counters that a document keeps of a tool.
pub open spec fn tool_of(j: Json) -> Tool {
    Tool {
        calls: u64_or(j, "calls"@, 0),
        baseline_tokens: u64_or(j, "baseline_tokens"@, 0),
        returned_tokens: u64_or(j, "returned_tokens"@, 0),
        peak_baseline: u64_or(j, "peak_baseline"@, 0),
        peak_returned: u64_or(j, "peak_returned"@, 0),
        peak_saved: u64_or(j, "peak_saved"@, 0),
        last_ts: u64_or(j, "last_ts"@, 0),
        total_us: micros(j, "total_us"@, "total_ms"@),
        peak_us: micros(j, "peak_us"@, "peak_ms"@),
        trunc_count: u64_or(j, "trunc_count"@, 0),
        error_count: u64_or(j, "error_count"@, 0),
        low_yield_count: u64_or(j, "low_yield_count"@, 0),
        bytes_read: u64_or(j, "bytes_read"@, 0),
        cache_hits: u64_or(j, "cache_hits"@, 0),
        cache_misses: u64_or(j, "cache_misses"@, 0),
        invalid_count: u64_or(j, "invalid_count"@, 0),
        not_found_count: u64_or(j, "not_found_count"@, 0),
    }
}

pub fn tool_from_value(v: &Datum) -> (r: Tool)
    ensures
        r == tool_of(v@),
{
    Tool {
        calls: number_or(v, "calls", 0),
        baseline_tokens: number_or(v, "baseline_tokens", 0),
        returned_tokens: number_or(v, "returned_tokens", 0),
        peak_baseline: number_or(v, "peak_baseline", 0),
        peak_returned: number_or(v, "peak_returned", 0),
        peak_saved: number_or(v, "peak_saved", 0),
        last_ts: number_or(v, "last_ts", 0),
        total_us: read_micros(v, "total_us", "total_ms"),
        peak_us: read_micros(v, "peak_us", "peak_ms"),
        trunc_count: number_or(v, "trunc_count", 0),
        error_count: number_or(v, "error_count", 0),
        low_yield_count: number_or(v, "low_yield_count", 0),
        bytes_read: number_or(v, "bytes_read", 0),
        cache_hits: number_or(v, "cache_hits", 0),
        cache_misses: number_or(v, "cache_misses", 0),
        invalid_count: number_or(v, "invalid_count", 0),
        not_found_count: number_or(v, "not_found_count", 0),
    }
}

pub open spec fn tool_keys() -> Seq<Seq<char>> {
    seq![
        "calls"@,
        "baseline_tokens"@,
        "returned_tokens"@,
        "peak_baseline"@,
        "peak_returned"@,
        "peak_saved"@,
        "last_ts"@,
        "total_us"@,
        "peak_us"@,
        "total_ms"@,
        "peak_ms"@,
        "trunc_count"@,
        "error_count"@,
        "low_yield_count"@,
        "bytes_read"@,
        "cache_hits"@,
        "cache_misses"@,
        "invalid_count"@,
        "not_found_count"@,
    ]
}

#[verifier::rlimit(50)]
proof fn lemma_tool_keys()
    ensures
        forall|i: int, j: int|
            0 <= i < j < tool_keys().len() ==> (#[trigger] tool_keys()[i]) != (
            #[trigger] tool_keys()[j]),
{
    reveal_strlit("calls");
    reveal_strlit("baseline_tokens");
    reveal_strlit("returned_tokens");
    reveal_strlit("peak_baseline");
    reveal_strlit("peak_returned");
    reveal_strlit("peak_saved");
    reveal_strlit("last_ts");
    reveal_strlit("total_us");
    reveal_strlit("peak_us");
    reveal_strlit("total_ms");
    reveal_strlit("peak_ms");
    reveal_strlit("trunc_count");
    reveal_strlit("error_count");
    reveal_strlit("low_yield_count");
    reveal_strlit("bytes_read");
    reveal_strlit("cache_hits");
    reveal_strlit("cache_misses");
    reveal_strlit("invalid_count");
    reveal_strlit("not_found_count");
    assert("calls"@.len() == 5);
    assert("baseline_tokens"@.len() == 15 && "baseline_tokens"@[0] == 'b');
    assert("returned_tokens"@.len() == 15 && "returned_tokens"@[0] == 'r');
    assert("low_yield_count"@.len() == 15 && "low_yield_count"@[0] == 'l');
    assert("not_found_count"@.len() == 15 && "not_found_count"@[0] == 'n');
    assert("peak_baseline"@.len() == 13 && "peak_baseline"@[5] == 'b');
    assert("peak_returned"@.len() == 13 && "peak_returned"@[5] == 'r');
    assert("invalid_count"@.len() == 13 && "invalid_count"@[5] == 'i');
    assert("peak_saved"@.len() == 10 && "peak_saved"@[0] == 'p');
    assert("bytes_read"@.len() == 10 && "bytes_read"@[0] == 'b');
    assert("cache_hits"@.len() == 10 && "cache_hits"@[0] == 'c');
    assert("last_ts"@.len() == 7 && "last_ts"@[5] == 't');
    assert("peak_us"@.len() == 7 && "peak_us"@[5] == 'u');
    assert("peak_ms"@.len() == 7 && "peak_ms"@[5] == 'm');
    assert("total_us"@.len() == 8 && "total_us"@[6] == 'u');
    assert("total_ms"@.len() == 8 && "total_ms"@[6] == 'm');
    assert("trunc_count"@.len() == 11 && "trunc_count"@[0] == 't');
    assert("error_count"@.len() == 11 && "error_count"@[0] == 'e');
    assert("cache_misses"@.len() == 12);
}

/// The counters of a tool come back as they were kept.
pub proof fn law_tool_round_trip(t: Tool)
    ensures
        tool_of(tool_json(t)) == t,
{
    let ms = tool_head(t) + tool_tail(t);
    let j = tool_json(t);
    lemma_tool_keys();
    assert forall|i: int, k: int| 0 <= i < k < ms.len() implies (#[trigger] ms[i]).0 != (
    #[trigger] ms[k]).0 by {
        assert(ms[i].0 == tool_keys()[i]);
        assert(ms[k].0 == tool_keys()[k]);
    }
    assert forall|i: int| 0 <= i < ms.len() implies get(j, (#[trigger] ms[i]).0) == Some(
        ms[i].1,
    ) by {
        lemma_record_get(ms, i);
    }
    assert(get(j, ms[0].0) == Some(ms[0].1));
    assert(get(j, ms[1].0) == Some(ms[1].1));
    assert(get(j, ms[2].0) == Some(ms[2].1));
    assert(get(j, ms[3].0) == Some(ms[3].1));
    assert(get(j, ms[4].0) == Some(ms[4].1));
    assert(get(j, ms[5].0) == Some(ms[5].1));
    assert(get(j, ms[6].0) == Some(ms[6].1));
    assert(get(j, ms[7].0) == Some(ms[7].1));
    assert(get(j, ms[8].0) == Some(ms[8].1));
    assert(get(j, ms[9].0) == Some(ms[9].1));
    assert(get(j, ms[10].0) == Some(ms[10].1));
    assert(get(j, ms[11].0) == Some(ms[11].1));
    assert(get(j, ms[12].0) == Some(ms[12].1));
    assert(get(j, ms[13].0) == Some(ms[13].1));
    assert(get(j, ms[14].0) == Some(ms[14].1));
    assert(get(j, ms[15].0) == Some(ms[15].1));
    assert(get(j, ms[16].0) == Some(ms[16].1));
    assert(get(j, ms[17].0) == Some(ms[17].1));
    assert(get(j, ms[18].0) == Some(ms[18].1));
}

// ---------------------------------------------------------------------------
// Events

/// One call.
pub struct Event {
    pub ts: u64,
    pub tool: String,
    pub baseline: u64,
    pub returned: u64,
    pub elapsed_us: u64,
    pub outcome: String,
    pub reason: Option<String>,
    pub workspace_id: String,
    pub bytes_read: u64,
    pub cache_hits: u64,
    pub cache_misses: u64,
    pub wordkeep_version: String,
}

#[verifier::ext_equal]
pub struct EventView {
    pub ts: u64,
    pub tool: Seq<char>,
    pub baseline: u64,
    pub returned: u64,
    pub elapsed_us: u64,
    pub outcome: Seq<char>,
    pub reason: Option<Seq<char>>,
    pub workspace_id: Seq<char>,
    pub bytes_read: u64,
    pub cache_hits: u64,
    pub cache_misses: u64,
    pub wordkeep_version: Seq<char>,
}

impl View for Event {
    type V = EventView;

    open spec fn view(&self) -> EventView {
        EventView {
            ts: self.ts,
            tool: self.tool@,
            baseline: self.baseline,
            returned: self.returned,
            elapsed_us: self.elapsed_us,
            outcome: self.outcome@,
            reason: opt_text(self.reason),
            workspace_id: self.workspace_id@,
            bytes_read: self.bytes_read,
            cache_hits: self.cache_hits,
            cache_misses: self.cache_misses,
            wordkeep_version: self.wordkeep_version@,
        }
    }
}

pub open spec fn event_views(v: Seq<Event>) -> Seq<EventView> {
    Seq::new(v.len(), |i: int| v[i]@)
}

impl Event {
    pub fn elapsed_ms(&self) -> (r: u64)
        ensures
            r == self.elapsed_us / 1000,
    {
        self.elapsed_us / 1000
    }

    pub fn copy(&self) -> (r: Event)
        ensures
            r@ == self@,
    {
        Event {
            ts: self.ts,
            tool: copy(self.tool.as_str()),
            baseline: self.baseline,
            returned: self.returned,
            elapsed_us: self.elapsed_us,
            outcome: copy(self.outcome.as_str()),
            reason: copy_opt(&self.reason),
            workspace_id: copy(self.workspace_id.as_str()),
            bytes_read: self.bytes_read,
            cache_hits: self.cache_hits,
            cache_misses: self.cache_misses,
            wordkeep_version: copy(self.wordkeep_version.as_str()),
        }
    }
}

pub open spec fn event_head(e: EventView) -> Seq<(Seq<char>, Json)> {
    seq![
        ("ts"@, Json::UInt(e.ts)),
        ("tool"@, Json::Str(e.tool)),
        ("baseline"@, Json::UInt(e.baseline)),
        ("returned"@, Json::UInt(e.returned)),
        ("elapsed_us"@, Json::UInt(e.elapsed_us)),
        ("outcome"@, Json::Str(e.outcome)),
    ]
}

pub open spec fn event_tail(e: EventView) -> Seq<(Seq<char>, Json)> {
    seq![
        ("workspace_id"@, Json::Str(e.workspace_id)),
        ("bytes_read"@, Json::UInt(e.bytes_read)),
        ("cache_hits"@, Json::UInt(e.cache_hits)),
        ("cache_misses"@, Json::UInt(e.cache_misses)),
        ("wordkeep_version"@, Json::Str(e.wordkeep_version)),
    ]
}

pub open spec fn event_reason(e: EventView) -> Seq<(Seq<char>, Json)> {
    match e.reason {
        Some(r) => seq![("reason"@, Json::Str(r))],
        None => Seq::empty(),
    }
}

/// What is kept of a call.
pub open spec fn event_json(e: EventView) -> Json {
    json_record(event_head(e) + event_tail(e) + event_reason(e))
}

pub fn event_to_value(e: &Event) -> (r: Datum)
    ensures
        r@ == event_json(e@),
{
    let mut ms = no_members();
    add_member(&mut ms, "ts", Datum::UInt(e.ts));
    add_member(&mut ms, "tool", str_value(e.tool.as_str()));
    add_member(&mut ms, "baseline", Datum::UInt(e.baseline));
    add_member(&mut ms, "returned", Datum::UInt(e.returned));
    add_member(&mut ms, "elapsed_us", Datum::UInt(e.elapsed_us));
    add_member(&mut ms, "outcome", str_value(e.outcome.as_str()));
    assert(members(ms@) =~= event_head(e@));
    add_member(&mut ms, "workspace_id", str_value(e.workspace_id.as_str()));
    add_member(&mut ms, "bytes_read", Datum::UInt(e.bytes_read));
    add_member(&mut ms, "cache_hits", Datum::UInt(e.cache_hits));
    add_member(&mut ms, "cache_misses", Datum::UInt(e.cache_misses));
    add_member(&mut ms, "wordkeep_version", str_value(e.wordkeep_version.as_str()));
    assert(members(ms@) =~= event_head(e@) + event_tail(e@));
    match &e.reason {
        Some(r) => {
            add_member(&mut ms, "reason", str_value(r.as_str()));
        },
        None => {},
    }
    assert(members(ms@) =~= event_head(e@) + event_tail(e@) + event_reason(e@));
    build(ms)
}

/// The call that was kept; nothing where it names no tool.
pub open spec fn event_of(j: Json) -> Option<EventView> {
    let tool = str_or(j, "tool"@, ""@);
    if tool.len() == 0 {
        None
    } else {
        Some(
            EventView {
                ts: u64_or(j, "ts"@, 0),
                tool,
                baseline: u64_or(j, "baseline"@, 0),
                returned: u64_or(j, "returned"@, 0),
                elapsed_us: micros(j, "elapsed_us"@, "elapsed_ms"@),
                outcome: str_or(j, "outcome"@, "ok"@),
                reason: crate::json::as_str(get(j, "reason"@)),
                workspace_id: str_or(j, "workspace_id"@, ""@),
                bytes_read: u64_or(j, "bytes_read"@, 0),
                cache_hits: u64_or(j, "cache_hits"@, 0),
                cache_misses: u64_or(j, "cache_misses"@, 0),
                wordkeep_version: str_or(j, "wordkeep_version"@, ""@),
            },
        )
    }
}

pub open spec fn opt_event(e: Option<Event>) -> Option<EventView> {
    match e {
        Some(e) => Some(e@),
        None => None,
    }
}

pub fn event_from_value(v: &Datum) -> (r: Option<Event>)
    ensures
        opt_event(r) == event_of(v@),
{
    let tool = string_or(v, "tool", "");
    if is_blank(tool.as_str()) {
        return None;
    }
    Some(
        Event {
            ts: number_or(v, "ts", 0),
            tool,
            baseline: number_or(v, "baseline", 0),
            returned: number_or(v, "returned", 0),
            elapsed_us: read_micros(v, "elapsed_us", "elapsed_ms"),
            outcome: string_or(v, "outcome", "ok"),
            reason: match get_str(v, "reason") {
                Some(s) => Some(copy(s.as_str())),
                None => None,
            },
            workspace_id: string_or(v, "workspace_id", ""),
            bytes_read: number_or(v, "bytes_read", 0),
            cache_hits: number_or(v, "cache_hits", 0),
            cache_misses: number_or(v, "cache_misses", 0),
            wordkeep_version: string_or(v, "wordkeep_version", ""),
        },
    )
}

pub open spec fn event_keys() -> Seq<Seq<char>> {
    seq![
        "ts"@,
        "tool"@,
        "baseline"@,
        "returned"@,
        "elapsed_us"@,
        "outcome"@,
        "workspace_id"@,
        "bytes_read"@,
        "cache_hits"@,
        "cache_misses"@,
        "wordkeep_version"@,
        "reason"@,
        "elapsed_ms"@,
    ]
}

proof fn lemma_event_keys()
    ensures
        forall|i: int, j: int|
            0 <= i < j < event_keys().len() ==> (#[trigger] event_keys()[i]) != (
            #[trigger] event_keys()[j]),
{
    reveal_strlit("ts");
    reveal_strlit("tool");
    reveal_strlit("baseline");
    reveal_strlit("returned");
    reveal_strlit("elapsed_us");
    reveal_strlit("outcome");
    reveal_strlit("workspace_id");
    reveal_strlit("bytes_read");
    reveal_strlit("cache_hits");
    reveal_strlit("cache_misses");
    reveal_strlit("wordkeep_version");
    reveal_strlit("reason");
    reveal_strlit("elapsed_ms");
    assert("ts"@.len() == 2);
    assert("tool"@.len() == 4);
    assert("baseline"@.len() == 8 && "baseline"@[0] == 'b');
    assert("returned"@.len() == 8 && "returned"@[0] == 'r');
    assert("elapsed_us"@.len() == 10 && "elapsed_us"@[0] == 'e' && "elapsed_us"@[8] == 'u');
    assert("elapsed_ms"@.len() == 10 && "elapsed_ms"@[0] == 'e' && "elapsed_ms"@[8] == 'm');
    assert("outcome"@.len() == 7);
    assert("workspace_id"@.len() == 12 && "workspace_id"@[0] == 'w');
    assert("bytes_read"@.len() == 10 && "bytes_read"@[0] == 'b');
    assert("cache_hits"@.len() == 10 && "cache_hits"@[0] == 'c');
    assert("cache_misses"@.len() == 12 && "cache_misses"@[0] == 'c');
    assert("wordkeep_version"@.len() == 16);
    assert("reason"@.len() == 6);
}

/// A call that names its tool comes back as it was kept.
pub proof fn law_event_round_trip(e: EventView)
    requires
        e.tool.len() > 0,
    ensures
        event_of(event_json(e)) == Some(e),
{
    let ms = event_head(e) + event_tail(e) + event_reason(e);
    let j = event_json(e);
    lemma_event_keys();
    assert forall|i: int| 0 <= i < ms.len() implies (#[trigger] ms[i]).0 == event_keys()[i] by {}
    assert forall|i: int, k: int| 0 <= i < k < ms.len() implies (#[trigger] ms[i]).0 != (
    #[trigger] ms[k]).0 by {
        assert(event_keys()[i] != event_keys()[k]);
    }
    assert forall|i: int| 0 <= i < ms.len() implies get(j, (#[trigger] ms[i]).0) == Some(
        ms[i].1,
    ) by {
        lemma_record_get(ms, i);
    }
    assert(get(j, ms[0].0) == Some(ms[0].1));
    assert(get(j, ms[1].0) == Some(ms[1].1));
    assert(get(j, ms[2].0) == Some(ms[2].1));
    assert(get(j, ms[3].0) == Some(ms[3].1));
    assert(get(j, ms[4].0) == Some(ms[4].1));
    assert(get(j, ms[5].0) == Some(ms[5].1));
    assert(get(j, ms[6].0) == Some(ms[6].1));
    assert(get(j, ms[7].0) == Some(ms[7].1));
    assert(get(j, ms[8].0) == Some(ms[8].1));
    assert(get(j, ms[9].0) == Some(ms[9].1));
    assert(get(j, ms[10].0) == Some(ms[10].1));
    assert forall|i: int| 0 <= i < ms.len() implies (#[trigger] ms[i]).0 != "elapsed_ms"@ by {
        assert(event_keys()[i] != event_keys()[12]);
    }
    crate::json::lemma_record_none(ms, "elapsed_ms"@);
    if e.reason is Some {
        assert(get(j, ms[11].0) == Some(ms[11].1));
    } else {
        assert forall|i: int| 0 <= i < ms.len() implies (#[trigger] ms[i]).0 != "reason"@ by {
            assert(event_keys()[i] != event_keys()[11]);
        }
        crate::json::lemma_record_none(ms, "reason"@);
    }
}

/// The events among the first `n` lines of a log. Lines that hold none are passed
/// over.
pub open spec fn events_in(lines: Seq<Seq<char>>, n: nat) -> Seq<EventView>
    decreases n,
{
    if n == 0 {
        Seq::empty()
    } else {
        let before = events_in(lines, (n - 1) as nat);
        match logged(lines[n - 1]) {
            Some(e) => before.push(e),
            None => before,
        }
    }
}

/// The event on a line of a log.
pub open spec fn logged(line: Seq<char>) -> Option<EventView> {
    if trimmed(line).len() == 0 {
        None
    } else {
        match crate::json::json_parsed(trimmed(line)) {
            Some(j) => event_of(j),
            None => None,
        }
    }
}

fn read_logged(line: &str) -> (r: Option<Event>)
    ensures
        opt_event(r) == logged(line@),
{
    let t = trim(line);
    if is_blank(t.as_str()) {
        return None;
    }
    match crate::json::parse(t.as_str()) {
        Some(v) => event_from_value(&v),
        None => None,
    }
}

/// Reads the lines of a log.
pub fn read_events(lines: &Vec<String>) -> (r: Vec<Event>)
    ensures
        event_views(r@) == events_in(strs(lines@), lines@.len()),
{
    let ghost lv = strs(lines@);
    let mut out: Vec<Event> = Vec::new();
    assert(event_views(out@) =~= Seq::<EventView>::empty());
    for i in 0..lines.len()
        invariant
            lv == strs(lines@),
            event_views(out@) == events_in(lv, i as nat),
    {
        assert(lv[i as int] == lines@[i as int]@);
        match read_logged(lines[i].as_str()) {
            Some(e) => {
                let ghost before = out@;
                out.push(e);
                assert(event_views(out@) =~= event_views(before).push(e@));
            },
            None => {},
        }
    }
    out
}

/// The line that logs an event.
pub fn event_line(e: &Event) -> (r: String)
    ensures
        r@ == crate::json::json_compact(crate::json::serde_held(event_json(e@))),
{
    crate::json::compact(&event_to_value(e))
}

/// Later than a moment, if there is one to be later than, and of a workspace or of
/// none.
pub open spec fn event_counts(e: EventView, since: u64, workspace: Seq<char>) -> bool {
    (since == 0 || e.ts > since) && (e.workspace_id.len() == 0 || e.workspace_id == workspace)
}

pub open spec fn events_from(
    s: Seq<EventView>,
    since: u64,
    workspace: Seq<char>,
    n: nat,
) -> Seq<EventView>
    decreases n,
{
    if n == 0 {
        Seq::empty()
    } else {
        let before = events_from(s, since, workspace, (n - 1) as nat);
        if event_counts(s[n - 1], since, workspace) {
            before.push(s[n - 1])
        } else {
            before
        }
    }
}

/// The events of a workspace after a moment, or all of them if the moment is 0.
pub fn events_since(events: &Vec<Event>, workspace_id: &str, since_ts: u64) -> (r: Vec<Event>)
    ensures
        event_views(r@) == events_from(
            event_views(events@),
            since_ts,
            workspace_id@,
            events@.len(),
        ),
{
    let ghost all = event_views(events@);
    let mut out: Vec<Event> = Vec::new();
    assert(event_views(out@) =~= Seq::<EventView>::empty());
    for i in 0..events.len()
        invariant
            all == event_views(events@),
            event_views(out@) == events_from(all, since_ts, workspace_id@, i as nat),
    {
        let e = &events[i];
        assert(all[i as int] == e@);
        if (since_ts == 0 || e.ts > since_ts) && (is_blank(e.workspace_id.as_str()) || same(
            e.workspace_id.as_str(),
            workspace_id,
        )) {
            let ghost before = out@;
            let c = e.copy();
            out.push(c);
            assert(event_views(out@) =~= event_views(before).push(c@));
        }
    }
    out
}

// ---------------------------------------------------------------------------
// The store

/// The counters of all tools, the latest calls, and what they belong to.
pub struct Store {
    pub since: u64,
    pub tools: StrMap<Tool>,
    pub events: Vec<Event>,
    /// Calls that were counted since the counters were last written.
    pub pending_flush: u64,
    /// The workspace that the kept document names.
    pub saved_workspace_id: String,
    /// The names of the tools on offer, once they are known.
    pub registry: Option<Vec<String>>,
    /// The workspace that calls belong to, once it is known.
    pub workspace_id: Option<String>,
}

#[verifier::ext_equal]
pub struct StoreView {
    pub since: u64,
    pub tools: Seq<(Seq<char>, Tool)>,
    pub events: Seq<EventView>,
    pub pending_flush: u64,
    pub saved_workspace_id: Seq<char>,
    pub registry: Option<Seq<Seq<char>>>,
    pub workspace_id: Option<Seq<char>>,
}

pub open spec fn opt_strs(v: Option<Vec<String>>) -> Option<Seq<Seq<char>>> {
    match v {
        Some(v) => Some(strs(v@)),
        None => None,
    }
}

impl View for Store {
    type V = StoreView;

    open spec fn view(&self) -> StoreView {
        StoreView {
            since: self.since,
            tools: self.tools@,
            events: event_views(self.events@),
            pending_flush: self.pending_flush,
            saved_workspace_id: self.saved_workspace_id@,
            registry: opt_strs(self.registry),
            workspace_id: opt_text(self.workspace_id),
        }
    }
}

pub open spec fn empty_store(now: u64) -> StoreView {
    StoreView {
        since: now,
        tools: Seq::empty(),
        events: Seq::empty(),
        pending_flush: 0,
        saved_workspace_id: ""@,
        registry: None,
        workspace_id: None,
    }
}

/// The latest of the calls.
pub open spec fn ring(s: Seq<EventView>) -> Seq<EventView> {
    if s.len() > EVENT_CAP {
        s.skip(s.len() - EVENT_CAP)
    } else {
        s
    }
}

fn drop_old(v: &mut Vec<Event>)
    ensures
        event_views(final(v)@) == ring(event_views(old(v)@)),
{
    let ghost all = event_views(v@);
    let ghost mut k: int = 0;
    assert(event_views(v@) =~= all.skip(0));
    while v.len() > EVENT_CAP
        invariant
            0 <= k <= all.len(),
            k == 0 || all.len() - k >= EVENT_CAP,
            event_views(v@) == all.skip(k),
            v@.len() == all.len() - k,
        decreases v@.len(),
    {
        let ghost before = v@;
        let _ = v.remove(0);
        assert(event_views(v@) =~= event_views(before).remove(0));
        assert(all.skip(k).remove(0) =~= all.skip(k + 1));
        proof {
            k = k + 1;
        }
    }
    assert(event_views(v@) =~= ring(all));
}

/// The tools that once reported a fixed baseline.
pub open spec fn once_flat(name: Seq<char>) -> bool {
    ||| name == "izakaya_check_in"@
    ||| name == "izakaya_check_out"@
    ||| name == "izakaya_status"@
    ||| name == "izakaya_update"@
    ||| name == "izakaya_advise"@
    ||| name == "mas_read"@
    ||| name == "mas_status"@
    ||| name == "session_handoff"@
    ||| name == "session_pressure"@
}

fn legacy_flat_baseline_tool(name: &str) -> (r: bool)
    ensures
        r == once_flat(name@),
{
    same(name, "izakaya_check_in") || same(name, "izakaya_check_out") || same(
        name,
        "izakaya_status",
    ) || same(name, "izakaya_update") || same(name, "izakaya_advise") || same(name, "mas_read")
        || same(name, "mas_status") || same(name, "session_handoff") || same(
        name,
        "session_pressure",
    )
}

/// Whether the baseline of a tool is one that was reported as fixed.
pub open spec fn flat_baseline(name: Seq<char>, t: Tool) -> bool {
    once_flat(name) && t.calls > 0 && t.baseline_tokens == (if t.calls * 64 > u64::MAX {
        u64::MAX as int
    } else {
        t.calls * 64
    })
}

/// A tool without a baseline that was reported as fixed.
pub open spec fn settled_tool(name: Seq<char>, t: Tool) -> Tool {
    if flat_baseline(name, t) {
        Tool { baseline_tokens: 0, ..t }
    } else {
        t
    }
}

/// Whether a tool is on offer; where none are known, all are.
pub open spec fn on_offer(reg: Seq<Seq<char>>, name: Seq<char>) -> bool {
    reg.len() == 0 || among(reg, name)
}

/// The first `n` tools, without those that are no longer on offer and without
/// baselines that were reported as fixed.
pub open spec fn pruned(tools: Seq<(Seq<char>, Tool)>, reg: Seq<Seq<char>>, n: nat) -> Seq<
    (Seq<char>, Tool),
>
    decreases n,
{
    if n == 0 {
        Seq::empty()
    } else {
        let before = pruned(tools, reg, (n - 1) as nat);
        let (name, t) = tools[n - 1];
        if on_offer(reg, name) {
            before.push((name, settled_tool(name, t)))
        } else {
            before
        }
    }
}

pub open spec fn registry_of(s: StoreView) -> Seq<Seq<char>> {
    match s.registry {
        Some(r) => r,
        None => Seq::empty(),
    }
}

/// The counters of a tool; those of an unknown one are zero.
pub open spec fn counters(tools: Seq<(Seq<char>, Tool)>, name: Seq<char>) -> Tool {
    match at(tools, name) {
        Some(t) => t,
        None => unused(),
    }
}

/// The event of a call.
pub open spec fn event_for(
    tool: Seq<char>,
    elapsed_us: u64,
    o: Outcome,
    ts: u64,
    workspace: Seq<char>,
    m: MetaView,
    version: Seq<char>,
) -> EventView {
    EventView {
        ts,
        tool,
        baseline: m.baseline,
        returned: m.returned,
        elapsed_us,
        outcome: outcome_name(o),
        reason: m.reason,
        workspace_id: workspace,
        bytes_read: m.bytes_read,
        cache_hits: m.cache_hits,
        cache_misses: m.cache_misses,
        wordkeep_version: version,
    }
}

/// The store after a call.
pub open spec fn observed(
    s: StoreView,
    tool: Seq<char>,
    elapsed_us: u64,
    o: Outcome,
    ts: u64,
    workspace: Seq<char>,
    m: MetaView,
    version: Seq<char>,
) -> StoreView {
    StoreView {
        tools: put(s.tools, tool, counted(counters(s.tools, tool), m, elapsed_us, o, ts)),
        events: ring(
            s.events.push(event_for(tool, elapsed_us, o, ts, workspace, m, version)),
        ),
        pending_flush: (s.pending_flush + 1) as u64,
        ..s
    }
}

/// The workspace that the document names.
pub open spec fn named_workspace(s: StoreView) -> Seq<char> {
    match s.workspace_id {
        Some(w) => if w.len() > 0 {
            w
        } else {
            s.saved_workspace_id
        },
        None => s.saved_workspace_id,
    }
}

pub open spec fn workspace_of(s: StoreView) -> Seq<char> {
    match s.workspace_id {
        Some(w) => w,
        None => ""@,
    }
}

pub open spec fn tools_json(tools: Seq<(Seq<char>, Tool)>) -> Json {
    Json::Object(tools.map_values(|kv: (Seq<char>, Tool)| (kv.0, tool_json(kv.1))))
}

pub open spec fn events_json(events: Seq<EventView>) -> Json {
    Json::Array(events.map_values(|e: EventView| event_json(e)))
}

pub open spec fn store_members(s: StoreView) -> Seq<(Seq<char>, Json)> {
    seq![
        ("version"@, Json::UInt(5)),
        ("since"@, Json::UInt(s.since)),
        ("workspace_id"@, Json::Str(named_workspace(s))),
        ("tools"@, tools_json(s.tools)),
        ("events"@, events_json(s.events)),
    ]
}

/// The document that keeps the counters and the latest calls.
pub open spec fn store_json(s: StoreView) -> Json {
    json_record(store_members(s))
}

/// The counters of the first `n` members.
pub open spec fn tools_in(ms: Seq<(Seq<char>, Json)>, n: nat) -> Seq<(Seq<char>, Tool)>
    decreases n,
{
    if n == 0 {
        Seq::empty()
    } else {
        put(tools_in(ms, (n - 1) as nat), ms[n - 1].0, tool_of(ms[n - 1].1))
    }
}

/// The calls among the first `n` items.
pub open spec fn kept_events(items: Seq<Json>, n: nat) -> Seq<EventView>
    decreases n,
{
    if n == 0 {
        Seq::empty()
    } else {
        let before = kept_events(items, (n - 1) as nat);
        match event_of(items[n - 1]) {
            Some(e) => before.push(e),
            None => before,
        }
    }
}

/// The store that a document keeps.
pub open spec fn store_of(j: Json, now: u64) -> StoreView {
    StoreView {
        since: u64_or(j, "since"@, now),
        saved_workspace_id: str_or(j, "workspace_id"@, ""@),
        tools: match as_object(get(j, "tools"@)) {
            Some(ms) => tools_in(ms, ms.len()),
            None => Seq::empty(),
        },
        events: match as_array(get(j, "events"@)) {
            Some(items) => ring(kept_events(items, items.len())),
            None => Seq::empty(),
        },
        ..empty_store(now)
    }
}

fn read_tools(v: &Datum) -> (r: StrMap<Tool>)
    ensures
        r@ == (match as_object(get(v@, "tools"@)) {
            Some(ms) => tools_in(ms, ms.len()),
            None => Seq::empty(),
        }),
        r.wf(),
{
    let mut m: StrMap<Tool> = StrMap::new();
    let tools = match v.get("tools") {
        Some(t) => t,
        None => {
            return m;
        },
    };
    match tools.fields() {
        Some(ms) => {
            let ghost all = members(ms@);
            assert(all.len() == ms@.len());
            for i in 0..ms.len()
                invariant
                    all == members(ms@),
                    m.wf(),
                    m@ == tools_in(all, i as nat),
            {
                assert(all[i as int] == (ms@[i as int].0@, ms@[i as int].1@));
                m.insert(ms[i].0.as_str(), tool_from_value(&ms[i].1));
            }
        },
        None => {},
    }
    m
}

fn read_kept_events(v: &Datum) -> (r: Vec<Event>)
    ensures
        event_views(r@) == (match as_array(get(v@, "events"@)) {
            Some(items) => ring(kept_events(items, items.len())),
            None => Seq::empty(),
        }),
{
    let mut out: Vec<Event> = Vec::new();
    assert(event_views(out@) =~= Seq::<EventView>::empty());
    match get_items(v, "events") {
        Some(items) => {
            let ghost all = views(items@);
            assert(all.len() == items@.len());
            for i in 0..items.len()
                invariant
                    all == views(items@),
                    event_views(out@) == kept_events(all, i as nat),
            {
                assert(all[i as int] == items@[i as int]@);
                match event_from_value(&items[i]) {
                    Some(e) => {
                        let ghost before = out@;
                        out.push(e);
                        assert(event_views(out@) =~= event_views(before).push(e@));
                    },
                    None => {},
                }
            }
            drop_old(&mut out);
        },
        None => {},
    }
    out
}

impl Store {
    pub open spec fn wf(&self) -> bool {
        self.tools.wf()
    }

    pub fn empty(now: u64) -> (r: Store)
        ensures
            r@ == empty_store(now),
            r.wf(),
    {
        let r = Store {
            since: now,
            tools: StrMap::new(),
            events: Vec::new(),
            pending_flush: 0,
            saved_workspace_id: copy(""),
            registry: None,
            workspace_id: None,
        };
        assert(event_views(r.events@) =~= Seq::<EventView>::empty());
        r
    }

    /// Reads the document that keeps a store. What an older document does not
    /// hold counts as zero.
    pub fn from_value(v: &Datum, now: u64) -> (r: Store)
        ensures
            r@ == store_of(v@, now),
            r.wf(),
    {
        Store {
            since: number_or(v, "since", now),
            tools: read_tools(v),
            events: read_kept_events(v),
            pending_flush: 0,
            saved_workspace_id: string_or(v, "workspace_id", ""),
            registry: None,
            workspace_id: None,
        }
    }

    /// The document that keeps the store.
    pub fn to_value(&self) -> (r: Datum)
        ensures
            r@ == store_json(self@),
    {
        let mut ts: Vec<(String, Datum)> = no_members();
        let ghost want = self.tools@.map_values(|kv: (Seq<char>, Tool)| (kv.0, tool_json(kv.1)));
        assert(want.take(0) =~= members(ts@));
        for i in 0..self.tools.entries.len()
            invariant
                want == self.tools@.map_values(
                    |kv: (Seq<char>, Tool)| (kv.0, tool_json(kv.1)),
                ),
                members(ts@) == want.take(i as int),
        {
            let ghost before = members(ts@);
            assert(self.tools@[i as int] == (
                self.tools.entries@[i as int].0@,
                self.tools.entries@[i as int].1,
            ));
            add_member(
                &mut ts,
                self.tools.entries[i].0.as_str(),
                tool_to_value(&self.tools.entries[i].1),
            );
            assert(members(ts@) =~= before.push(want[i as int]));
            assert(want.take(i + 1) =~= want.take(i as int).push(want[i as int]));
        }
        assert(want.take(want.len() as int) =~= want);
        assert(self.tools@.len() == self.tools.entries@.len());
        let mut es: Vec<Datum> = Vec::new();
        let ghost all = event_views(self.events@);
        for i in 0..self.events.len()
            invariant
                all == event_views(self.events@),
                es@.len() == i,
                forall|k: int| 0 <= k < i ==> (#[trigger] es@[k])@ == event_json(all[k]),
        {
            assert(all[i as int] == self.events@[i as int]@);
            es.push(event_to_value(&self.events[i]));
        }
        assert(views(es@) =~= all.map_values(|e: EventView| event_json(e)));
        let wid = self.document_workspace();
        let mut ms = no_members();
        add_member(&mut ms, "version", Datum::UInt(5));
        add_member(&mut ms, "since", Datum::UInt(self.since));
        add_member(&mut ms, "workspace_id", str_value(wid.as_str()));
        add_member(&mut ms, "tools", object(ts));
        add_member(&mut ms, "events", array(es));
        assert(members(ms@) =~= store_members(self@));
        build(ms)
    }

    /// The workspace that the document names: the current one, or else the one
    /// that it named before.
    pub fn document_workspace(&self) -> (r: String)
        ensures
            r@ == named_workspace(self@),
    {
        match &self.workspace_id {
            Some(w) => if is_blank(w.as_str()) {
                copy(self.saved_workspace_id.as_str())
            } else {
                copy(w.as_str())
            },
            None => copy(self.saved_workspace_id.as_str()),
        }
    }

    /// Whether the counters have room for one more call of a tool.
    pub fn can_observe(&self, tool: &str, elapsed_us: u64, meta: &RecordMeta) -> (r: bool)
        ensures
            r == (has_room(counters(self@.tools, tool@), meta@, elapsed_us) && self@.pending_flush
                < u64::MAX),
    {
        let t = match self.tools.get(tool) {
            Some(t) => *t,
            None => Tool::default(),
        };
        t.can_observe(elapsed_us, meta) && self.pending_flush < u64::MAX
    }

    /// Counts a call and gives the event to be logged.
    pub fn observe(
        &mut self,
        tool: &str,
        elapsed_us: u64,
        outcome: Outcome,
        ts: u64,
        workspace_id: &str,
        meta: &RecordMeta,
        version: &str,
    ) -> (r: Event)
        requires
            old(self).wf(),
            has_room(counters(old(self)@.tools, tool@), meta@, elapsed_us),
            old(self)@.pending_flush < u64::MAX,
        ensures
            final(self)@ == observed(
                old(self)@,
                tool@,
                elapsed_us,
                outcome,
                ts,
                workspace_id@,
                meta@,
                version@,
            ),
            final(self).wf(),
            r@ == event_for(tool@, elapsed_us, outcome, ts, workspace_id@, meta@, version@),
    {
        let mut t = match self.tools.get(tool) {
            Some(t) => *t,
            None => Tool::default(),
        };
        assert(meta@ == (MetaView { baseline: meta.baseline, returned: meta.returned, ..meta@ }));
        t.observe(meta.baseline, meta.returned, elapsed_us, outcome, ts, meta);
        self.tools.insert(tool, t);
        let ev = Event {
            ts,
            tool: copy(tool),
            baseline: meta.baseline,
            returned: meta.returned,
            elapsed_us,
            outcome: copy(outcome.as_str()),
            reason: copy_opt(&meta.reason),
            workspace_id: copy(workspace_id),
            bytes_read: meta.bytes_read,
            cache_hits: meta.cache_hits,
            cache_misses: meta.cache_misses,
            wordkeep_version: copy(version),
        };
        let kept = ev.copy();
        let ghost before = self.events@;
        self.events.push(kept);
        assert(event_views(self.events@) =~= event_views(before).push(ev@));
        drop_old(&mut self.events);
        self.pending_flush = self.pending_flush + 1;
        ev
    }

    /// Whether the counters are due to be written.
    pub fn needs_flush(&self, idle_ms: u64) -> (r: bool)
        ensures
            r == (self@.pending_flush > 0 && (self@.pending_flush >= FLUSH_EVENTS || idle_ms
                >= FLUSH_INTERVAL_MS)),
    {
        self.pending_flush > 0 && (self.pending_flush >= FLUSH_EVENTS || idle_ms
            >= FLUSH_INTERVAL_MS)
    }

    /// Notes that the counters were written.
    pub fn flushed(&mut self)
        ensures
            final(self)@ == (StoreView { pending_flush: 0, ..old(self)@ }),
            old(self).wf() ==> final(self).wf(),
    {
        self.pending_flush = 0;
    }

    /// Starts to count anew.
    pub fn reset(&mut self, now: u64)
        ensures
            final(self)@ == (StoreView {
                since: now,
                tools: Seq::empty(),
                events: Seq::empty(),
                pending_flush: 0,
                ..old(self)@
            }),
            final(self).wf(),
    {
        self.tools = StrMap::new();
        self.events = Vec::new();
        self.since = now;
        self.pending_flush = 0;
        assert(event_views(self.events@) =~= Seq::<EventView>::empty());
    }

    /// Drops tools that are no longer on offer and clears baselines that were
    /// reported as fixed. Returns whether anything changed.
    pub fn prune_stale_registry(&mut self) -> (r: bool)
        requires
            old(self).wf(),
        ensures
            final(self)@ == (StoreView {
                tools: pruned(old(self)@.tools, registry_of(old(self)@), old(self)@.tools.len()),
                ..old(self)@
            }),
            final(self).wf(),
            r == (final(self)@.tools != old(self)@.tools),
    {
        let ghost all = self.tools@;
        let ghost reg = registry_of(self@);
        let n: usize = self.tools.entries.len();
        let mut out: StrMap<Tool> = StrMap::new();
        let mut dirty: bool = false;
        for i in 0..n
            invariant
                n == self.tools.entries@.len(),
                all == self.tools@,
                ascending(all),
                reg == registry_of(self@),
                self@ == old(self)@,
                self.wf(),
                out.wf(),
                out@ == pruned(all, reg, i as nat),
                out@.len() <= i,
                !dirty ==> out@ == all.take(i as int),
                dirty ==> out@ != all.take(i as int),
                forall|k: int, m: int|
                    #![trigger out@[k], all[m]]
                    0 <= k < out@.len() && i <= m < all.len() ==> lex_lt(out@[k].0, all[m].0),
        {
            assert(all[i as int] == (
                self.tools.entries@[i as int].0@,
                self.tools.entries@[i as int].1,
            ));
            let name = self.tools.entries[i].0.as_str();
            let offered: bool = match &self.registry {
                Some(r) => {
                    assert(strs(r@).len() == r@.len());
                    r.len() == 0 || is_among(r, name)
                },
                None => true,
            };
            assert(offered == on_offer(reg, name@));
            let ghost before = out@;
            if offered {
                let mut t = self.tools.entries[i].1;
                let flat: u64 = if t.calls > u64::MAX / 64 {
                    u64::MAX
                } else {
                    t.calls * 64
                };
                let clear: bool = legacy_flat_baseline_tool(name) && t.calls > 0
                    && t.baseline_tokens == flat;
                if clear {
                    t.baseline_tokens = 0;
                }
                let ghost item = (name@, t);
                out.entries.push((copy(name), t));
                assert(out@ =~= before.push(item));
                proof {
                    assert forall|k: int, m: int|
                        0 <= k < m < out@.len() implies lex_lt(
                        (#[trigger] out@[k]).0,
                        (#[trigger] out@[m]).0,
                    ) by {
                        if m == before.len() {
                            assert(out@[k] == before[k]);
                            assert(lex_lt(before[k].0, all[i as int].0));
                        } else {
                            assert(out@[k] == before[k] && out@[m] == before[m]);
                        }
                    }
                    assert forall|k: int, m: int|
                        #![trigger out@[k], all[m]]
                        0 <= k < out@.len() && i + 1 <= m < all.len() implies lex_lt(
                        out@[k].0,
                        all[m].0,
                    ) by {
                        if k == before.len() {
                            assert(lex_lt(all[i as int].0, all[m].0));
                        } else {
                            assert(out@[k] == before[k]);
                        }
                    }
                    assert(all.take(i + 1) =~= all.take(i as int).push(all[i as int]));
                    if dirty {
                        if before.len() == i {
                            let d = choose|d: int| 0 <= d < i && before[d] != all.take(i as int)[d];
                            if forall|d: int| 0 <= d < i ==> before[d] == all.take(i as int)[d] {
                                assert(before =~= all.take(i as int));
                            }
                            assert(out@[d] == before[d]);
                            assert(all.take(i + 1)[d] == all.take(i as int)[d]);
                        } else {
                            assert(out@.len() != all.take(i + 1).len());
                        }
                    } else if clear {
                        assert(out@[i as int] == item);
                        assert(all.take(i + 1)[i as int] == all[i as int]);
                    }
                }
                if clear {
                    dirty = true;
                }
            } else {
                dirty = true;
                assert(out@.len() != all.take(i + 1).len());
                assert forall|k: int, m: int|
                    #![trigger out@[k], all[m]]
                    0 <= k < out@.len() && i + 1 <= m < all.len() implies lex_lt(
                    out@[k].0,
                    all[m].0,
                ) by {}
            }
        }
        assert(all.take(all.len() as int) =~= all);
        assert(all.len() == n);
        self.tools = out;
        dirty
    }
}

/// Learns the names of the tools on offer, the first time, and drops the counters
/// of others. Returns whether the store changed.
pub fn init_registry(s: &mut Store, names: Vec<String>) -> (r: bool)
    requires
        old(s).wf(),
    ensures
        ({
            let reg = match old(s)@.registry {
                Some(known) => known,
                None => strs(names@),
            };
            &&& final(s)@ == (StoreView {
                registry: Some(reg),
                tools: pruned(old(s)@.tools, reg, old(s)@.tools.len()),
                ..old(s)@
            })
            &&& r == (final(s)@.tools != old(s)@.tools)
        }),
        final(s).wf(),
{
    if s.registry.is_none() {
        s.registry = Some(names);
    }
    s.prune_stale_registry()
}

/// Learns which workspace calls belong to, the first time.
pub fn set_workspace_root(s: &mut Store, id: &str)
    ensures
        final(s)@ == (StoreView {
            workspace_id: match old(s)@.workspace_id {
                Some(w) => Some(w),
                None => Some(id@),
            },
            ..old(s)@
        }),
        old(s).wf() ==> final(s).wf(),
{
    if s.workspace_id.is_none() {
        s.workspace_id = Some(copy(id));
    }
}

// ---------------------------------------------------------------------------
// Finishing a call

/// What a call reported, with the reason for its outcome if it gave none.
pub open spec fn final_meta(
    p: Option<MetaView>,
    r: Result<Seq<char>, Seq<char>>,
) -> MetaView {
    let m = match p {
        Some(m) => m,
        None => no_meta(),
    };
    if m.reason is None {
        MetaView { reason: reason_of(r, outcome_of(r, m.returned)), ..m }
    } else {
        m
    }
}

/// Takes what the call that runs has reported.
pub fn take_meta(p: &mut Pending, result: &Result<String, String>) -> (r: RecordMeta)
    ensures
        r@ == final_meta(meta_of(*old(p)), crate::text::outcome(*result)),
        meta_of(*final(p)) is None,
{
    let mut meta = match p.meta.take() {
        Some(m) => m,
        None => RecordMeta::default(),
    };
    if meta.reason.is_none() {
        let o = classify_outcome(result, meta.returned);
        meta.reason = outcome_reason(result, o);
    }
    meta
}

/// Counts the call that ends, if its counters have room for it, and gives the
/// event to be logged.
pub fn finish(
    s: &mut Store,
    tool: &str,
    elapsed_us: u64,
    result: &Result<String, String>,
    meta: &RecordMeta,
    now: u64,
    version: &str,
) -> (r: Option<Event>)
    requires
        old(s).wf(),
    ensures
        final(s).wf(),
        ({
            let o = outcome_of(crate::text::outcome(*result), meta.returned);
            if has_room(counters(old(s)@.tools, tool@), meta@, elapsed_us) && old(s)@.pending_flush
                < u64::MAX {
                &&& final(s)@ == observed(
                    old(s)@,
                    tool@,
                    elapsed_us,
                    o,
                    now,
                    workspace_of(old(s)@),
                    meta@,
                    version@,
                )
                &&& opt_event(r) == Some(
                    event_for(
                        tool@,
                        elapsed_us,
                        o,
                        now,
                        workspace_of(old(s)@),
                        meta@,
                        version@,
                    ),
                )
            } else {
                final(s)@ == old(s)@ && r is None
            }
        }),
{
    if !s.can_observe(tool, elapsed_us, meta) {
        return None;
    }
    let o = classify_outcome(result, meta.returned);
    let ws = match &s.workspace_id {
        Some(w) => copy(w.as_str()),
        None => copy(""),
    };
    Some(s.observe(tool, elapsed_us, o, now, ws.as_str(), meta, version))
}

// ---------------------------------------------------------------------------
// Laws

/// No more calls are kept than the cap allows, and the last one is always kept.
pub proof fn law_latest_calls_are_kept(
    s: StoreView,
    tool: Seq<char>,
    elapsed_us: u64,
    o: Outcome,
    ts: u64,
    workspace: Seq<char>,
    m: MetaView,
    version: Seq<char>,
)
    ensures
        observed(s, tool, elapsed_us, o, ts, workspace, m, version).events.len() <= EVENT_CAP,
        observed(s, tool, elapsed_us, o, ts, workspace, m, version).events.last() == event_for(
            tool,
            elapsed_us,
            o,
            ts,
            workspace,
            m,
            version,
        ),
{
}

/// A call changes the counters of its own tool only.
pub proof fn law_other_tools_stay(
    s: StoreView,
    tool: Seq<char>,
    elapsed_us: u64,
    o: Outcome,
    ts: u64,
    workspace: Seq<char>,
    m: MetaView,
    version: Seq<char>,
    other: Seq<char>,
)
    requires
        ascending(s.tools),
    ensures
        ({
            let t = observed(s, tool, elapsed_us, o, ts, workspace, m, version).tools;
            if other == tool {
                at(t, other) == Some(counted(counters(s.tools, tool), m, elapsed_us, o, ts))
            } else {
                at(t, other) == at(s.tools, other)
            }
        }),
{
    crate::smap::lemma_at_put(
        s.tools,
        tool,
        counted(counters(s.tools, tool), m, elapsed_us, o, ts),
        other,
    );
}

/// After pruning, every tool left is on offer and none has a fixed baseline.
pub proof fn law_pruned_tools_are_on_offer(
    tools: Seq<(Seq<char>, Tool)>,
    reg: Seq<Seq<char>>,
    n: nat,
)
    requires
        n <= tools.len(),
    ensures
        forall|i: int|
            0 <= i < pruned(tools, reg, n).len() ==> on_offer(
                reg,
                (#[trigger] pruned(tools, reg, n)[i]).0,
            ) && !flat_baseline(pruned(tools, reg, n)[i].0, pruned(tools, reg, n)[i].1),
    decreases n,
{
    if n > 0 {
        law_pruned_tools_are_on_offer(tools, reg, (n - 1) as nat);
        let before = pruned(tools, reg, (n - 1) as nat);
        let now = pruned(tools, reg, n);
        assert forall|i: int| 0 <= i < now.len() implies on_offer(reg, (#[trigger] now[i]).0)
            && !flat_baseline(now[i].0, now[i].1) by {
            if i < before.len() {
                assert(now[i] == before[i]);
            }
        }
    }
}

proof fn lemma_tools_back(tools: Seq<(Seq<char>, Tool)>, n: nat)
    requires
        ascending(tools),
        n <= tools.len(),
    ensures
        tools_in(tools_json(tools)->Object_0, n) == tools.take(n as int),
    decreases n,
{
    let ms = tools_json(tools)->Object_0;
    if n == 0 {
        assert(tools.take(0) =~= Seq::empty());
    } else {
        lemma_tools_back(tools, (n - 1) as nat);
        let front = tools.take(n - 1);
        let (name, t) = tools[n - 1];
        assert(ms[n - 1] == (name, tool_json(t)));
        law_tool_round_trip(t);
        assert forall|i: int| 0 <= i < n - 1 implies lex_lt((#[trigger] front[i]).0, name) by {
            assert(lex_lt(tools[i].0, tools[n - 1].0));
        }
        assert(ascending(front)) by {
            assert forall|i: int, j: int| 0 <= i < j < front.len() implies lex_lt(
                (#[trigger] front[i]).0,
                (#[trigger] front[j]).0,
            ) by {
                assert(lex_lt(tools[i].0, tools[j].0));
            }
        }
        crate::smap::lemma_put_index(front, name, t, n - 1);
        assert(tools.take(n as int) =~= front.push((name, t)));
        assert(front.insert(n - 1, (name, t)) =~= front.push((name, t)));
    }
}

proof fn lemma_events_back(events: Seq<EventView>, n: nat)
    requires
        forall|i: int| 0 <= i < events.len() ==> (#[trigger] events[i]).tool.len() > 0,
        n <= events.len(),
    ensures
        kept_events(events_json(events)->Array_0, n) == events.take(n as int),
    decreases n,
{
    if n == 0 {
        assert(events.take(0) =~= Seq::empty());
    } else {
        lemma_events_back(events, (n - 1) as nat);
        assert(events[n - 1].tool.len() > 0);
        law_event_round_trip(events[n - 1]);
        assert(events.take(n as int) =~= events.take(n - 1).push(events[n - 1]));
    }
}

/// What a document keeps of a store comes back as it was: when counting began,
/// the workspace, the counters and the latest calls.
pub proof fn law_store_round_trip(s: StoreView, now: u64)
    requires
        ascending(s.tools),
        s.events.len() <= EVENT_CAP,
        forall|i: int| 0 <= i < s.events.len() ==> (#[trigger] s.events[i]).tool.len() > 0,
    ensures
        store_of(store_json(s), now) == (StoreView {
            since: s.since,
            tools: s.tools,
            events: s.events,
            saved_workspace_id: named_workspace(s),
            ..empty_store(now)
        }),
{
    reveal_strlit("version");
    reveal_strlit("since");
    reveal_strlit("workspace_id");
    reveal_strlit("tools");
    reveal_strlit("events");
    assert("version"@.len() == 7);
    assert("since"@.len() == 5 && "since"@[0] == 's');
    assert("tools"@.len() == 5 && "tools"@[0] == 't');
    assert("workspace_id"@.len() == 12);
    assert("events"@.len() == 6);
    let ms = store_members(s);
    let j = store_json(s);
    lemma_record_get(ms, 1);
    lemma_record_get(ms, 2);
    lemma_record_get(ms, 3);
    lemma_record_get(ms, 4);
    assert(get(j, "since"@) == Some(Json::UInt(s.since)));
    assert(get(j, "workspace_id"@) == Some(Json::Str(named_workspace(s))));
    assert(get(j, "tools"@) == Some(tools_json(s.tools)));
    assert(get(j, "events"@) == Some(events_json(s.events)));
    lemma_tools_back(s.tools, s.tools.len());
    lemma_events_back(s.events, s.events.len());
    assert(s.tools.take(s.tools.len() as int) =~= s.tools);
    assert(s.events.take(s.events.len() as int) =~= s.events);
}

} // verus!

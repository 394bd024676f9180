//! Identity, lifecycle, and advisory claims.
//!
//! Stored states are `checked_in`, `live_code`, `suspended` and `checked_out`.
//! `stale` is derived from the lease and is never stored. Claims warn; they
//! never block an edit.
use vstd::prelude::*;
use crate::json::{as_str, get, members, strs_value, Json, Datum};
use crate::order::{key_views, sort, sort_order, Key, KeyView};
use crate::text::{
    among, blen, contains, contains_char, copy, cut, cut_to, holds, has_char, is_among, is_blank,
    outcome, quote, quoted, same, same_all, size, strs, trim, trim_of, trimmed, trimmed_of, verdict,
};

verus! {

pub const SCHEMA_VERSION: u64 = 1;

pub const MAX_SUMMARY: usize = 2_000;

pub const MAX_CLAIMS: usize = 64;

pub const MAX_SYMBOLS: usize = 32;

pub const MAX_PATHS: usize = 64;

pub const MAX_LIST: usize = 16;

pub const MAX_ITEM: usize = 240;

#[derive(Clone, Copy, Debug, PartialEq, Eq, Structural)]
pub enum AgentState {
    CheckedIn,
    LiveCode,
    Suspended,
    CheckedOut,
}

/// The stored name of a state.
pub open spec fn state_name(s: AgentState) -> Seq<char> {
    match s {
        AgentState::CheckedIn => "checked_in"@,
        AgentState::LiveCode => "live_code"@,
        AgentState::Suspended => "suspended"@,
        AgentState::CheckedOut => "checked_out"@,
    }
}

/// The state with a given name, after trimming.
pub open spec fn state_named(raw: Seq<char>) -> Result<AgentState, Seq<char>> {
    let t = trimmed(raw);
    if t == "checked_in"@ {
        Ok(AgentState::CheckedIn)
    } else if t == "live_code"@ {
        Ok(AgentState::LiveCode)
    } else if t == "suspended"@ {
        Ok(AgentState::Suspended)
    } else if t == "checked_out"@ {
        Ok(AgentState::CheckedOut)
    } else {
        Err(
            "unknown agent state "@ + quoted(t)
                + "; expected checked_in|live_code|suspended|checked_out"@,
        )
    }
}

impl AgentState {
    pub fn as_str(self) -> (r: &'static str)
        ensures
            r@ == state_name(self),
    {
        match self {
            AgentState::CheckedIn => "checked_in",
            AgentState::LiveCode => "live_code",
            AgentState::Suspended => "suspended",
            AgentState::CheckedOut => "checked_out",
        }
    }

    pub fn parse(raw: &str) -> (r: Result<Self, String>)
        ensures
            match (r, state_named(raw@)) {
                (Ok(a), Ok(b)) => a == b,
                (Err(a), Err(b)) => a@ == b,
                _ => false,
            },
    {
        let t = trim(raw);
        let s = t.as_str();
        if same(s, "checked_in") {
            Ok(AgentState::CheckedIn)
        } else if same(s, "live_code") {
            Ok(AgentState::LiveCode)
        } else if same(s, "suspended") {
            Ok(AgentState::Suspended)
        } else if same(s, "checked_out") {
            Ok(AgentState::CheckedOut)
        } else {
            let mut e = copy("unknown agent state ");
            e.append(quote(s).as_str());
            e.append("; expected checked_in|live_code|suspended|checked_out");
            Err(e)
        }
    }
}

/// Reading the stored name of a state gives the state back.
pub proof fn law_state_round_trip(s: AgentState)
    ensures
        state_named(state_name(s)) == Ok::<AgentState, Seq<char>>(s),
{
    reveal_strlit("checked_in");
    reveal_strlit("live_code");
    reveal_strlit("suspended");
    reveal_strlit("checked_out");
    let n = state_name(s);
    let p = |c: char| crate::text::white(c);
    crate::text::lemma_trim_start_at(n, p, 0);
    assert(n.skip(0) =~= n);
    crate::text::lemma_trim_end_at(n, p, n.len() as int);
    assert(n.take(n.len() as int) =~= n);
    assert("checked_in"@.len() == 10 && "live_code"@.len() == 9 && "suspended"@.len() == 9
        && "checked_out"@.len() == 11);
    assert("live_code"@[0] != "suspended"@[0]);
}

/// Whether an agent may move from one state to another: a checked-out agent
/// only checks in again, every other move is open.
pub open spec fn may_move(from: AgentState, to: AgentState) -> bool {
    from == AgentState::CheckedOut ==> to == AgentState::CheckedIn
}

pub fn transition(from: AgentState, to: AgentState) -> (r: Result<(), String>)
    ensures
        verdict(r) == (if may_move(from, to) {
            Ok::<(), Seq<char>>(())
        } else {
            Err("checked-out agent must check in before other transitions"@)
        }),
{
    if from == AgentState::CheckedOut && to != AgentState::CheckedIn {
        return Err(copy("checked-out agent must check in before other transitions"));
    }
    Ok(())
}

/// A lease that has run out, of an agent that has not checked out. A lease
/// without an end never runs out.
pub open spec fn stale(state: AgentState, expires_at: u64, now: u64) -> bool {
    state != AgentState::CheckedOut && expires_at > 0 && now >= expires_at
}

pub fn is_stale(state: AgentState, expires_at: u64, now: u64) -> (r: bool)
    ensures
        r == stale(state, expires_at, now),
{
    state != AgentState::CheckedOut && expires_at > 0 && now >= expires_at
}

/// A checked-out agent is never stale, and a stale one stays stale until its
/// lease is renewed or it checks out.
pub proof fn law_stale(state: AgentState, expires_at: u64, now: u64, later: u64)
    requires
        now <= later,
    ensures
        !stale(AgentState::CheckedOut, expires_at, now),
        stale(state, expires_at, now) ==> stale(state, expires_at, later),
{
}

pub open spec fn slug_char(c: char) -> bool {
    ||| 'a' <= c <= 'z'
    ||| 'A' <= c <= 'Z'
    ||| '0' <= c <= '9'
    ||| c == '.'
    ||| c == '_'
    ||| c == '-'
}

/// The trimmed name if it is a slug, else the reason why it is none.
pub open spec fn slug(kind: Seq<char>, raw: Seq<char>) -> Result<Seq<char>, Seq<char>> {
    let s = trimmed(raw);
    if s.len() == 0 {
        Err(kind + " is required"@)
    } else if blen(s) > 80 || has_char(s, '/') || has_char(s, '\\') || holds(s, ".."@) {
        Err(kind + " must be a slug (no /, \\, or ..)"@)
    } else if exists|i: int| 0 <= i < s.len() && !slug_char(#[trigger] s[i]) {
        Err(kind + " must match [A-Za-z0-9._-]"@)
    } else {
        Ok(s)
    }
}

pub fn is_slug_char(c: char) -> (r: bool)
    ensures
        r == slug_char(c),
{
    ('a' <= c && c <= 'z') || ('A' <= c && c <= 'Z') || ('0' <= c && c <= '9') || c == '.' || c
        == '_' || c == '-'
}

pub fn validate_slug(kind: &str, raw: &str) -> (r: Result<String, String>)
    ensures
        outcome(r) == slug(kind@, raw@),
{
    let s = trim(raw);
    if is_blank(s.as_str()) {
        let mut e = copy(kind);
        e.append(" is required");
        return Err(e);
    }
    if size(s.as_str()) > 80 || contains_char(s.as_str(), '/') || contains_char(s.as_str(), '\\')
        || contains(s.as_str(), "..") {
        let mut e = copy(kind);
        e.append(" must be a slug (no /, \\, or ..)");
        return Err(e);
    }
    let v = crate::text::to_chars(s.as_str());
    for i in 0..v.len()
        invariant
            v@ == s@,
            s@ == trimmed(raw@),
            s@.len() > 0,
            !(blen(s@) > 80 || has_char(s@, '/') || has_char(s@, '\\') || holds(s@, ".."@)),
            forall|j: int| 0 <= j < i ==> slug_char(#[trigger] s@[j]),
    {
        if !is_slug_char(v[i]) {
            assert(!slug_char(s@[i as int]));
            let mut e = copy(kind);
            e.append(" must match [A-Za-z0-9._-]");
            return Err(e);
        }
    }
    Ok(s)
}

/// An accepted name holds only letters, digits, `.`, `_` and `-`, has no `..`,
/// no path separator and at most 80 bytes, and is accepted again unchanged.
pub proof fn law_slug(kind: Seq<char>, raw: Seq<char>)
    requires
        slug(kind, raw) is Ok,
    ensures
        ({
            let s = slug(kind, raw)->Ok_0;
            &&& 0 < s.len()
            &&& blen(s) <= 80
            &&& forall|i: int| 0 <= i < s.len() ==> slug_char(#[trigger] s[i])
            &&& !has_char(s, '/') && !has_char(s, '\\')
            &&& !holds(s, ".."@)
            &&& slug(kind, s) == Ok::<Seq<char>, Seq<char>>(s)
        }),
{
    crate::text::lemma_trim_idempotent(raw);
}

/// Trimmed, then cut to at most `max` bytes.
pub open spec fn bounded(s: Seq<char>, max: nat) -> Seq<char> {
    cut_to(trimmed(s), max)
}

pub fn bound(s: &str, max: usize) -> (r: String)
    ensures
        r@ == bounded(s@, max as nat),
{
    let t = trim(s);
    cut(t.as_str(), max)
}

/// A bounded text fits, and a trimmed text that fits is kept whole.
pub proof fn law_bound(s: Seq<char>, max: nat)
    ensures
        blen(bounded(s, max)) <= max,
        bounded(s, max) == trimmed(s).take(bounded(s, max).len() as int),
        blen(trimmed(s)) <= max ==> bounded(s, max) == trimmed(s),
{
    crate::text::lemma_cut(trimmed(s), max);
}

/// A bounded text, unless nothing is left of it.
pub open spec fn bounded_some(max: nat) -> spec_fn(Seq<char>) -> Option<Seq<char>> {
    |s: Seq<char>|
        if bounded(s, max).len() > 0 {
            Some(bounded(s, max))
        } else {
            None
        }
}

/// At most the first `n` items of a list.
pub open spec fn head<T>(s: Seq<T>, n: nat) -> Seq<T> {
    if s.len() <= n {
        s
    } else {
        s.take(n as int)
    }
}

/// The bounded texts that are not empty, at most `max_n` of them.
pub open spec fn bounded_all(items: Seq<Seq<char>>, max_n: nat, max_len: nat) -> Seq<Seq<char>> {
    head(items.filter_map(bounded_some(max_len)), max_n)
}

pub fn bound_strings(items: &[String], max_n: usize, max_len: usize) -> (r: Vec<String>)
    ensures
        strs(r@) == bounded_all(strs(items@), max_n as nat, max_len as nat),
{
    let ghost all = strs(items@);
    let ghost f = bounded_some(max_len as nat);
    let mut out: Vec<String> = Vec::new();
    assert(strs(out@) =~= all.take(0).filter_map(f));
    assert(strs(out@) =~= head(all.take(0).filter_map(f), max_n as nat));
    for i in 0..items.len()
        invariant
            all == strs(items@),
            f == bounded_some(max_len as nat),
            strs(out@) == head(all.take(i as int).filter_map(f), max_n as nat),
    {
        let t = bound(items[i].as_str(), max_len);
        let ghost before = out@;
        proof {
            all.lemma_filter_map_take_succ(f, i as int);
        }
        let ghost prev = all.take(i as int).filter_map(f);
        let ghost next = all.take(i + 1).filter_map(f);
        if !is_blank(t.as_str()) {
            assert(next =~= prev.push(t@));
            if out.len() < max_n {
                out.push(t);
                proof {
                    crate::text::lemma_strs_push(before, out@.last());
                }
                assert(strs(out@) =~= head(next, max_n as nat));
            } else {
                assert(strs(out@) =~= head(next, max_n as nat));
            }
        } else {
            assert(next =~= prev);
        }
    }
    assert(all.take(all.len() as int) =~= all);
    out
}

pub struct Claim {
    pub path: String,
    pub symbols: Vec<String>,
    pub intent: String,
}

/// The texts of a [`Claim`].
pub struct ClaimView {
    pub path: Seq<char>,
    pub symbols: Seq<Seq<char>>,
    pub intent: Seq<char>,
}

impl View for Claim {
    type V = ClaimView;

    open spec fn view(&self) -> ClaimView {
        ClaimView { path: self.path@, symbols: strs(self.symbols@), intent: self.intent@ }
    }
}

pub open spec fn claim_views(v: Seq<Claim>) -> Seq<ClaimView> {
    Seq::new(v.len(), |i: int| v[i]@)
}

/// A claim as a JSON object.
pub open spec fn claim_json(c: ClaimView) -> Json {
    Json::Object(
        seq![
            ("intent"@, Json::Str(c.intent)),
            ("path"@, Json::Str(c.path)),
            ("symbols"@, crate::json::json_strs(c.symbols)),
        ],
    )
}

/// The claim that a JSON value describes: it needs a path; symbols and path are
/// bounded; any intent but `read` means `edit`.
pub open spec fn claim_from(j: Json) -> Option<ClaimView> {
    match as_str(get(j, "path"@)) {
        None => None,
        Some(p) => if trimmed(p).len() == 0 {
            None
        } else {
            Some(
                ClaimView {
                    path: bounded(trimmed(p), MAX_ITEM as nat),
                    symbols: bounded_all(
                        crate::json::strings_at(j, "symbols"@),
                        MAX_SYMBOLS as nat,
                        MAX_ITEM as nat,
                    ),
                    intent: if as_str(get(j, "intent"@)) == Some("read"@) {
                        "read"@
                    } else {
                        "edit"@
                    },
                },
            )
        },
    }
}

impl Claim {
    pub fn to_value(&self) -> (r: Datum)
        ensures
            r@ == claim_json(self@),
    {
        let mut ms = crate::json::no_members();
        crate::json::add_member(&mut ms, "intent", crate::json::str_value(self.intent.as_str()));
        crate::json::add_member(&mut ms, "path", crate::json::str_value(self.path.as_str()));
        crate::json::add_member(&mut ms, "symbols", strs_value(&self.symbols));
        let r = crate::json::object(ms);
        assert(r@->Object_0 =~= claim_json(self@)->Object_0);
        r
    }

    pub fn from_value(v: &Datum) -> (r: Option<Self>)
        ensures
            match r {
                Some(c) => claim_from(v@) == Some(c@),
                None => claim_from(v@) is None,
            },
    {
        let path = match crate::json::get_str(v, "path") {
            Some(p) => trim(p.as_str()),
            None => {
                return None;
            },
        };
        if is_blank(path.as_str()) {
            return None;
        }
        let raw = crate::json::get_strings(v, "symbols");
        let symbols = bound_strings(raw.as_slice(), MAX_SYMBOLS, MAX_ITEM);
        let intent = match crate::json::get_str(v, "intent") {
            Some(i) => if same(i.as_str(), "read") {
                copy("read")
            } else {
                copy("edit")
            },
            None => copy("edit"),
        };
        Some(Claim { path: bound(path.as_str(), MAX_ITEM), symbols, intent })
    }

    pub fn copy(&self) -> (r: Claim)
        ensures
            r@ == self@,
    {
        Claim {
            path: copy(self.path.as_str()),
            symbols: crate::text::copy_all(&self.symbols),
            intent: copy(self.intent.as_str()),
        }
    }
}

/// A path without surrounding white space and slashes.
pub open spec fn bare_path(p: Seq<char>) -> Seq<char> {
    trimmed_of(trimmed(p), '/')
}

/// Whether `q` lies below the directory `p`.
pub open spec fn below(p: Seq<char>, q: Seq<char>) -> bool {
    p.len() < q.len() && q.take(p.len() as int) == p && q[p.len() as int] == '/'
}

/// Two paths overlap if they are the same or one lies below the other. An empty
/// path overlaps nothing.
pub open spec fn overlap(a: Seq<char>, b: Seq<char>) -> bool {
    let x = bare_path(a);
    let y = bare_path(b);
    x.len() > 0 && y.len() > 0 && (x == y || below(x, y) || below(y, x))
}

fn is_below(p: &str, q: &str) -> (r: bool)
    ensures
        r == below(p@, q@),
{
    let a = crate::text::to_chars(p);
    let b = crate::text::to_chars(q);
    if a.len() >= b.len() {
        return false;
    }
    assert(q@.take(p@.len() as int) =~= q@.subrange(0, p@.len() as int));
    crate::text::stands_at(&b, &a, 0) && b[a.len()] == '/'
}

pub fn paths_overlap(a: &str, b: &str) -> (r: bool)
    ensures
        r == overlap(a@, b@),
{
    let x = trim_of(trim(a).as_str(), '/');
    let y = trim_of(trim(b).as_str(), '/');
    if is_blank(x.as_str()) || is_blank(y.as_str()) {
        return false;
    }
    same(x.as_str(), y.as_str()) || is_below(x.as_str(), y.as_str()) || is_below(
        y.as_str(),
        x.as_str(),
    )
}

/// Overlap is symmetric, and every path that is not empty overlaps itself and
/// whatever lies below it.
pub proof fn law_overlap(a: Seq<char>, b: Seq<char>)
    ensures
        overlap(a, b) == overlap(b, a),
        bare_path(a).len() > 0 ==> overlap(a, a),
        bare_path(a).len() > 0 && below(bare_path(a), bare_path(b)) ==> overlap(a, b),
{
}

/// A claim covers a path that it overlaps, or equals but for slashes.
pub open spec fn covers(claim: Seq<char>, dirty: Seq<char>) -> bool {
    overlap(claim, dirty) || trimmed_of(claim, '/') == trimmed_of(dirty, '/')
}

pub fn path_covers(claim: &str, dirty: &str) -> (r: bool)
    ensures
        r == covers(claim@, dirty@),
{
    paths_overlap(claim, dirty) || same(trim_of(claim, '/').as_str(), trim_of(dirty, '/').as_str())
}

pub struct AgentView<'a> {
    pub agent_id: &'a str,
    pub state: AgentState,
    pub expires_at: u64,
    pub base_oid: &'a str,
    pub claims: &'a [Claim],
    pub dirty_paths: &'a [String],
}

/// The values of an [`AgentView`].
pub struct Seen {
    pub agent_id: Seq<char>,
    pub state: AgentState,
    pub expires_at: u64,
    pub base_oid: Seq<char>,
    pub claims: Seq<ClaimView>,
    pub dirty_paths: Seq<Seq<char>>,
}

impl<'a> View for AgentView<'a> {
    type V = Seen;

    open spec fn view(&self) -> Seen {
        Seen {
            agent_id: self.agent_id@,
            state: self.state,
            expires_at: self.expires_at,
            base_oid: self.base_oid@,
            claims: claim_views(self.claims@),
            dirty_paths: strs(self.dirty_paths@),
        }
    }
}

pub struct Finding {
    pub kind: String,
    pub agents: Vec<String>,
    pub detail: String,
    pub stale: bool,
}

/// The values of a [`Finding`].
pub struct FindingView {
    pub kind: Seq<char>,
    pub agents: Seq<Seq<char>>,
    pub detail: Seq<char>,
    pub stale: bool,
}

impl View for Finding {
    type V = FindingView;

    open spec fn view(&self) -> FindingView {
        FindingView {
            kind: self.kind@,
            agents: strs(self.agents@),
            detail: self.detail@,
            stale: self.stale,
        }
    }
}

pub open spec fn finding_views(v: Seq<Finding>) -> Seq<FindingView> {
    Seq::new(v.len(), |i: int| v[i]@)
}

pub open spec fn seen_views(v: Seq<AgentView>) -> Seq<Seen> {
    Seq::new(v.len(), |i: int| v[i]@)
}

/// The predicate of not having checked out.
pub open spec fn present() -> spec_fn(Seen) -> bool {
    |a: Seen| a.state != AgentState::CheckedOut
}

pub open spec fn seen_stale(a: Seen, now: u64) -> bool {
    stale(a.state, a.expires_at, now)
}

/// The finding that a lease has run out.
pub open spec fn stale_finding(a: Seen) -> FindingView {
    FindingView {
        kind: "stale"@,
        agents: seq![a.agent_id],
        detail: a.agent_id + " lease expired; work was not checked out"@,
        stale: true,
    }
}

pub open spec fn claimed(a: Seen, dirty: Seq<char>) -> bool {
    exists|i: int| 0 <= i < a.claims.len() && covers((#[trigger] a.claims[i]).path, dirty)
}

/// The finding that a changed path is outside an agent's claims.
pub open spec fn drift_finding(a: Seen, dirty: Seq<char>, now: u64) -> FindingView {
    FindingView {
        kind: "drift"@,
        agents: seq![a.agent_id],
        detail: a.agent_id + " dirty path "@ + dirty + " is outside declared claims"@,
        stale: seen_stale(a, now),
    }
}

/// The drift among the first `n` changed paths of an agent.
pub open spec fn drift(a: Seen, now: u64, n: nat) -> Seq<FindingView>
    decreases n,
{
    if n == 0 {
        Seq::empty()
    } else {
        let rest = drift(a, now, (n - 1) as nat);
        let d = a.dirty_paths[n - 1];
        if claimed(a, d) {
            rest
        } else {
            rest.push(drift_finding(a, d, now))
        }
    }
}

/// What is found about one agent alone.
pub open spec fn own_findings(a: Seen, now: u64) -> Seq<FindingView> {
    (if seen_stale(a, now) {
        seq![stale_finding(a)]
    } else {
        Seq::empty()
    }) + drift(a, now, a.dirty_paths.len())
}

pub open spec fn overlap_finding(
    a: Seen,
    b: Seen,
    ca: ClaimView,
    cb: ClaimView,
    old: bool,
) -> FindingView {
    FindingView {
        kind: "path_overlap"@,
        agents: seq![a.agent_id, b.agent_id],
        detail: a.agent_id + ":"@ + ca.path + " overlaps "@ + b.agent_id + ":"@ + cb.path,
        stale: old,
    }
}

pub open spec fn symbol_finding(a: Seen, b: Seen, symbol: Seq<char>, old: bool) -> FindingView {
    FindingView {
        kind: "symbol_overlap"@,
        agents: seq![a.agent_id, b.agent_id],
        detail: a.agent_id + " and "@ + b.agent_id + " both claim symbol "@ + symbol,
        stale: old,
    }
}

pub open spec fn base_finding(a: Seen, b: Seen, old: bool) -> FindingView {
    FindingView {
        kind: "base_divergence"@,
        agents: seq![a.agent_id, b.agent_id],
        detail: a.agent_id + " base "@ + a.base_oid + " != "@ + b.agent_id + " base "@
            + b.base_oid,
        stale: old,
    }
}

/// The symbols among the first `n` of one claim that the other claims too.
pub open spec fn symbol_findings(
    a: Seen,
    b: Seen,
    ca: ClaimView,
    cb: ClaimView,
    old: bool,
    n: nat,
) -> Seq<FindingView>
    decreases n,
{
    if n == 0 {
        Seq::empty()
    } else {
        let rest = symbol_findings(a, b, ca, cb, old, (n - 1) as nat);
        if among(cb.symbols, ca.symbols[n - 1]) {
            rest.push(symbol_finding(a, b, ca.symbols[n - 1], old))
        } else {
            rest
        }
    }
}

/// What is found of one claim of each of two agents.
pub open spec fn claim_findings(
    a: Seen,
    b: Seen,
    ca: ClaimView,
    cb: ClaimView,
    old: bool,
) -> Seq<FindingView> {
    (if overlap(ca.path, cb.path) {
        seq![overlap_finding(a, b, ca, cb, old)]
    } else {
        Seq::empty()
    }) + symbol_findings(a, b, ca, cb, old, ca.symbols.len())
}

/// What is found of one claim against the first `n` claims of the other agent.
pub open spec fn against(
    a: Seen,
    b: Seen,
    ca: ClaimView,
    old: bool,
    n: nat,
) -> Seq<FindingView>
    decreases n,
{
    if n == 0 {
        Seq::empty()
    } else {
        against(a, b, ca, old, (n - 1) as nat) + claim_findings(a, b, ca, b.claims[n - 1], old)
    }
}

/// What is found of the first `n` claims of one agent against all of the other.
pub open spec fn between(a: Seen, b: Seen, old: bool, n: nat) -> Seq<FindingView>
    decreases n,
{
    if n == 0 {
        Seq::empty()
    } else {
        between(a, b, old, (n - 1) as nat) + against(a, b, a.claims[n - 1], old, b.claims.len())
    }
}

/// What is found of two agents together.
pub open spec fn pair_findings(a: Seen, b: Seen, now: u64) -> Seq<FindingView> {
    let old = seen_stale(a, now) || seen_stale(b, now);
    between(a, b, old, a.claims.len()) + (if a.base_oid.len() > 0 && b.base_oid.len() > 0
        && a.base_oid != b.base_oid {
        seq![base_finding(a, b, old)]
    } else {
        Seq::empty()
    })
}

pub open spec fn own_all(live: Seq<Seen>, now: u64, n: nat) -> Seq<FindingView>
    decreases n,
{
    if n == 0 {
        Seq::empty()
    } else {
        own_all(live, now, (n - 1) as nat) + own_findings(live[n - 1], now)
    }
}

/// The pairs of agent `i` with the agents behind it and before `j`.
pub open spec fn pairs_of(live: Seq<Seen>, now: u64, i: int, j: int) -> Seq<FindingView>
    decreases j - i,
{
    if j <= i + 1 {
        Seq::empty()
    } else {
        pairs_of(live, now, i, j - 1) + pair_findings(live[i], live[j - 1], now)
    }
}

pub open spec fn pairs_all(live: Seq<Seen>, now: u64, n: nat) -> Seq<FindingView>
    decreases n,
{
    if n == 0 {
        Seq::empty()
    } else {
        pairs_all(live, now, (n - 1) as nat) + pairs_of(live, now, n - 1, live.len() as int)
    }
}

/// The place of a kind in the order of kinds.
pub open spec fn kind_rank(kind: Seq<char>) -> u64 {
    if kind == "base_divergence"@ {
        0
    } else if kind == "drift"@ {
        1
    } else if kind == "path_overlap"@ {
        2
    } else if kind == "stale"@ {
        3
    } else {
        4
    }
}

pub open spec fn finding_keys(v: Seq<FindingView>) -> Seq<KeyView> {
    Seq::new(
        v.len(),
        |i: int|
            KeyView { rank: kind_rank(v[i].kind), name: v[i].detail, number: 0, at: i as nat },
    )
}

/// The findings by kind and then detail.
pub open spec fn ordered_findings(v: Seq<FindingView>) -> Seq<FindingView> {
    sort_order(finding_keys(v)).map_values(|i: int| v[i])
}

/// Without repetitions of the item before.
pub open spec fn deduped(v: Seq<FindingView>) -> Seq<FindingView>
    decreases v.len(),
{
    if v.len() == 0 {
        v
    } else {
        let rest = deduped(v.drop_last());
        if rest.len() > 0 && rest.last() == v.last() {
            rest
        } else {
            rest.push(v.last())
        }
    }
}

/// All findings about a group of agents, before they are ordered.
pub open spec fn raw_findings(agents: Seq<Seen>, now: u64) -> Seq<FindingView> {
    let live = agents.filter(present());
    own_all(live, now, live.len()) + pairs_all(live, now, live.len())
}

/// The findings about a group of agents: stale leases, drift, overlaps of paths
/// and symbols, and diverging bases, among the agents that have not checked out.
pub open spec fn findings(agents: Seq<Seen>, now: u64) -> Seq<FindingView> {
    deduped(ordered_findings(raw_findings(agents, now)))
}

fn one(s: &str) -> (r: Vec<String>)
    ensures
        strs(r@) == seq![s@],
{
    let mut v: Vec<String> = Vec::new();
    v.push(copy(s));
    assert(strs(v@) =~= seq![s@]);
    v
}

fn two(a: &str, b: &str) -> (r: Vec<String>)
    ensures
        strs(r@) == seq![a@, b@],
{
    let mut v: Vec<String> = Vec::new();
    v.push(copy(a));
    v.push(copy(b));
    assert(strs(v@) =~= seq![a@, b@]);
    v
}

fn add(out: &mut Vec<Finding>, f: Finding)
    ensures
        finding_views(final(out)@) == finding_views(old(out)@).push(f@),
{
    let ghost before = out@;
    out.push(f);
    assert(finding_views(out@) =~= finding_views(before).push(f@));
}

fn is_claimed(a: &AgentView, dirty: &str) -> (r: bool)
    ensures
        r == claimed(a@, dirty@),
{
    for i in 0..a.claims.len()
        invariant
            forall|j: int| 0 <= j < i ==> !covers((#[trigger] a@.claims[j]).path, dirty@),
    {
        if path_covers(a.claims[i].path.as_str(), dirty) {
            assert(a@.claims[i as int].path == a.claims@[i as int].path@);
            return true;
        }
        assert(a@.claims[i as int].path == a.claims@[i as int].path@);
    }
    false
}

fn add_own(out: &mut Vec<Finding>, a: &AgentView, now: u64)
    ensures
        finding_views(final(out)@) == finding_views(old(out)@) + own_findings(a@, now),
{
    let ghost base = finding_views(out@);
    let old_lease: bool = is_stale(a.state, a.expires_at, now);
    let ghost first: Seq<FindingView> = if old_lease {
        seq![stale_finding(a@)]
    } else {
        Seq::empty()
    };
    if old_lease {
        let mut detail = copy(a.agent_id);
        detail.append(" lease expired; work was not checked out");
        self::add(
            out,
            Finding { kind: copy("stale"), agents: one(a.agent_id), detail, stale: true },
        );
    }
    assert(finding_views(out@) =~= base + first + drift(a@, now, 0));
    for i in 0..a.dirty_paths.len()
        invariant
            old_lease == seen_stale(a@, now),
            finding_views(out@) == base + first + drift(a@, now, i as nat),
    {
        let d: &str = a.dirty_paths[i].as_str();
        assert(a@.dirty_paths[i as int] == d@);
        if !is_claimed(a, d) {
            let mut detail = copy(a.agent_id);
            detail.append(" dirty path ");
            detail.append(d);
            detail.append(" is outside declared claims");
            let ghost prev = drift(a@, now, i as nat);
            self::add(
                out,
                Finding { kind: copy("drift"), agents: one(a.agent_id), detail, stale: old_lease },
            );
            assert(finding_views(out@) =~= base + first + prev.push(
                drift_finding(a@, d@, now),
            ));
        }
    }
    assert(finding_views(out@) =~= base + own_findings(a@, now));
}

fn add_claims(
    out: &mut Vec<Finding>,
    a: &AgentView,
    b: &AgentView,
    ca: &Claim,
    cb: &Claim,
    old_lease: bool,
)
    ensures
        finding_views(final(out)@) == finding_views(old(out)@) + claim_findings(
            a@,
            b@,
            ca@,
            cb@,
            old_lease,
        ),
{
    let ghost base = finding_views(out@);
    let ghost first: Seq<FindingView> = if overlap(ca@.path, cb@.path) {
        seq![overlap_finding(a@, b@, ca@, cb@, old_lease)]
    } else {
        Seq::empty()
    };
    if paths_overlap(ca.path.as_str(), cb.path.as_str()) {
        let mut detail = copy(a.agent_id);
        detail.append(":");
        detail.append(ca.path.as_str());
        detail.append(" overlaps ");
        detail.append(b.agent_id);
        detail.append(":");
        detail.append(cb.path.as_str());
        self::add(
            out,
            Finding {
                kind: copy("path_overlap"),
                agents: two(a.agent_id, b.agent_id),
                detail,
                stale: old_lease,
            },
        );
    }
    assert(finding_views(out@) =~= base + first + symbol_findings(a@, b@, ca@, cb@, old_lease, 0));
    for i in 0..ca.symbols.len()
        invariant
            finding_views(out@) == base + first + symbol_findings(
                a@,
                b@,
                ca@,
                cb@,
                old_lease,
                i as nat,
            ),
    {
        let s: &str = ca.symbols[i].as_str();
        assert(ca@.symbols[i as int] == s@);
        if is_among(&cb.symbols, s) {
            let mut detail = copy(a.agent_id);
            detail.append(" and ");
            detail.append(b.agent_id);
            detail.append(" both claim symbol ");
            detail.append(s);
            let ghost prev = symbol_findings(a@, b@, ca@, cb@, old_lease, i as nat);
            self::add(
                out,
                Finding {
                    kind: copy("symbol_overlap"),
                    agents: two(a.agent_id, b.agent_id),
                    detail,
                    stale: old_lease,
                },
            );
            assert(finding_views(out@) =~= base + first + prev.push(
                symbol_finding(a@, b@, s@, old_lease),
            ));
        }
    }
    assert(finding_views(out@) =~= base + claim_findings(a@, b@, ca@, cb@, old_lease));
}

fn add_pair(out: &mut Vec<Finding>, a: &AgentView, b: &AgentView, now: u64)
    ensures
        finding_views(final(out)@) == finding_views(old(out)@) + pair_findings(a@, b@, now),
{
    let ghost base = finding_views(out@);
    let old_lease: bool = is_stale(a.state, a.expires_at, now) || is_stale(
        b.state,
        b.expires_at,
        now,
    );
    assert(finding_views(out@) =~= base + between(a@, b@, old_lease, 0));
    for i in 0..a.claims.len()
        invariant
            finding_views(out@) == base + between(a@, b@, old_lease, i as nat),
    {
        let ca = &a.claims[i];
        let ghost row = finding_views(out@);
        assert(finding_views(out@) =~= row + against(a@, b@, ca@, old_lease, 0));
        for j in 0..b.claims.len()
            invariant
                finding_views(out@) == row + against(a@, b@, ca@, old_lease, j as nat),
        {
            let ghost cell = against(a@, b@, ca@, old_lease, j as nat);
            add_claims(out, a, b, ca, &b.claims[j], old_lease);
            assert(b@.claims[j as int] == b.claims@[j as int]@);
            assert(finding_views(out@) =~= row + against(a@, b@, ca@, old_lease, (j + 1) as nat));
        }
        assert(a@.claims[i as int] == ca@);
        assert(finding_views(out@) =~= base + between(a@, b@, old_lease, (i + 1) as nat));
    }
    if !is_blank(a.base_oid) && !is_blank(b.base_oid) && !same(a.base_oid, b.base_oid) {
        let mut detail = copy(a.agent_id);
        detail.append(" base ");
        detail.append(a.base_oid);
        detail.append(" != ");
        detail.append(b.agent_id);
        detail.append(" base ");
        detail.append(b.base_oid);
        self::add(
            out,
            Finding {
                kind: copy("base_divergence"),
                agents: two(a.agent_id, b.agent_id),
                detail,
                stale: old_lease,
            },
        );
    }
    assert(finding_views(out@) =~= base + pair_findings(a@, b@, now));
}

fn rank_of(kind: &str) -> (r: u64)
    ensures
        r == kind_rank(kind@),
{
    if same(kind, "base_divergence") {
        0
    } else if same(kind, "drift") {
        1
    } else if same(kind, "path_overlap") {
        2
    } else if same(kind, "stale") {
        3
    } else {
        4
    }
}

fn same_finding(a: &Finding, b: &Finding) -> (r: bool)
    ensures
        r == (a@ == b@),
{
    same(a.kind.as_str(), b.kind.as_str()) && same_all(&a.agents, &b.agents) && same(
        a.detail.as_str(),
        b.detail.as_str(),
    ) && a.stale == b.stale
}

fn copy_finding(f: &Finding) -> (r: Finding)
    ensures
        r@ == f@,
{
    Finding {
        kind: copy(f.kind.as_str()),
        agents: crate::text::copy_all(&f.agents),
        detail: copy(f.detail.as_str()),
        stale: f.stale,
    }
}

pub fn advisory_findings(agents: &[AgentView], now: u64) -> (r: Vec<Finding>)
    ensures
        finding_views(r@) == findings(seen_views(agents@), now),
{
    let ghost all = seen_views(agents@);
    let ghost live_all = all.filter(present());
    let mut live: Vec<usize> = Vec::new();
    assert(all.take(0).filter(present()) =~= Seq::<Seen>::empty()) by {
        reveal(Seq::filter);
    }
    for i in 0..agents.len()
        invariant
            all == seen_views(agents@),
            live@.len() == all.take(i as int).filter(present()).len(),
            forall|k: int|
                0 <= k < live@.len() ==> (#[trigger] live@[k]) < agents@.len() && all[live@[k] as int]
                    == all.take(i as int).filter(present())[k],
    {
        proof {
            assert(all.take(i + 1) =~= all.take(i as int).push(all[i as int]));
            all.take(i as int).lemma_filter_push(all[i as int], present());
        }
        if agents[i].state != AgentState::CheckedOut {
            live.push(i);
        }
    }
    assert(all.take(all.len() as int) =~= all);
    let mut out: Vec<Finding> = Vec::new();
    assert(finding_views(out@) =~= own_all(live_all, now, 0));
    for i in 0..live.len()
        invariant
            all == seen_views(agents@),
            live@.len() == live_all.len(),
            forall|k: int|
                0 <= k < live@.len() ==> (#[trigger] live@[k]) < agents@.len() && all[live@[k] as int]
                    == live_all[k],
            finding_views(out@) == own_all(live_all, now, i as nat),
    {
        assert(live@[i as int] < agents@.len());
        add_own(&mut out, &agents[live[i]], now);
        assert(all[live@[i as int] as int] == agents@[live@[i as int] as int]@);
    }
    let ghost owns = own_all(live_all, now, live_all.len());
    assert(finding_views(out@) =~= owns + pairs_all(live_all, now, 0));
    for i in 0..live.len()
        invariant
            all == seen_views(agents@),
            live@.len() == live_all.len(),
            forall|k: int|
                0 <= k < live@.len() ==> (#[trigger] live@[k]) < agents@.len() && all[live@[k] as int]
                    == live_all[k],
            finding_views(out@) == owns + pairs_all(live_all, now, i as nat),
    {
        let ghost row = finding_views(out@);
        assert(finding_views(out@) =~= row + pairs_of(live_all, now, i as int, i + 1));
        assert(live@[i as int] < agents@.len());
        assert(all[live@[i as int] as int] == agents@[live@[i as int] as int]@);
        let mut j: usize = i + 1;
        while j < live.len()
            invariant
                all == seen_views(agents@),
                i < live@.len(),
                i < j <= live@.len(),
                live@.len() == live_all.len(),
                forall|k: int|
                    0 <= k < live@.len() ==> (#[trigger] live@[k]) < agents@.len()
                        && all[live@[k] as int] == live_all[k],
                agents@[live@[i as int] as int]@ == live_all[i as int],
                finding_views(out@) == row + pairs_of(live_all, now, i as int, j as int),
            decreases live@.len() - j,
        {
            assert(live@[j as int] < agents@.len());
            assert(live@[i as int] < agents@.len());
            add_pair(&mut out, &agents[live[i]], &agents[live[j]], now);
            assert(all[live@[j as int] as int] == agents@[live@[j as int] as int]@);
            assert(finding_views(out@) =~= row + pairs_of(live_all, now, i as int, j + 1));
            j += 1;
        }
        assert(finding_views(out@) =~= owns + pairs_all(live_all, now, (i + 1) as nat));
    }
    let ghost raw = finding_views(out@);
    assert(raw == raw_findings(all, now));
    let mut keys: Vec<Key> = Vec::new();
    for i in 0..out.len()
        invariant
            raw == finding_views(out@),
            keys@.len() == i,
            forall|k: int| 0 <= k < i ==> (#[trigger] keys@[k])@ == finding_keys(raw)[k],
    {
        keys.push(
            Key {
                rank: rank_of(out[i].kind.as_str()),
                name: copy(out[i].detail.as_str()),
                number: 0,
                at: i,
            },
        );
        assert(raw[i as int] == out@[i as int]@);
    }
    assert(key_views(keys@) =~= finding_keys(raw));
    let order = sort(keys);
    let ghost ranked = ordered_findings(raw);
    let mut done: Vec<Finding> = Vec::new();
    assert(finding_views(done@) =~= deduped(ranked.take(0)));
    for i in 0..order.len()
        invariant
            raw == finding_views(out@),
            ranked == ordered_findings(raw),
            ranked.len() == order@.len(),
            sort_order(finding_keys(raw)).len() == order@.len(),
            forall|k: int|
                0 <= k < order@.len() ==> (#[trigger] order@[k] as int) == sort_order(
                    finding_keys(raw),
                )[k] && order@[k] < out@.len(),
            finding_views(done@) == deduped(ranked.take(i as int)),
    {
        assert(order@[i as int] < out@.len());
        let f = &out[order[i]];
        proof {
            assert(ranked[i as int] == raw[order@[i as int] as int]);
            assert(ranked[i as int] == f@);
            assert(ranked.take(i + 1).drop_last() =~= ranked.take(i as int));
            assert(ranked.take(i + 1).last() == f@);
        }
        let repeated: bool = if done.len() > 0 {
            let last: usize = done.len() - 1;
            assert(finding_views(done@).last() == done@[last as int]@);
            same_finding(&done[last], f)
        } else {
            false
        };
        if !repeated {
            self::add(&mut done, copy_finding(f));
        }
    }
    assert(ranked.take(ranked.len() as int) =~= ranked);
    done
}

/// What the findings may be about.
pub open spec fn finding_kind(kind: Seq<char>) -> bool {
    ||| kind == "stale"@
    ||| kind == "drift"@
    ||| kind == "path_overlap"@
    ||| kind == "symbol_overlap"@
    ||| kind == "base_divergence"@
}

/// Whether a finding is advisory and names only agents of the group that have
/// not checked out.
pub open spec fn proper(agents: Seq<Seen>, f: FindingView) -> bool {
    &&& finding_kind(f.kind)
    &&& forall|k: int|
        0 <= k < f.agents.len() ==> exists|i: int|
            0 <= i < agents.len() && (#[trigger] agents[i]).state != AgentState::CheckedOut
                && agents[i].agent_id == #[trigger] f.agents[k]
}

pub open spec fn all_proper(agents: Seq<Seen>, fs: Seq<FindingView>) -> bool {
    forall|i: int| 0 <= i < fs.len() ==> proper(agents, #[trigger] fs[i])
}

/// Every finding is one of the five advisory kinds, and no finding names an
/// agent that has checked out.
pub proof fn law_findings_advise(agents: Seq<Seen>, now: u64)
    ensures
        all_proper(agents, findings(agents, now)),
{
    let live = agents.filter(present());
    assert(drawn_from(live, agents)) by {
        assert forall|i: int| 0 <= i < live.len() implies exists|k: int|
            0 <= k < agents.len() && (#[trigger] agents[k]).state != AgentState::CheckedOut
                && agents[k].agent_id == (#[trigger] live[i]).agent_id by {
            agents.lemma_filter_pred(present(), i);
            assert(live.contains(live[i]));
            agents.lemma_filter_contains_rev(present(), live[i]);
            let k = choose|k: int| 0 <= k < agents.len() && agents[k] == live[i];
            assert(agents[k].state != AgentState::CheckedOut);
        }
    }
    lemma_own_proper(agents, live, now, live.len());
    lemma_pairs_all_proper(agents, live, now, live.len());
    let raw = raw_findings(agents, now);
    assert(all_proper(agents, raw));
    let keys = finding_keys(raw);
    crate::order::lemma_key_order();
    keys.lemma_sort_by_ensures(crate::order::key_le());
    let sorted = crate::order::sorted_keys(keys);
    let ranked = ordered_findings(raw);
    assert forall|i: int| 0 <= i < ranked.len() implies proper(agents, #[trigger] ranked[i]) by {
        broadcast use vstd::seq_lib::group_to_multiset_ensures;

        assert(sorted.contains(sorted[i]));
        assert(keys.to_multiset().count(sorted[i]) > 0);
        assert(keys.contains(sorted[i]));
        let q = choose|q: int| 0 <= q < keys.len() && keys[q] == sorted[i];
        assert(ranked[i] == raw[q]);
    }
    lemma_dedup_proper(agents, ranked);
}

proof fn lemma_dedup_proper(agents: Seq<Seen>, v: Seq<FindingView>)
    requires
        all_proper(agents, v),
    ensures
        all_proper(agents, deduped(v)),
    decreases v.len(),
{
    if v.len() > 0 {
        let t = v.drop_last();
        assert forall|i: int| 0 <= i < t.len() implies proper(agents, #[trigger] t[i]) by {
            assert(t[i] == v[i]);
        }
        lemma_dedup_proper(agents, t);
        assert(proper(agents, v[v.len() - 1]));
    }
}

proof fn lemma_drift_proper(agents: Seq<Seen>, a: Seen, now: u64, n: nat)
    requires
        exists|k: int|
            0 <= k < agents.len() && (#[trigger] agents[k]).state != AgentState::CheckedOut
                && agents[k].agent_id == a.agent_id,
        n <= a.dirty_paths.len(),
    ensures
        all_proper(agents, drift(a, now, n)),
    decreases n,
{
    if n > 0 {
        lemma_drift_proper(agents, a, now, (n - 1) as nat);
    }
}

/// Every agent of `live` is one of `agents` that has not checked out.
pub open spec fn drawn_from(live: Seq<Seen>, agents: Seq<Seen>) -> bool {
    forall|i: int|
        0 <= i < live.len() ==> exists|k: int|
            0 <= k < agents.len() && (#[trigger] agents[k]).state != AgentState::CheckedOut
                && agents[k].agent_id == (#[trigger] live[i]).agent_id
}

proof fn lemma_own_proper(agents: Seq<Seen>, live: Seq<Seen>, now: u64, n: nat)
    requires
        drawn_from(live, agents),
        n <= live.len(),
    ensures
        all_proper(agents, own_all(live, now, n)),
    decreases n,
{
    if n > 0 {
        lemma_own_proper(agents, live, now, (n - 1) as nat);
        let a = live[n - 1];
        lemma_drift_proper(agents, a, now, a.dirty_paths.len());
        assert(proper(agents, stale_finding(a)));
    }
}

proof fn lemma_pair_proper(agents: Seq<Seen>, a: Seen, b: Seen, now: u64)
    requires
        drawn_from(seq![a, b], agents),
    ensures
        all_proper(agents, pair_findings(a, b, now)),
{
    let live = seq![a, b];
    assert(live[0] == a && live[1] == b);
    let old = seen_stale(a, now) || seen_stale(b, now);
    lemma_between_proper(agents, a, b, old, a.claims.len());
    assert(proper(agents, base_finding(a, b, old)));
}

proof fn lemma_between_proper(agents: Seq<Seen>, a: Seen, b: Seen, old: bool, n: nat)
    requires
        drawn_from(seq![a, b], agents),
    ensures
        all_proper(agents, between(a, b, old, n)),
    decreases n,
{
    if n > 0 {
        lemma_between_proper(agents, a, b, old, (n - 1) as nat);
        lemma_against_proper(agents, a, b, a.claims[n - 1], old, b.claims.len());
    }
}

proof fn lemma_against_proper(
    agents: Seq<Seen>,
    a: Seen,
    b: Seen,
    ca: ClaimView,
    old: bool,
    n: nat,
)
    requires
        drawn_from(seq![a, b], agents),
    ensures
        all_proper(agents, against(a, b, ca, old, n)),
    decreases n,
{
    if n > 0 {
        lemma_against_proper(agents, a, b, ca, old, (n - 1) as nat);
        let cb = b.claims[n - 1];
        lemma_symbols_proper(agents, a, b, ca, cb, old, ca.symbols.len());
        let live = seq![a, b];
        assert(live[0] == a && live[1] == b);
        assert(proper(agents, overlap_finding(a, b, ca, cb, old)));
    }
}

proof fn lemma_symbols_proper(
    agents: Seq<Seen>,
    a: Seen,
    b: Seen,
    ca: ClaimView,
    cb: ClaimView,
    old: bool,
    n: nat,
)
    requires
        drawn_from(seq![a, b], agents),
    ensures
        all_proper(agents, symbol_findings(a, b, ca, cb, old, n)),
    decreases n,
{
    if n > 0 {
        lemma_symbols_proper(agents, a, b, ca, cb, old, (n - 1) as nat);
        let live = seq![a, b];
        assert(live[0] == a && live[1] == b);
        assert(proper(agents, symbol_finding(a, b, ca.symbols[n - 1], old)));
    }
}

proof fn lemma_pairs_of_proper(agents: Seq<Seen>, live: Seq<Seen>, now: u64, i: int, j: int)
    requires
        drawn_from(live, agents),
        0 <= i < live.len(),
        j <= live.len(),
    ensures
        all_proper(agents, pairs_of(live, now, i, j)),
    decreases j - i,
{
    if j > i + 1 {
        lemma_pairs_of_proper(agents, live, now, i, j - 1);
        let two_of = seq![live[i], live[j - 1]];
        assert(drawn_from(two_of, agents)) by {
            assert forall|q: int| 0 <= q < two_of.len() implies exists|k: int|
                0 <= k < agents.len() && (#[trigger] agents[k]).state != AgentState::CheckedOut
                    && agents[k].agent_id == (#[trigger] two_of[q]).agent_id by {
                if q == 0 {
                    assert(two_of[q] == live[i]);
                } else {
                    assert(two_of[q] == live[j - 1]);
                }
            }
        }
        lemma_pair_proper(agents, live[i], live[j - 1], now);
    }
}

proof fn lemma_pairs_all_proper(agents: Seq<Seen>, live: Seq<Seen>, now: u64, n: nat)
    requires
        drawn_from(live, agents),
        n <= live.len(),
    ensures
        all_proper(agents, pairs_all(live, now, n)),
    decreases n,
{
    if n > 0 {
        lemma_pairs_all_proper(agents, live, now, (n - 1) as nat);
        lemma_pairs_of_proper(agents, live, now, n - 1, live.len() as int);
    }
}

/// Whether a string anywhere in a value looks like key material.
pub open spec fn secret(j: Json) -> bool
    decreases j, 0nat,
{
    match j {
        Json::Str(s) => holds(s, "-----BEGIN "@),
        Json::Array(a) => secret_item(a, a.len()),
        Json::Object(ms) => secret_member(ms, ms.len()),
        _ => false,
    }
}

/// Whether one of the first `n` items does.
pub open spec fn secret_item(a: Seq<Json>, n: nat) -> bool
    decreases a, n,
{
    0 < n <= a.len() && (secret(a[n - 1]) || secret_item(a, (n - 1) as nat))
}

/// Whether one of the first `n` members does.
pub open spec fn secret_member(ms: Seq<(Seq<char>, Json)>, n: nat) -> bool
    decreases ms, n,
{
    0 < n <= ms.len() && (secret(ms[n - 1].1) || secret_member(ms, (n - 1) as nat))
}

/// The first member of an object that would carry source text.
pub open spec fn source_key(j: Json) -> Option<Seq<char>> {
    if get(j, "patch"@) is Some {
        Some("patch"@)
    } else if get(j, "diff"@) is Some {
        Some("diff"@)
    } else if get(j, "source"@) is Some {
        Some("source"@)
    } else if get(j, "file_contents"@) is Some {
        Some("file_contents"@)
    } else if get(j, "contents"@) is Some {
        Some("contents"@)
    } else {
        None
    }
}

/// What a payload is refused for: source text at its top level, or key
/// material anywhere.
pub open spec fn payload_fault(j: Json) -> Result<(), Seq<char>> {
    match source_key(j) {
        Some(k) => Err(
            "refusing to store "@ + k + "; Izakaya keeps references, not source bodies"@,
        ),
        None => if secret(j) {
            Err("refusing to store secret-looking material"@)
        } else {
            Ok(())
        },
    }
}

fn has_secret(v: &Datum) -> (r: bool)
    ensures
        r == secret(v@),
    decreases v,
{
    match v {
        Datum::Str(s) => contains(s.as_str(), "-----BEGIN "),
        Datum::Array(a) => {
            proof {
                crate::json::lemma_array_view(*a);
            }
            let mut found: bool = false;
            for i in 0..a.len()
                invariant
                    *v == Datum::Array(*a),
                    found == secret_item(crate::json::views(a@), i as nat),
            {
                let x: &Datum = &a[i];
                assert(decreases_to!(v => x)) by {
                    let b = (*v)->Array_0;
                    assert(decreases_to!(*v => (*v)->Array_0));
                    assert(decreases_to!(b => b@));
                    assert(decreases_to!(b@ => b@[i as int]));
                }
                assert(crate::json::views(a@)[i as int] == x@);
                let here: bool = has_secret(x);
                found = here || found;
            }
            found
        },
        Datum::Object(a) => {
            proof {
                crate::json::lemma_object_view(*a);
            }
            let mut found: bool = false;
            for i in 0..a.len()
                invariant
                    *v == Datum::Object(*a),
                    found == secret_member(members(a@), i as nat),
            {
                let x: &Datum = &a[i].1;
                assert(decreases_to!(v => x)) by {
                    let b = (*v)->Object_0;
                    assert(decreases_to!(*v => (*v)->Object_0));
                    assert(decreases_to!(b => b@));
                    assert(decreases_to!(b@ => b@[i as int]));
                    assert(decreases_to!(b@[i as int] => b@[i as int].1));
                }
                assert(members(a@)[i as int].1 == x@);
                let here: bool = has_secret(x);
                found = here || found;
            }
            found
        },
        _ => false,
    }
}

fn source_fault(key: &str) -> (r: String)
    ensures
        r@ == "refusing to store "@ + key@ + "; Izakaya keeps references, not source bodies"@,
{
    let mut e = copy("refusing to store ");
    e.append(key);
    e.append("; Izakaya keeps references, not source bodies");
    e
}

pub fn reject_unsafe_payload(v: &Datum) -> (r: Result<(), String>)
    ensures
        verdict(r) == payload_fault(v@),
{
    if v.get("patch").is_some() {
        return Err(source_fault("patch"));
    }
    if v.get("diff").is_some() {
        return Err(source_fault("diff"));
    }
    if v.get("source").is_some() {
        return Err(source_fault("source"));
    }
    if v.get("file_contents").is_some() {
        return Err(source_fault("file_contents"));
    }
    if v.get("contents").is_some() {
        return Err(source_fault("contents"));
    }
    if has_secret(v) {
        Err(copy("refusing to store secret-looking material"))
    } else {
        Ok(())
    }
}

/// The reason with a given name, after trimming.
pub open spec fn reason_named(raw: Seq<char>) -> Result<Seq<char>, Seq<char>> {
    let t = trimmed(raw);
    if t == "completed"@ || t == "handed_off"@ || t == "abandoned"@ {
        Ok(t)
    } else {
        Err(
            "unknown checkout reason "@ + quoted(t)
                + "; expected completed|handed_off|abandoned"@,
        )
    }
}

pub fn checkout_reason(raw: &str) -> (r: Result<&'static str, String>)
    ensures
        match (r, reason_named(raw@)) {
            (Ok(a), Ok(b)) => a@ == b,
            (Err(a), Err(b)) => a@ == b,
            _ => false,
        },
{
    let t = trim(raw);
    if same(t.as_str(), "completed") {
        Ok("completed")
    } else if same(t.as_str(), "handed_off") {
        Ok("handed_off")
    } else if same(t.as_str(), "abandoned") {
        Ok("abandoned")
    } else {
        let mut e = copy("unknown checkout reason ");
        e.append(quote(t.as_str()).as_str());
        e.append("; expected completed|handed_off|abandoned");
        Err(e)
    }
}

} // verus!

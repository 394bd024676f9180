//! Checking in, updating and checking out, and the read-only board.
//!
//! These are explicit. A lease that runs out marks an agent stale but does not
//! check it out, transfer its claims, or touch Git.
use vstd::prelude::*;
use crate::izakaya::model::{
    bound, bound_strings, bounded, bounded_all, checkout_reason, claim_from, claim_views,
    is_stale, may_move, payload_fault, reason_named, reject_unsafe_payload, slug, stale,
    state_name, state_named, transition, validate_slug, AgentState, Claim, ClaimView,
    MAX_CLAIMS, MAX_ITEM, MAX_LIST, MAX_SUMMARY,
};
use crate::izakaya::profiles::{
    adapted, adapter_views, apply_run_adapters, run_views, AdapterView, RunAdapter, RunFacts,
    RunView,
};
use crate::izakaya::records::{
    claims_json, claims_value, copy_claims, some_str, AgentRecord, HandoffView,
};
use crate::izakaya::store::{
    applied, event_from, event_json, event_views, idempotent_result, Agent, Event, EventView, GitSnapshot, GitView,
    Projection, ProjectionView,
};
use crate::mas::{SessionSnapshot, SnapshotView};
use crate::izakaya::commit::{
    call_view, commit, committed, event_of, law_stored_projection_is_replay, Answer, AnswerView, Committed, CommittedView, Prepared,
    PreparedView,
};
use crate::json::{
    add_member, array, as_array, as_object, as_str, as_u64, bool_or, double_json, flag_or, get,
    build, get_items, get_str, is_number, number_or, put_all, record, get_strings, get_u64,
    json_opt_str,
    json_opt_u64, json_strs, members, no_members, object, opt_str_value, opt_u64_value, str_or
    as text_or, str_value, string_or, strings_at, strs_value, u64_or, views, Datum, Json,
};
use crate::paths::{rel_path, validate_rel_path};
use crate::smap::{at, lemma_at_put, StrMap};
use crate::text::{
    copy, copy_all, copy_opt, dec, decimal, is_blank, opt_text, outcome, same, strs, verdict,
};

verus! {

// ---------------------------------------------------------------------------
// Arguments

/// A bounded argument that is not empty.
pub open spec fn arg(j: Json, key: Seq<char>) -> Option<Seq<char>> {
    match as_str(get(j, key)) {
        Some(s) => if bounded(s, MAX_SUMMARY as nat).len() > 0 {
            Some(bounded(s, MAX_SUMMARY as nat))
        } else {
            None
        },
        None => None,
    }
}

pub open spec fn arg_text(j: Json, key: Seq<char>) -> Seq<char> {
    match arg(j, key) {
        Some(s) => s,
        None => ""@,
    }
}

pub fn opt(args: &Datum, key: &str) -> (r: Option<String>)
    ensures
        opt_text(r) == arg(args@, key@),
{
    match get_str(args, key) {
        Some(s) => {
            let b = bound(s.as_str(), MAX_SUMMARY);
            if is_blank(b.as_str()) {
                None
            } else {
                Some(b)
            }
        },
        None => None,
    }
}

pub fn bound_opt(args: &Datum, key: &str) -> (r: String)
    ensures
        r@ == arg_text(args@, key@),
{
    match opt(args, key) {
        Some(s) => s,
        None => copy(""),
    }
}

/// An argument that has to be a string and not empty.
pub open spec fn need(j: Json, key: Seq<char>) -> Result<Seq<char>, Seq<char>> {
    match some_str(j, key) {
        Some(s) => Ok(s),
        None => Err(key + " is required"@),
    }
}

pub fn required(args: &Datum, key: &str) -> (r: Result<String, String>)
    ensures
        outcome(r) == need(args@, key@),
{
    match crate::izakaya::records::opt_str(args, key) {
        Some(s) => Ok(s),
        None => {
            let mut e = copy(key);
            e.append(" is required");
            Err(e)
        },
    }
}

/// The agent that a call is about.
pub open spec fn agent_named(j: Json) -> Result<Seq<char>, Seq<char>> {
    match as_str(get(j, "agent_id"@)) {
        Some(s) => slug("agent_id"@, s),
        None => match as_str(get(j, "agent"@)) {
            Some(s) => slug("agent_id"@, s),
            None => Err("agent_id is required"@),
        },
    }
}

pub fn agent_id_of(args: &Datum) -> (r: Result<String, String>)
    ensures
        outcome(r) == agent_named(args@),
{
    match get_str(args, "agent_id") {
        Some(s) => validate_slug("agent_id", s.as_str()),
        None => match get_str(args, "agent") {
            Some(s) => validate_slug("agent_id", s.as_str()),
            None => Err(copy("agent_id is required")),
        },
    }
}

/// A bounded list of bounded strings.
pub open spec fn arg_list(j: Json, key: Seq<char>) -> Seq<Seq<char>> {
    bounded_all(strings_at(j, key), MAX_LIST as nat, MAX_ITEM as nat)
}

pub fn string_list(args: &Datum, key: &str) -> (r: Vec<String>)
    ensures
        strs(r@) == arg_list(args@, key@),
{
    let raw = get_strings(args, key);
    bound_strings(raw.as_slice(), MAX_LIST, MAX_ITEM)
}

/// The answer given earlier under the call's idempotency key.
pub open spec fn earlier(p: ProjectionView, j: Json) -> Option<Seq<char>> {
    match arg(j, "idempotency_key"@) {
        Some(k) => match at(p.idempotency, k) {
            Some(h) => Some(h.result),
            None => None,
        },
        None => None,
    }
}

pub fn cached(proj: &Projection, args: &Datum) -> (r: Option<String>)
    ensures
        opt_text(r) == earlier(proj@, args@),
{
    match opt(args, "idempotency_key") {
        Some(k) => idempotent_result(proj, k.as_str()),
        None => None,
    }
}

/// The reply to a call that was answered before.
pub open spec fn again(text: Seq<char>, agent_id: Seq<char>) -> Json {
    Json::Object(
        seq![
            ("agent_id"@, Json::Str(agent_id)),
            ("idempotent"@, Json::Bool(true)),
            ("text"@, Json::Str(text)),
        ],
    )
}

pub fn repeat_reply(text: &str, agent_id: &str) -> (r: Datum)
    ensures
        r@ == again(text@, agent_id@),
{
    let mut ms = no_members();
    add_member(&mut ms, "agent_id", str_value(agent_id));
    add_member(&mut ms, "idempotent", Datum::Bool(true));
    add_member(&mut ms, "text", str_value(text));
    let r = object(ms);
    assert(r@->Object_0 =~= again(text@, agent_id@)->Object_0);
    r
}

// ---------------------------------------------------------------------------
// Agents, leases and revisions

/// The lease of an agent's incarnation.
pub open spec fn lease_name(agent: Seq<char>, revision: nat, now: nat) -> Seq<char> {
    agent + "-"@ + dec(revision) + "-"@ + dec(now)
}

pub fn new_lease(agent: &str, revision: u64, now: u64) -> (r: String)
    ensures
        r@ == lease_name(agent@, revision as nat, now as nat),
{
    let mut s = copy(agent);
    s.append("-");
    s.append(decimal(revision).as_str());
    s.append("-");
    s.append(decimal(now).as_str());
    s
}

/// The record of an agent that is present.
pub open spec fn live(p: ProjectionView, id: Seq<char>) -> Result<AgentRecord, Seq<char>> {
    match at(p.agents, id) {
        None => Err("agent "@ + id + " is not checked in"@),
        Some(a) => if a.state == "checked_out"@ {
            Err("agent "@ + id + " is checked out"@)
        } else {
            Ok(a)
        },
    }
}

pub fn live_agent<'a>(proj: &'a Projection, agent_id: &str) -> (r: Result<&'a Agent, String>)
    ensures
        match (r, live(proj@, agent_id@)) {
            (Ok(a), Ok(b)) => a@ == b && at(proj@.agents, agent_id@) == Some(a@),
            (Err(a), Err(b)) => a@ == b,
            _ => false,
        },
{
    match proj.agents.get(agent_id) {
        None => {
            let mut e = copy("agent ");
            e.append(agent_id);
            e.append(" is not checked in");
            Err(e)
        },
        Some(a) => if same(a.state.as_str(), AgentState::CheckedOut.as_str()) {
            let mut e = copy("agent ");
            e.append(agent_id);
            e.append(" is checked out");
            Err(e)
        } else {
            Ok(a)
        },
    }
}

/// The conflict between the revision that a call expects and the present one.
pub open spec fn revision_fault(j: Json, have: u64) -> Result<(), Seq<char>> {
    match as_u64(get(j, "expected_revision"@)) {
        Some(exp) => if exp != have {
            Err("revision conflict: expected "@ + dec(exp as nat) + " have "@ + dec(have as nat))
        } else {
            Ok(())
        },
        None => Ok(()),
    }
}

pub fn expect_revision(args: &Datum, have: u64) -> (r: Result<(), String>)
    ensures
        verdict(r) == revision_fault(args@, have),
{
    match get_u64(args, "expected_revision") {
        Some(exp) => if exp != have {
            let mut e = copy("revision conflict: expected ");
            e.append(decimal(exp).as_str());
            e.append(" have ");
            e.append(decimal(have).as_str());
            Err(e)
        } else {
            Ok(())
        },
        None => Ok(()),
    }
}

/// The lease that a call has to hold.
pub open spec fn lease_fault(a: AgentRecord, id: Seq<char>, lease: Seq<char>) -> Result<
    (),
    Seq<char>,
> {
    if a.lease_id != lease {
        Err("lease mismatch for agent "@ + id)
    } else {
        Ok(())
    }
}

fn expect_lease(a: &Agent, id: &str, lease: &str) -> (r: Result<(), String>)
    ensures
        verdict(r) == lease_fault(a@, id@, lease@),
{
    if !same(a.lease_id.as_str(), lease) {
        let mut e = copy("lease mismatch for agent ");
        e.append(id);
        Err(e)
    } else {
        Ok(())
    }
}

/// Numbers that can still grow: the sequence, and the revision of the agent that a call
/// speaks of.
pub open spec fn roomy(p: ProjectionView, j: Json) -> bool {
    &&& p.seq < u64::MAX
    &&& agent_named(j) matches Ok(id) ==> (at(p.agents, id) matches Some(a) ==> a.revision
        < u64::MAX)
}

/// What a check-in gives an agent: its lease, its revision, and whether this is
/// a new incarnation. An agent that is present keeps its lease if the call
/// names it; otherwise the call has to force, or the lease to have run out.
pub open spec fn lease_for(p: ProjectionView, id: Seq<char>, j: Json, now: u64) -> Result<
    (Seq<char>, u64, bool),
    Seq<char>,
> {
    match at(p.agents, id) {
        None => Ok((lease_name(id, 1, now as nat), 1, true)),
        Some(a) => {
            let next = (a.revision + 1) as u64;
            if a.state == "checked_out"@ {
                Ok((lease_name(id, next as nat, now as nat), next, true))
            } else {
                match state_named(a.state) {
                    Err(e) => Err(e),
                    Ok(s) => if arg(j, "lease_id"@) == Some(a.lease_id) {
                        Ok((a.lease_id, next, false))
                    } else if stale(s, a.expires_at, now) || bool_or(j, "force"@, false) {
                        Ok((lease_name(id, next as nat, now as nat), next, true))
                    } else {
                        Err(
                            "agent "@ + id
                                + " is checked in; pass lease_id to resume, or force:true / wait for expiry"@,
                        )
                    },
                }
            }
        },
    }
}

fn grant_lease(proj: &Projection, id: &str, args: &Datum, now: u64) -> (r: Result<
    (String, u64, bool),
    String,
>)
    requires
        at(proj@.agents, id@) matches Some(a) ==> a.revision < u64::MAX,
    ensures
        match (r, lease_for(proj@, id@, args@, now)) {
            (Ok(a), Ok(b)) => a.0@ == b.0 && a.1 == b.1 && a.2 == b.2,
            (Err(a), Err(b)) => a@ == b,
            _ => false,
        },
{
    match proj.agents.get(id) {
        None => Ok((new_lease(id, 1, now), 1, true)),
        Some(a) => {
            let next: u64 = a.revision + 1;
            if same(a.state.as_str(), AgentState::CheckedOut.as_str()) {
                return Ok((new_lease(id, next, now), next, true));
            }
            let state = match AgentState::parse(a.state.as_str()) {
                Ok(s) => s,
                Err(e) => {
                    return Err(e);
                },
            };
            let expired: bool = is_stale(state, a.expires_at, now);
            let resumed: bool = match opt(args, "lease_id") {
                Some(l) => same(l.as_str(), a.lease_id.as_str()),
                None => false,
            };
            if resumed {
                Ok((copy(a.lease_id.as_str()), next, false))
            } else if expired || flag_or(args, "force", false) {
                Ok((new_lease(id, next, now), next, true))
            } else {
                let mut e = copy("agent ");
                e.append(id);
                e.append(
                    " is checked in; pass lease_id to resume, or force:true / wait for expiry",
                );
                Err(e)
            }
        },
    }
}

// ---------------------------------------------------------------------------
// Claims and actions in arguments

/// A claim given as a bare path, or as an object that has one.
pub open spec fn draft_claim(j: Json) -> Option<ClaimView> {
    match j {
        Json::Str(p) => Some(ClaimView { path: p, symbols: Seq::empty(), intent: "edit"@ }),
        _ => claim_from(j),
    }
}

/// The first `n` claims of a call, or the first fault among them. A claimed path
/// lies below the root.
pub open spec fn claims_upto(items: Seq<Json>, n: nat) -> Result<Seq<ClaimView>, Seq<char>>
    decreases n,
{
    if n == 0 {
        Ok(Seq::empty())
    } else {
        match claims_upto(items, (n - 1) as nat) {
            Err(e) => Err(e),
            Ok(rest) => match draft_claim(items[n - 1]) {
                None => Err("claim needs a path"@),
                Some(c) => match rel_path(c.path) {
                    Err(e) => Err(e),
                    Ok(p) => Ok(rest.push(ClaimView { path: p, ..c })),
                },
            },
        }
    }
}

/// How many claims of a call are looked at.
pub open spec fn claim_count(j: Json) -> nat {
    match as_array(get(j, "claims"@)) {
        Some(a) => if a.len() <= MAX_CLAIMS {
            a.len()
        } else {
            MAX_CLAIMS as nat
        },
        None => 0,
    }
}

pub open spec fn claims_given(j: Json) -> Result<Seq<ClaimView>, Seq<char>> {
    match as_array(get(j, "claims"@)) {
        Some(a) => claims_upto(a, claim_count(j)),
        None => Ok(Seq::empty()),
    }
}

proof fn lemma_claims_err(items: Seq<Json>, k: nat, n: nat)
    requires
        k <= n,
        claims_upto(items, k) is Err,
    ensures
        claims_upto(items, n) == claims_upto(items, k),
    decreases n,
{
    if k < n {
        lemma_claims_err(items, k, (n - 1) as nat);
    }
}

pub fn parse_claims(args: &Datum) -> (r: Result<Vec<Claim>, String>)
    ensures
        match (r, claims_given(args@)) {
            (Ok(a), Ok(b)) => claim_views(a@) == b,
            (Err(a), Err(b)) => a@ == b,
            _ => false,
        },
{
    let mut out: Vec<Claim> = Vec::new();
    assert(claim_views(out@) =~= Seq::<ClaimView>::empty());
    let items = match get_items(args, "claims") {
        Some(a) => a,
        None => {
            return Ok(out);
        },
    };
    let ghost all = views(items@);
    let n: usize = if items.len() <= MAX_CLAIMS {
        items.len()
    } else {
        MAX_CLAIMS
    };
    for i in 0..n
        invariant
            all == views(items@),
            n <= items@.len(),
            claims_given(args@) == claims_upto(all, n as nat),
            claims_upto(all, i as nat) == Ok::<Seq<ClaimView>, Seq<char>>(claim_views(out@)),
    {
        assert(all[i as int] == items@[i as int]@);
        let drafted = match &items[i] {
            Datum::Str(p) => Some(
                Claim { path: copy(p.as_str()), symbols: Vec::new(), intent: copy("edit") },
            ),
            other => Claim::from_value(other),
        };
        let ghost next = claims_upto(all, (i + 1) as nat);
        match drafted {
            None => {
                proof {
                    lemma_claims_err(all, (i + 1) as nat, n as nat);
                }
                return Err(copy("claim needs a path"));
            },
            Some(mut c) => {
                assert(items@[i as int] is Str ==> strs(c.symbols@) =~= Seq::<Seq<char>>::empty());
                assert(draft_claim(all[i as int]) == Some(c@));
                match validate_rel_path(c.path.as_str()) {
                    Err(e) => {
                        proof {
                            lemma_claims_err(all, (i + 1) as nat, n as nat);
                        }
                        return Err(e);
                    },
                    Ok(p) => {
                        let ghost before = out@;
                        c.path = p;
                        out.push(c);
                        assert(claim_views(out@) =~= claim_views(before).push(c@));
                    },
                }
            },
        }
    }
    Ok(out)
}

/// An action of a decision, in its full form.
pub open spec fn action_json(
    id: Seq<char>,
    parent: Seq<char>,
    overlapping: bool,
    kind: Seq<char>,
    paths: Seq<Seq<char>>,
    causal: Seq<Seq<char>>,
) -> Json {
    Json::Object(
        seq![
            ("causal_parents"@, json_strs(causal)),
            ("id"@, Json::Str(id)),
            ("kind"@, Json::Str(kind)),
            ("overlapping"@, Json::Bool(overlapping)),
            ("parent"@, Json::Str(parent)),
            ("paths"@, json_strs(paths)),
        ],
    )
}

/// One action as a call gives it: a bare name, or an object.
pub open spec fn action_given(j: Json) -> Result<Json, Seq<char>> {
    match j {
        Json::Str(s) => match slug("action"@, s) {
            Err(e) => Err(e),
            Ok(id) => Ok(action_json(id, "root"@, false, "root"@, Seq::empty(), Seq::empty())),
        },
        _ => match slug("action"@, text_or(j, "id"@, ""@)) {
            Err(e) => Err(e),
            Ok(id) => Ok(
                action_json(
                    id,
                    text_or(j, "parent"@, "root"@),
                    bool_or(j, "overlapping"@, false),
                    text_or(j, "kind"@, "continue"@),
                    arg_list(j, "paths"@),
                    arg_list(j, "causal_parents"@),
                ),
            ),
        },
    }
}

fn action_value(
    id: &str,
    parent: &str,
    overlapping: bool,
    kind: &str,
    paths: &Vec<String>,
    causal: &Vec<String>,
) -> (r: Datum)
    ensures
        r@ == action_json(id@, parent@, overlapping, kind@, strs(paths@), strs(causal@)),
{
    let mut ms = no_members();
    add_member(&mut ms, "causal_parents", strs_value(causal));
    add_member(&mut ms, "id", str_value(id));
    add_member(&mut ms, "kind", str_value(kind));
    add_member(&mut ms, "overlapping", Datum::Bool(overlapping));
    add_member(&mut ms, "parent", str_value(parent));
    add_member(&mut ms, "paths", strs_value(paths));
    let r = object(ms);
    assert(r@->Object_0 =~= action_json(
        id@,
        parent@,
        overlapping,
        kind@,
        strs(paths@),
        strs(causal@),
    )->Object_0);
    r
}

fn parse_action(item: &Datum) -> (r: Result<Datum, String>)
    ensures
        match (r, action_given(item@)) {
            (Ok(a), Ok(b)) => a@ == b,
            (Err(a), Err(b)) => a@ == b,
            _ => false,
        },
{
    match item {
        Datum::Str(s) => match validate_slug("action", s.as_str()) {
            Err(e) => Err(e),
            Ok(id) => {
                let none = crate::text::no_strings();
                Ok(action_value(id.as_str(), "root", false, "root", &none, &none))
            },
        },
        other => {
            let raw = string_or(other, "id", "");
            match validate_slug("action", raw.as_str()) {
                Err(e) => Err(e),
                Ok(id) => {
                    let parent = string_or(other, "parent", "root");
                    let kind = string_or(other, "kind", "continue");
                    Ok(
                        action_value(
                            id.as_str(),
                            parent.as_str(),
                            flag_or(other, "overlapping", false),
                            kind.as_str(),
                            &string_list(other, "paths"),
                            &string_list(other, "causal_parents"),
                        ),
                    )
                },
            }
        },
    }
}

pub open spec fn actions_upto(items: Seq<Json>, n: nat) -> Result<Seq<Json>, Seq<char>>
    decreases n,
{
    if n == 0 {
        Ok(Seq::empty())
    } else {
        match actions_upto(items, (n - 1) as nat) {
            Err(e) => Err(e),
            Ok(rest) => match action_given(items[n - 1]) {
                Err(e) => Err(e),
                Ok(a) => Ok(rest.push(a)),
            },
        }
    }
}

proof fn lemma_actions_err(items: Seq<Json>, k: nat, n: nat)
    requires
        k <= n,
        actions_upto(items, k) is Err,
    ensures
        actions_upto(items, n) == actions_upto(items, k),
    decreases n,
{
    if k < n {
        lemma_actions_err(items, k, (n - 1) as nat);
    }
}

/// The actions of a call, or the first fault among them.
pub open spec fn actions_given(j: Json, key: Seq<char>) -> Result<Seq<Json>, Seq<char>> {
    match as_array(get(j, key)) {
        None => Ok(Seq::empty()),
        Some(a) => actions_upto(
            a,
            if a.len() <= MAX_CLAIMS {
                a.len()
            } else {
                MAX_CLAIMS as nat
            },
        ),
    }
}

pub fn parse_actions(args: &Datum, key: &str) -> (r: Result<Vec<Datum>, String>)
    ensures
        match (r, actions_given(args@, key@)) {
            (Ok(a), Ok(b)) => views(a@) == b,
            (Err(a), Err(b)) => a@ == b,
            _ => false,
        },
{
    let mut out: Vec<Datum> = Vec::new();
    assert(views(out@) =~= Seq::<Json>::empty());
    let items = match get_items(args, key) {
        Some(a) => a,
        None => {
            return Ok(out);
        },
    };
    let ghost all = views(items@);
    let n: usize = if items.len() <= MAX_CLAIMS {
        items.len()
    } else {
        MAX_CLAIMS
    };
    for i in 0..n
        invariant
            all == views(items@),
            n <= items@.len(),
            actions_given(args@, key@) == actions_upto(all, n as nat),
            actions_upto(all, i as nat) == Ok::<Seq<Json>, Seq<char>>(views(out@)),
    {
        assert(all[i as int] == items@[i as int]@);
        let ghost next = actions_upto(all, (i + 1) as nat);
        match parse_action(&items[i]) {
            Err(e) => {
                proof {
                    lemma_actions_err(all, (i + 1) as nat, n as nat);
                }
                return Err(e);
            },
            Ok(a) => {
                let ghost before = out@;
                out.push(a);
                assert(views(out@) =~= views(before).push(a@));
            },
        }
    }
    Ok(out)
}

/// The fingerprints of a call: the first sixteen members, of which those with a
/// string are kept, names and values bounded.
pub open spec fn fingerprints_upto(ms: Seq<(Seq<char>, Json)>, n: nat) -> Seq<(Seq<char>, Json)>
    decreases n,
{
    if n == 0 {
        Seq::empty()
    } else {
        let rest = fingerprints_upto(ms, (n - 1) as nat);
        match ms[n - 1].1 {
            Json::Str(s) => crate::smap::put(
                rest,
                bounded(ms[n - 1].0, 40),
                Json::Str(bounded(s, MAX_ITEM as nat)),
            ),
            _ => rest,
        }
    }
}

pub open spec fn fingerprints_given(j: Json) -> Json {
    match as_object(get(j, "fingerprints"@)) {
        None => Json::Object(Seq::empty()),
        Some(ms) => Json::Object(
            fingerprints_upto(
                ms,
                if ms.len() <= 16 {
                    ms.len()
                } else {
                    16
                },
            ),
        ),
    }
}

pub fn fingerprints(args: &Datum) -> (r: Datum)
    ensures
        r@ == fingerprints_given(args@),
{
    let mut out: StrMap<Datum> = StrMap::new();
    let given = match args.get("fingerprints") {
        Some(v) => v.fields(),
        None => None,
    };
    if let Some(ms) = given {
        let n: usize = if ms.len() <= 16 {
            ms.len()
        } else {
            16
        };
        for i in 0..n
            invariant
                n <= ms@.len(),
                out.wf(),
                out@ == fingerprints_upto(members(ms@), i as nat),
        {
            assert(members(ms@)[i as int] == (ms@[i as int].0@, ms@[i as int].1@));
            match &ms[i].1 {
                Datum::Str(s) => {
                    let k = bound(ms[i].0.as_str(), 40);
                    out.insert(k.as_str(), Datum::Str(bound(s.as_str(), MAX_ITEM)));
                },
                _ => {},
            }
        }
    }
    assert(members(out.entries@) =~= out@);
    object(out.entries)
}

/// What Git is asked for: its snapshot, or, where the call does not want it, only
/// the place of the working tree.
pub open spec fn observed(j: Json, git: GitView, root: Seq<char>) -> GitView {
    if bool_or(j, "observe_git"@, true) {
        git
    } else {
        GitView {
            branch: ""@,
            head_oid: ""@,
            base_oid: ""@,
            dirty_paths: Seq::empty(),
            worktree: root,
        }
    }
}

pub fn observe(args: &Datum, git: &GitSnapshot, root: &str) -> (r: GitSnapshot)
    ensures
        r@ == observed(args@, git@, root@),
{
    if flag_or(args, "observe_git", true) {
        GitSnapshot {
            branch: copy(git.branch.as_str()),
            head_oid: copy(git.head_oid.as_str()),
            base_oid: copy(git.base_oid.as_str()),
            dirty_paths: copy_all(&git.dirty_paths),
            worktree: copy(git.worktree.as_str()),
        }
    } else {
        GitSnapshot {
            branch: copy(""),
            head_oid: copy(""),
            base_oid: copy(""),
            dirty_paths: crate::text::no_strings(),
            worktree: copy(root),
        }
    }
}

// ---------------------------------------------------------------------------
// The calls

/// What a call finds around the group: the time, the configured leases, the
/// workspace, Git, and the shared session that the call names, if there is one.
pub struct Around {
    pub now: u64,
    pub ttl_secs: u64,
    pub suspend_ttl_secs: u64,
    pub workspace_id: String,
    pub root: String,
    pub git: GitSnapshot,
    pub session: Option<SessionSnapshot>,
}

/// The values of an [`Around`].
pub struct AroundView {
    pub now: u64,
    pub ttl_secs: u64,
    pub suspend_ttl_secs: u64,
    pub workspace_id: Seq<char>,
    pub root: Seq<char>,
    pub git: GitView,
    pub session: Option<SnapshotView>,
}

impl View for Around {
    type V = AroundView;

    open spec fn view(&self) -> AroundView {
        AroundView {
            now: self.now,
            ttl_secs: self.ttl_secs,
            suspend_ttl_secs: self.suspend_ttl_secs,
            workspace_id: self.workspace_id@,
            root: self.root@,
            git: self.git@,
            session: match self.session {
                Some(s) => Some(s@),
                None => None,
            },
        }
    }
}

/// The remark on the shared session that a call names.
pub open spec fn session_note(session: Option<Seq<char>>, snap: Option<SnapshotView>) -> Seq<char> {
    match session {
        None => ""@,
        Some(name) => match snap {
            Some(s) => "mas_session "@ + name + " status="@ + s.status + " round "@ + dec(
                s.round as nat,
            ) + "/"@ + dec(s.max_rounds as nat) + " (Izakaya does not finalize it)"@,
            None => "mas_session "@ + name + " (reference only; Izakaya does not finalize it)"@,
        },
    }
}

pub fn mas_note(session: &Option<String>, snap: &Option<SessionSnapshot>) -> (r: String)
    ensures
        r@ == session_note(
            opt_text(*session),
            match *snap {
                Some(s) => Some(s@),
                None => None,
            },
        ),
{
    match session {
        None => copy(""),
        Some(name) => match snap {
            Some(s) => {
                let mut t = copy("mas_session ");
                t.append(name.as_str());
                t.append(" status=");
                t.append(s.status.as_str());
                t.append(" round ");
                t.append(decimal(s.round).as_str());
                t.append("/");
                t.append(decimal(s.max_rounds).as_str());
                t.append(" (Izakaya does not finalize it)");
                t
            },
            None => {
                let mut t = copy("mas_session ");
                t.append(name.as_str());
                t.append(" (reference only; Izakaya does not finalize it)");
                t
            },
        },
    }
}

/// The first hand-off with an id.
pub open spec fn handoff_named(hs: Seq<HandoffView>, id: Seq<char>, from: int) -> Option<
    HandoffView,
>
    decreases hs.len() - from,
{
    if from < 0 || from >= hs.len() {
        None
    } else if hs[from].id == id {
        Some(hs[from])
    } else {
        handoff_named(hs, id, from + 1)
    }
}

/// Why an agent cannot take up a hand-off.
pub open spec fn handoff_fault(
    p: ProjectionView,
    accept: Option<Seq<char>>,
    agent: Seq<char>,
) -> Result<(), Seq<char>> {
    match accept {
        None => Ok(()),
        Some(id) => match handoff_named(p.handoffs, id, 0) {
            None => Err("unknown handoff "@ + id),
            Some(h) => if h.status != "offered"@ {
                Err("handoff "@ + id + " is "@ + h.status)
            } else if h.to.len() > 0 && h.to != agent {
                Err("handoff "@ + id + " is offered to "@ + h.to + ", not "@ + agent)
            } else {
                Ok(())
            },
        },
    }
}

fn check_handoff(proj: &Projection, accept: &Option<String>, agent: &str) -> (r: Result<(), String>)
    ensures
        verdict(r) == handoff_fault(proj@, opt_text(*accept), agent@),
{
    let id = match accept {
        None => {
            return Ok(());
        },
        Some(id) => id.as_str(),
    };
    for i in 0..proj.handoffs.len()
        invariant
            opt_text(*accept) == Some(id@),
            handoff_named(proj@.handoffs, id@, 0) == handoff_named(proj@.handoffs, id@, i as int),
    {
        let h = &proj.handoffs[i];
        assert(proj@.handoffs[i as int] == h@);
        if same(h.id.as_str(), id) {
            if !same(h.status.as_str(), "offered") {
                let mut e = copy("handoff ");
                e.append(id);
                e.append(" is ");
                e.append(h.status.as_str());
                return Err(e);
            }
            if !is_blank(h.to.as_str()) && !same(h.to.as_str(), agent) {
                let mut e = copy("handoff ");
                e.append(id);
                e.append(" is offered to ");
                e.append(h.to.as_str());
                e.append(", not ");
                e.append(agent);
                return Err(e);
            }
            return Ok(());
        }
    }
    let mut e = copy("unknown handoff ");
    e.append(id);
    Err(e)
}

/// A number of seconds, at least one.
pub open spec fn at_least_one(n: u64) -> u64 {
    if n > 1 {
        n
    } else {
        1
    }
}

/// A sum that stays within its type.
pub open spec fn capped_sum(a: u64, b: u64) -> u64 {
    if a + b > u64::MAX {
        u64::MAX
    } else {
        (a + b) as u64
    }
}

fn sum_capped(a: u64, b: u64) -> (r: u64)
    ensures
        r == capped_sum(a, b),
{
    if b > u64::MAX - a {
        u64::MAX
    } else {
        a + b
    }
}

fn floor_one(n: u64) -> (r: u64)
    ensures
        r == at_least_one(n),
{
    if n > 1 {
        n
    } else {
        1
    }
}

/// The revision of an agent, zero before its first check-in.
pub open spec fn revision_of(p: ProjectionView, id: Seq<char>) -> u64 {
    match at(p.agents, id) {
        Some(a) => a.revision,
        None => 0,
    }
}

/// The body of a check-in.
pub open spec fn check_in_members(
    p: ProjectionView,
    j: Json,
    w: AroundView,
    id: Seq<char>,
    lease: (Seq<char>, u64, bool),
    claims: Seq<ClaimView>,
) -> Seq<(Seq<char>, Json)> {
    let ttl = at_least_one(u64_or(j, "ttl_secs"@, w.ttl_secs));
    let git = observed(j, w.git, w.root);
    seq![
        ("accept_handoff"@, json_opt_str(arg(j, "handoff_id"@))),
        ("base_oid"@, Json::Str(git.base_oid)),
        ("blockers"@, json_strs(arg_list(j, "blockers"@))),
        ("branch"@, Json::Str(git.branch)),
        (
            "checked_in_at"@,
            Json::UInt(
                if lease.2 {
                    w.now
                } else {
                    at(p.agents, id)->Some_0.checked_in_at
                },
            ),
        ),
        ("checkpoint"@, json_opt_str(arg(j, "checkpoint"@))),
        ("claims"@, claims_json(claims)),
        ("dirty_paths"@, json_strs(git.dirty_paths)),
        ("expires_at"@, Json::UInt(capped_sum(w.now, ttl))),
        ("head_oid"@, Json::Str(git.head_oid)),
        ("mas_note"@, Json::Str(session_note(arg(j, "mas_session"@), w.session))),
        ("mas_session"@, json_opt_str(arg(j, "mas_session"@))),
        ("revision"@, Json::UInt(lease.1)),
        ("role"@, Json::Str(arg_text(j, "role"@))),
        ("state"@, Json::Str("checked_in"@)),
        ("summary"@, Json::Str(arg_text(j, "summary"@))),
        ("task"@, Json::Str(arg_text(j, "task"@))),
        ("ttl_secs"@, Json::UInt(ttl)),
        ("workspace_id"@, Json::Str(w.workspace_id)),
        ("worktree"@, Json::Str(git.worktree)),
    ]
}

pub open spec fn check_in_change(
    p: ProjectionView,
    j: Json,
    w: AroundView,
    id: Seq<char>,
    lease: (Seq<char>, u64, bool),
    claims: Seq<ClaimView>,
) -> PreparedView {
    PreparedView {
        kind: "check_in"@,
        agent_id: id,
        lease_id: lease.0,
        idempotency_key: arg(j, "idempotency_key"@),
        body: record(check_in_members(p, j, w, id, lease, claims)),
        answer: AnswerView::CheckIn,
    }
}

/// What a check-in comes to.
pub open spec fn checked_in(p: ProjectionView, j: Json, w: AroundView) -> Result<
    CommittedView,
    Seq<char>,
> {
    match payload_fault(j) {
        Err(e) => Err(e),
        Ok(_) => match agent_named(j) {
            Err(e) => Err(e),
            Ok(id) => match earlier(p, j) {
                Some(t) => Ok(CommittedView::Answered(again(t, id))),
                None => match lease_for(p, id, j, w.now) {
                    Err(e) => Err(e),
                    Ok(lease) => match revision_fault(j, revision_of(p, id)) {
                        Err(e) => Err(e),
                        Ok(_) => match claims_given(j) {
                            Err(e) => Err(e),
                            Ok(claims) => match handoff_fault(p, arg(j, "handoff_id"@), id) {
                                Err(e) => Err(e),
                                Ok(_) => Ok(
                                    committed(
                                        p,
                                        check_in_change(p, j, w, id, lease, claims),
                                        w.now,
                                    ),
                                ),
                            },
                        },
                    },
                },
            },
        },
    }
}

proof fn lemma_check_in_answerable(p: ProjectionView, prep: PreparedView, ts: u64)
    requires
        prep.kind == "check_in"@,
    ensures
        at(applied(p, event_of(p, prep, ts)).agents, prep.agent_id) is Some,
{
    reveal_strlit("check_in");
    reveal_strlit("malformed");
    assert("check_in"@.len() != "malformed"@.len());
    let e = event_of(p, prep, ts);
    lemma_at_put(p.agents, e.agent_id, crate::izakaya::store::agent_checked_in(e), e.agent_id);
}

proof fn lemma_update_answerable(p: ProjectionView, prep: PreparedView, ts: u64)
    requires
        prep.kind == "update"@,
        at(p.agents, prep.agent_id) is Some,
    ensures
        at(applied(p, event_of(p, prep, ts)).agents, prep.agent_id) is Some,
{
    reveal_strlit("check_in");
    reveal_strlit("malformed");
    reveal_strlit("update");
    assert("update"@.len() != "malformed"@.len());
    assert("update"@.len() != "check_in"@.len());
    let e = event_of(p, prep, ts);
    let a = at(p.agents, e.agent_id)->Some_0;
    lemma_at_put(p.agents, e.agent_id, crate::izakaya::store::agent_updated(a, e), e.agent_id);
}

fn check_in_body(
    proj: &Projection,
    args: &Datum,
    around: &Around,
    id: &str,
    lease: &str,
    revision: u64,
    fresh: bool,
    claims: &Vec<Claim>,
) -> (r: Datum)
    requires
        proj.wf(),
        !fresh ==> at(proj@.agents, id@) is Some,
    ensures
        r@ == record(
            check_in_members(
                proj@,
                args@,
                around@,
                id@,
                (lease@, revision, fresh),
                claim_views(claims@),
            ),
        ),
{
    let ttl: u64 = floor_one(number_or(args, "ttl_secs", around.ttl_secs));
    let git = observe(args, &around.git, around.root.as_str());
    let since: u64 = if fresh {
        around.now
    } else {
        match proj.agents.get(id) {
            Some(a) => a.checked_in_at,
            None => around.now,
        }
    };
    let session = opt(args, "mas_session");
    let mut ms = no_members();
    add_member(&mut ms, "accept_handoff", opt_str_value(&opt(args, "handoff_id")));
    add_member(&mut ms, "base_oid", str_value(git.base_oid.as_str()));
    add_member(&mut ms, "blockers", strs_value(&string_list(args, "blockers")));
    add_member(&mut ms, "branch", str_value(git.branch.as_str()));
    add_member(&mut ms, "checked_in_at", Datum::UInt(since));
    add_member(&mut ms, "checkpoint", opt_str_value(&opt(args, "checkpoint")));
    add_member(&mut ms, "claims", claims_value(claims));
    add_member(&mut ms, "dirty_paths", strs_value(&git.dirty_paths));
    add_member(&mut ms, "expires_at", Datum::UInt(sum_capped(around.now, ttl)));
    add_member(&mut ms, "head_oid", str_value(git.head_oid.as_str()));
    add_member(&mut ms, "mas_note", Datum::Str(mas_note(&session, &around.session)));
    add_member(&mut ms, "mas_session", opt_str_value(&session));
    add_member(&mut ms, "revision", Datum::UInt(revision));
    add_member(&mut ms, "role", Datum::Str(bound_opt(args, "role")));
    add_member(&mut ms, "state", str_value(AgentState::CheckedIn.as_str()));
    add_member(&mut ms, "summary", Datum::Str(bound_opt(args, "summary")));
    add_member(&mut ms, "task", Datum::Str(bound_opt(args, "task")));
    add_member(&mut ms, "ttl_secs", Datum::UInt(ttl));
    add_member(&mut ms, "workspace_id", str_value(around.workspace_id.as_str()));
    add_member(&mut ms, "worktree", str_value(git.worktree.as_str()));
    assert(members(ms@) =~= check_in_members(
        proj@,
        args@,
        around@,
        id@,
        (lease@, revision, fresh),
        claim_views(claims@),
    ));
    build(ms)
}

pub fn check_in(proj: Projection, args: &Datum, around: &Around) -> (r: Result<Committed, String>)
    requires
        proj.wf(),
        roomy(proj@, args@),
    ensures
        call_view(r) == checked_in(proj@, args@, around@),
        r matches Ok(Committed::Appended(_, _, q)) ==> q.wf(),
{
    if let Err(e) = reject_unsafe_payload(args) {
        return Err(e);
    }
    let id = match agent_id_of(args) {
        Ok(id) => id,
        Err(e) => {
            return Err(e);
        },
    };
    if let Some(t) = cached(&proj, args) {
        return Ok(Committed::Answered(repeat_reply(t.as_str(), id.as_str())));
    }
    let (lease, revision, fresh) = match grant_lease(&proj, id.as_str(), args, around.now) {
        Ok(l) => l,
        Err(e) => {
            return Err(e);
        },
    };
    let have: u64 = match proj.agents.get(id.as_str()) {
        Some(a) => a.revision,
        None => 0,
    };
    if let Err(e) = expect_revision(args, have) {
        return Err(e);
    }
    let claims = match parse_claims(args) {
        Ok(c) => c,
        Err(e) => {
            return Err(e);
        },
    };
    let accept = opt(args, "handoff_id");
    if let Err(e) = check_handoff(&proj, &accept, id.as_str()) {
        return Err(e);
    }
    let body = check_in_body(
        &proj,
        args,
        around,
        id.as_str(),
        lease.as_str(),
        revision,
        fresh,
        &claims,
    );
    let prepared = Prepared {
        kind: copy("check_in"),
        agent_id: id,
        lease_id: lease,
        idempotency_key: opt(args, "idempotency_key"),
        body,
        answer: Answer::CheckIn,
    };
    proof {
        lemma_check_in_answerable(proj@, prepared@, around.now);
    }
    Ok(commit(proj, prepared, around.now))
}

/// The state that an update asks for; without one the agent stays where it is.
pub open spec fn state_wanted(j: Json, from: AgentState) -> Result<AgentState, Seq<char>> {
    match as_str(get(j, "state"@)) {
        Some(s) => state_named(s),
        None => Ok(from),
    }
}

/// Why an agent cannot be updated to a state.
pub open spec fn move_fault(from: AgentState, to: AgentState) -> Result<(), Seq<char>> {
    if to == AgentState::CheckedOut {
        Err("use izakaya_check_out to leave; update cannot check out"@)
    } else if may_move(from, to) {
        Ok(())
    } else {
        Err("checked-out agent must check in before other transitions"@)
    }
}

/// The dirty paths after an update: the ones that it gives, or what Git shows, or
/// what was there.
pub open spec fn dirty_after(j: Json, git: GitView, a: AgentRecord) -> Seq<Seq<char>> {
    if get(j, "dirty_paths"@) is Some {
        arg_list(j, "dirty_paths"@)
    } else if bool_or(j, "observe_git"@, true) {
        git.dirty_paths
    } else {
        a.dirty_paths
    }
}

pub open spec fn checkpoint_after(j: Json, a: AgentRecord) -> Option<Seq<char>> {
    match arg(j, "checkpoint"@) {
        Some(c) => Some(c),
        None => a.checkpoint,
    }
}

pub open spec fn saved(checkpoint: Option<Seq<char>>) -> bool {
    match checkpoint {
        Some(c) => c.len() > 0,
        None => false,
    }
}

pub open spec fn ttl_after(j: Json, w: AroundView, a: AgentRecord, to: AgentState) -> u64 {
    if to == AgentState::Suspended {
        at_least_one(w.suspend_ttl_secs)
    } else {
        at_least_one(
            u64_or(
                j,
                "ttl_secs"@,
                if a.ttl_secs >= w.ttl_secs {
                    a.ttl_secs
                } else {
                    w.ttl_secs
                },
            ),
        )
    }
}

/// The directed message of an update that has one.
pub open spec fn note_given(j: Json) -> Json {
    match get(j, "note"@) {
        None => Json::Null,
        Some(n) => record(
            seq![
                ("body"@, Json::Str(bounded(text_or(n, "body"@, ""@), MAX_SUMMARY as nat))),
                ("to"@, Json::Str(text_or(n, "to"@, ""@))),
            ],
        ),
    }
}

fn note_value(args: &Datum) -> (r: Datum)
    ensures
        r@ == note_given(args@),
{
    match args.get("note") {
        None => Datum::Null,
        Some(n) => {
            let body = string_or(n, "body", "");
            let to = string_or(n, "to", "");
            let mut ms = no_members();
            add_member(&mut ms, "body", Datum::Str(bound(body.as_str(), MAX_SUMMARY)));
            add_member(&mut ms, "to", Datum::Str(to));
            assert(members(ms@) =~= seq![
                ("body"@, Json::Str(bounded(body@, MAX_SUMMARY as nat))),
                ("to"@, Json::Str(text_or(n@, "to"@, ""@))),
            ]);
            build(ms)
        },
    }
}

/// A member that stands in the body only if the call has it.
pub open spec fn if_given(j: Json, key: Seq<char>, value: Json) -> Seq<(Seq<char>, Json)> {
    if get(j, key) is Some {
        seq![(key, value)]
    } else {
        Seq::empty()
    }
}

pub open spec fn summary_given(j: Json) -> Json {
    match as_str(get(j, "summary"@)) {
        Some(s) => Json::Str(bounded(s, MAX_SUMMARY as nat)),
        None => Json::Null,
    }
}

pub open spec fn git_members(git: GitView) -> Seq<(Seq<char>, Json)> {
    if git.branch.len() == 0 {
        Seq::empty()
    } else {
        seq![
            ("base_oid"@, Json::Str(git.base_oid)),
            ("branch"@, Json::Str(git.branch)),
            ("head_oid"@, Json::Str(git.head_oid)),
        ]
    }
}

/// What the body of every update has.
pub open spec fn update_core(
    j: Json,
    w: AroundView,
    a: AgentRecord,
    to: AgentState,
    claims: Seq<ClaimView>,
) -> Seq<(Seq<char>, Json)> {
    let git = observed(j, w.git, w.root);
    seq![
        (
            "ack_seqs"@,
            match get(j, "ack_seqs"@) {
                Some(v) => v,
                None => Json::Array(Seq::empty()),
            },
        ),
        ("blockers"@, json_strs(arg_list(j, "blockers"@))),
        ("checkpoint"@, json_opt_str(checkpoint_after(j, a))),
        ("claims"@, claims_json(claims)),
        ("dirty_paths"@, json_strs(dirty_after(j, git, a))),
        ("expires_at"@, Json::UInt(capped_sum(w.now, ttl_after(j, w, a, to)))),
        ("replace_blockers"@, Json::Bool(get(j, "blockers"@) is Some)),
        ("replace_claims"@, Json::Bool(get(j, "claims"@) is Some)),
        (
            "replace_dirty"@,
            Json::Bool(get(j, "dirty_paths"@) is Some || bool_or(j, "observe_git"@, true)),
        ),
        ("revision"@, Json::UInt((a.revision + 1) as u64)),
        ("state"@, Json::Str(state_name(to))),
    ]
}

/// The body of an update. What it leaves out, the agent keeps.
pub open spec fn update_members(
    j: Json,
    w: AroundView,
    a: AgentRecord,
    to: AgentState,
    claims: Seq<ClaimView>,
) -> Seq<(Seq<char>, Json)> {
    update_core(j, w, a, to, claims) + if_given(j, "note"@, note_given(j)) + if_given(
        j,
        "summary"@,
        summary_given(j),
    ) + if_given(j, "role"@, json_opt_str(arg(j, "role"@))) + if_given(j, "task"@, json_opt_str(arg(j, "task"@))) + if_given(
        j,
        "mas_session"@,
        json_opt_str(arg(j, "mas_session"@)),
    ) + git_members(observed(j, w.git, w.root))
}

/// The claims that an update leaves an agent with.
pub open spec fn claims_after(j: Json, w: AroundView, a: AgentRecord) -> Result<
    Seq<ClaimView>,
    Seq<char>,
> {
    if get(j, "claims"@) is Some {
        claims_given(j)
    } else {
        Ok(a.claims)
    }
}

/// What an update of an agent that is present comes to, once its lease is found.
pub open spec fn updated_live(
    p: ProjectionView,
    j: Json,
    w: AroundView,
    id: Seq<char>,
    a: AgentRecord,
    lease: Seq<char>,
) -> Result<CommittedView, Seq<char>> {
    let git = observed(j, w.git, w.root);
    match state_named(a.state) {
        Err(e) => Err(e),
        Ok(from) => match state_wanted(j, from) {
            Err(e) => Err(e),
            Ok(to) => match move_fault(from, to) {
                Err(e) => Err(e),
                Ok(_) => if to == AgentState::Suspended && dirty_after(j, git, a).len() > 0
                    && !saved(checkpoint_after(j, a)) {
                    Err(
                        "suspended dirty work requires a checkpoint reference (stash, patch id, or commit); refusing to pretend the work is saved"@,
                    )
                } else {
                    match claims_after(j, w, a) {
                        Err(e) => Err(e),
                        Ok(claims) => Ok(
                            committed(
                                p,
                                PreparedView {
                                    kind: "update"@,
                                    agent_id: id,
                                    lease_id: lease,
                                    idempotency_key: arg(j, "idempotency_key"@),
                                    body: record(update_members(j, w, a, to, claims)),
                                    answer: AnswerView::Update,
                                },
                                w.now,
                            ),
                        ),
                    }
                },
            },
        },
    }
}

/// What an update comes to.
pub open spec fn updated(p: ProjectionView, j: Json, w: AroundView) -> Result<
    CommittedView,
    Seq<char>,
> {
    match payload_fault(j) {
        Err(e) => Err(e),
        Ok(_) => match agent_named(j) {
            Err(e) => Err(e),
            Ok(id) => match earlier(p, j) {
                Some(t) => Ok(CommittedView::Answered(again(t, id))),
                None => match live(p, id) {
                    Err(e) => Err(e),
                    Ok(a) => match need(j, "lease_id"@) {
                        Err(e) => Err(e),
                        Ok(lease) => match lease_fault(a, id, lease) {
                            Err(e) => Err(e),
                            Ok(_) => match revision_fault(j, a.revision) {
                                Err(e) => Err(e),
                                Ok(_) => updated_live(p, j, w, id, a, lease),
                            },
                        },
                    },
                },
            },
        },
    }
}

fn core_members(
    args: &Datum,
    around: &Around,
    agent: &Agent,
    to: AgentState,
    claims: &Vec<Claim>,
) -> (r: Vec<(String, Datum)>)
    requires
        agent.revision < u64::MAX,
    ensures
        members(r@) == update_core(args@, around@, agent@, to, claim_views(claims@)),
{
    let git = observe(args, &around.git, around.root.as_str());
    let dirty = choose_dirty(args, &git, agent);
    let ttl: u64 = if to == AgentState::Suspended {
        floor_one(around.suspend_ttl_secs)
    } else {
        floor_one(
            number_or(
                args,
                "ttl_secs",
                if agent.ttl_secs >= around.ttl_secs {
                    agent.ttl_secs
                } else {
                    around.ttl_secs
                },
            ),
        )
    };
    let acks = match args.get("ack_seqs") {
        Some(v) => v.copy(),
        None => array(Vec::new()),
    };
    proof {
        assert(views(Seq::<Datum>::empty()) =~= Seq::<Json>::empty());
    }
    let checkpoint = choose_checkpoint(args, agent);
    let mut ms = no_members();
    add_member(&mut ms, "ack_seqs", acks);
    add_member(&mut ms, "blockers", strs_value(&string_list(args, "blockers")));
    add_member(&mut ms, "checkpoint", opt_str_value(&checkpoint));
    add_member(&mut ms, "claims", claims_value(claims));
    add_member(&mut ms, "dirty_paths", strs_value(&dirty));
    add_member(&mut ms, "expires_at", Datum::UInt(sum_capped(around.now, ttl)));
    add_member(&mut ms, "replace_blockers", Datum::Bool(args.get("blockers").is_some()));
    add_member(&mut ms, "replace_claims", Datum::Bool(args.get("claims").is_some()));
    add_member(
        &mut ms,
        "replace_dirty",
        Datum::Bool(args.get("dirty_paths").is_some() || flag_or(args, "observe_git", true)),
    );
    add_member(&mut ms, "revision", Datum::UInt(agent.revision + 1));
    add_member(&mut ms, "state", str_value(to.as_str()));
    assert(members(ms@) =~= update_core(args@, around@, agent@, to, claim_views(claims@)));
    ms
}

/// Adds a member if the call has it.
fn add_given(ms: &mut Vec<(String, Datum)>, args: &Datum, key: &str, value: Datum)
    ensures
        members(final(ms)@) == members(old(ms)@) + if_given(args@, key@, value@),
{
    let ghost before = members(ms@);
    let ghost shown = value@;
    if args.get(key).is_some() {
        add_member(ms, key, value);
    }
    assert(members(ms@) =~= before + if_given(args@, key@, shown));
}

fn update_body(
    args: &Datum,
    around: &Around,
    agent: &Agent,
    to: AgentState,
    claims: &Vec<Claim>,
) -> (r: Datum)
    requires
        agent.revision < u64::MAX,
    ensures
        r@ == record(update_members(args@, around@, agent@, to, claim_views(claims@))),
{
    let git = observe(args, &around.git, around.root.as_str());
    let summary = match get_str(args, "summary") {
        Some(s) => Datum::Str(bound(s.as_str(), MAX_SUMMARY)),
        None => Datum::Null,
    };
    let mut ms = core_members(args, around, agent, to, claims);
    add_given(&mut ms, args, "note", note_value(args));
    add_given(&mut ms, args, "summary", summary);
    add_given(&mut ms, args, "role", opt_str_value(&opt(args, "role")));
    add_given(&mut ms, args, "task", opt_str_value(&opt(args, "task")));
    add_given(&mut ms, args, "mas_session", opt_str_value(&opt(args, "mas_session")));
    let ghost most = members(ms@);
    if !is_blank(git.branch.as_str()) {
        add_member(&mut ms, "base_oid", str_value(git.base_oid.as_str()));
        add_member(&mut ms, "branch", str_value(git.branch.as_str()));
        add_member(&mut ms, "head_oid", str_value(git.head_oid.as_str()));
    }
    assert(members(ms@) =~= most + git_members(git@));
    build(ms)
}

fn choose_dirty(args: &Datum, git: &GitSnapshot, agent: &Agent) -> (r: Vec<String>)
    ensures
        strs(r@) == dirty_after(args@, git@, agent@),
{
    if args.get("dirty_paths").is_some() {
        string_list(args, "dirty_paths")
    } else if flag_or(args, "observe_git", true) {
        copy_all(&git.dirty_paths)
    } else {
        copy_all(&agent.dirty_paths)
    }
}

fn choose_checkpoint(args: &Datum, agent: &Agent) -> (r: Option<String>)
    ensures
        opt_text(r) == checkpoint_after(args@, agent@),
{
    match opt(args, "checkpoint") {
        Some(c) => Some(c),
        None => copy_opt(&agent.checkpoint),
    }
}

/// The checks and the body of an update; the change itself is left to the caller.
fn prepare_update(
    proj: &Projection,
    args: &Datum,
    around: &Around,
    id: &str,
    agent: &Agent,
    lease: &str,
) -> (r: Result<Prepared, String>)
    requires
        agent.revision < u64::MAX,
        at(proj@.agents, id@) == Some(agent@),
    ensures
        match r {
            Ok(prep) => prep@.kind == "update"@ && prep@.agent_id == id@ && updated_live(
                proj@,
                args@,
                around@,
                id@,
                agent@,
                lease@,
            ) == Ok::<CommittedView, Seq<char>>(committed(proj@, prep@, around.now)),
            Err(e) => updated_live(proj@, args@, around@, id@, agent@, lease@) == Err::<
                CommittedView,
                Seq<char>,
            >(e@),
        },
{
    let from = match AgentState::parse(agent.state.as_str()) {
        Ok(s) => s,
        Err(e) => {
            return Err(e);
        },
    };
    let to = match get_str(args, "state") {
        Some(s) => match AgentState::parse(s.as_str()) {
            Ok(t) => t,
            Err(e) => {
                return Err(e);
            },
        },
        None => from,
    };
    if to == AgentState::CheckedOut {
        return Err(copy("use izakaya_check_out to leave; update cannot check out"));
    }
    if let Err(e) = transition(from, to) {
        return Err(e);
    }
    let git = observe(args, &around.git, around.root.as_str());
    let dirty = choose_dirty(args, &git, agent);
    assert(dirty@.len() == strs(dirty@).len());
    let checkpoint = choose_checkpoint(args, agent);
    let kept: bool = match &checkpoint {
        Some(c) => !is_blank(c.as_str()),
        None => false,
    };
    if to == AgentState::Suspended && dirty.len() > 0 && !kept {
        return Err(
            copy(
                "suspended dirty work requires a checkpoint reference (stash, patch id, or commit); refusing to pretend the work is saved",
            ),
        );
    }
    let claims = if args.get("claims").is_some() {
        match parse_claims(args) {
            Ok(c) => c,
            Err(e) => {
                return Err(e);
            },
        }
    } else {
        copy_claims(&agent.claims)
    };
    let body = update_body(args, around, agent, to, &claims);
    Ok(
        Prepared {
            kind: copy("update"),
            agent_id: copy(id),
            lease_id: copy(lease),
            idempotency_key: opt(args, "idempotency_key"),
            body,
            answer: Answer::Update,
        },
    )
}

pub fn update(proj: Projection, args: &Datum, around: &Around) -> (r: Result<Committed, String>)
    requires
        proj.wf(),
        roomy(proj@, args@),
    ensures
        call_view(r) == updated(proj@, args@, around@),
        r matches Ok(Committed::Appended(_, _, q)) ==> q.wf(),
{
    if let Err(e) = reject_unsafe_payload(args) {
        return Err(e);
    }
    let id = match agent_id_of(args) {
        Ok(id) => id,
        Err(e) => {
            return Err(e);
        },
    };
    if let Some(t) = cached(&proj, args) {
        return Ok(Committed::Answered(repeat_reply(t.as_str(), id.as_str())));
    }
    let prepared = match live_agent(&proj, id.as_str()) {
        Err(e) => {
            return Err(e);
        },
        Ok(agent) => {
            let lease = match required(args, "lease_id") {
                Ok(l) => l,
                Err(e) => {
                    return Err(e);
                },
            };
            if let Err(e) = expect_lease(agent, id.as_str(), lease.as_str()) {
                return Err(e);
            }
            if let Err(e) = expect_revision(args, agent.revision) {
                return Err(e);
            }
            match prepare_update(&proj, args, around, id.as_str(), agent, lease.as_str()) {
                Ok(p) => p,
                Err(e) => {
                    return Err(e);
                },
            }
        },
    };
    proof {
        lemma_update_answerable(proj@, prepared@, around.now);
    }
    Ok(commit(proj, prepared, around.now))
}

// ---------------------------------------------------------------------------
// Leaving

pub open spec fn text_given(j: Json, key: Seq<char>) -> Json {
    json_opt_str(as_str(get(j, key)))
}

/// The hand-off capsule of a call, bounded and under its id.
pub open spec fn capsule(h: Json, id: Seq<char>) -> Seq<(Seq<char>, Json)> {
    seq![
        ("anchors"@, json_strs(arg_list(h, "anchors"@))),
        ("artifacts"@, json_strs(arg_list(h, "artifacts"@))),
        ("checkpoint"@, text_given(h, "checkpoint"@)),
        ("commands"@, json_strs(arg_list(h, "commands"@))),
        ("constraints"@, json_strs(arg_list(h, "constraints"@))),
        ("id"@, Json::Str(id)),
        ("mas_entry_id"@, json_opt_u64(as_u64(get(h, "mas_entry_id"@)))),
        ("mas_session"@, json_opt_str(some_str(h, "mas_session"@))),
        ("note_ref"@, text_given(h, "note_ref"@)),
        ("run_ids"@, json_strs(arg_list(h, "run_ids"@))),
        ("summary"@, Json::Str(bounded(text_or(h, "summary"@, ""@), MAX_SUMMARY as nat))),
        ("to"@, Json::Str(text_or(h, "to"@, ""@))),
    ]
}

fn text_value(v: &Datum, key: &str) -> (r: Datum)
    ensures
        r@ == text_given(v@, key@),
{
    match get_str(v, key) {
        Some(s) => str_value(s.as_str()),
        None => Datum::Null,
    }
}

pub fn bound_handoff(v: &Datum, id: &str) -> (r: Datum)
    ensures
        r@ == record(capsule(v@, id@)),
{
    let summary = string_or(v, "summary", "");
    let mut ms = no_members();
    add_member(&mut ms, "anchors", strs_value(&string_list(v, "anchors")));
    add_member(&mut ms, "artifacts", strs_value(&string_list(v, "artifacts")));
    add_member(&mut ms, "checkpoint", text_value(v, "checkpoint"));
    add_member(&mut ms, "commands", strs_value(&string_list(v, "commands")));
    add_member(&mut ms, "constraints", strs_value(&string_list(v, "constraints")));
    add_member(&mut ms, "id", str_value(id));
    add_member(&mut ms, "mas_entry_id", opt_u64_value(get_u64(v, "mas_entry_id")));
    add_member(
        &mut ms,
        "mas_session",
        opt_str_value(&crate::izakaya::records::opt_str(v, "mas_session")),
    );
    add_member(&mut ms, "note_ref", text_value(v, "note_ref"));
    add_member(&mut ms, "run_ids", strs_value(&string_list(v, "run_ids")));
    add_member(&mut ms, "summary", Datum::Str(bound(summary.as_str(), MAX_SUMMARY)));
    add_member(&mut ms, "to", Datum::Str(string_or(v, "to", "")));
    assert(members(ms@) =~= capsule(v@, id@));
    build(ms)
}

/// The capsule that a call gives; null counts as none.
pub open spec fn handoff_given(j: Json) -> Option<Json> {
    match get(j, "handoff"@) {
        Some(Json::Null) => None,
        other => other,
    }
}

/// The reason for leaving: the one given, or what the capsule implies.
pub open spec fn reason_for(j: Json) -> Result<Seq<char>, Seq<char>> {
    match as_str(get(j, "reason"@)) {
        Some(raw) => reason_named(raw),
        None => if handoff_given(j) is Some {
            Ok("handed_off"@)
        } else {
            Ok("completed"@)
        },
    }
}

/// Whether a capsule says anything: a summary, a session or a note.
pub open spec fn capsule_says(h: Json) -> bool {
    ||| bounded(text_or(h, "summary"@, ""@), MAX_SUMMARY as nat).len() > 0
    ||| some_str(h, "mas_session"@) is Some
    ||| as_str(get(h, "note_ref"@)) is Some
}

/// Why a call cannot leave for a reason.
pub open spec fn leave_fault(j: Json, reason: Seq<char>) -> Result<(), Seq<char>> {
    match handoff_given(j) {
        None => if reason == "handed_off"@ {
            Err("handed_off checkout requires a handoff capsule (summary and/or mas_session)"@)
        } else {
            Ok(())
        },
        Some(h) => if capsule_says(h) {
            Ok(())
        } else {
            Err("handoff capsule needs summary, mas_session, or note_ref"@)
        },
    }
}

/// The session that the capsule of a call names.
pub open spec fn capsule_session(j: Json) -> Option<Seq<char>> {
    match handoff_given(j) {
        Some(h) => some_str(h, "mas_session"@),
        None => None,
    }
}

pub fn handoff_session(args: &Datum) -> (r: Option<String>)
    ensures
        opt_text(r) == capsule_session(args@),
{
    match args.get("handoff") {
        Some(h) => if h.is_null() {
            None
        } else {
            crate::izakaya::records::opt_str(h, "mas_session")
        },
        None => None,
    }
}

/// The body of a check-out.
pub open spec fn check_out_members(
    p: ProjectionView,
    j: Json,
    w: AroundView,
    a: AgentRecord,
    reason: Seq<char>,
) -> Seq<(Seq<char>, Json)> {
    seq![
        ("mas_note"@, Json::Str(session_note(capsule_session(j), w.session))),
        ("reason"@, Json::Str(reason)),
        ("revision"@, Json::UInt((a.revision + 1) as u64)),
    ] + (match handoff_given(j) {
        Some(h) => seq![("handoff"@, record(capsule(h, "h"@ + dec((p.seq + 1) as nat))))],
        None => Seq::empty(),
    })
}

/// The answer to a check-out of an agent that has left already.
pub open spec fn already_out(id: Seq<char>) -> Json {
    record(
        seq![
            ("agent_id"@, Json::Str(id)),
            ("idempotent"@, Json::Bool(true)),
            ("state"@, Json::Str("checked_out"@)),
            (
                "text"@,
                Json::Str("izakaya_check_out - agent "@ + id + " already checked out"@),
            ),
        ],
    )
}

/// What a check-out of an agent with a lease comes to.
pub open spec fn leaving(
    p: ProjectionView,
    j: Json,
    w: AroundView,
    id: Seq<char>,
    a: AgentRecord,
    lease: Seq<char>,
) -> Result<CommittedView, Seq<char>> {
    match reason_for(j) {
        Err(e) => Err(e),
        Ok(reason) => match leave_fault(j, reason) {
            Err(e) => Err(e),
            Ok(_) => Ok(
                committed(
                    p,
                    PreparedView {
                        kind: "check_out"@,
                        agent_id: id,
                        lease_id: lease,
                        idempotency_key: arg(j, "idempotency_key"@),
                        body: record(check_out_members(p, j, w, a, reason)),
                        answer: AnswerView::CheckOut,
                    },
                    w.now,
                ),
            ),
        },
    }
}

/// What a check-out comes to.
pub open spec fn checked_out(p: ProjectionView, j: Json, w: AroundView) -> Result<
    CommittedView,
    Seq<char>,
> {
    match payload_fault(j) {
        Err(e) => Err(e),
        Ok(_) => match agent_named(j) {
            Err(e) => Err(e),
            Ok(id) => match earlier(p, j) {
                Some(t) => Ok(CommittedView::Answered(again(t, id))),
                None => match at(p.agents, id) {
                    None => Err("agent "@ + id + " is not checked in"@),
                    Some(a) => if a.state == "checked_out"@ {
                        Ok(CommittedView::Answered(already_out(id)))
                    } else {
                        match need(j, "lease_id"@) {
                            Err(e) => Err(e),
                            Ok(lease) => match lease_fault(a, id, lease) {
                                Err(e) => Err(e),
                                Ok(_) => match revision_fault(j, a.revision) {
                                    Err(e) => Err(e),
                                    Ok(_) => leaving(p, j, w, id, a, lease),
                                },
                            },
                        }
                    },
                },
            },
        },
    }
}

fn already_reply(id: &str) -> (r: Datum)
    ensures
        r@ == already_out(id@),
{
    let mut text = copy("izakaya_check_out - agent ");
    text.append(id);
    text.append(" already checked out");
    let ghost shown = text@;
    let mut ms = no_members();
    add_member(&mut ms, "agent_id", str_value(id));
    add_member(&mut ms, "idempotent", Datum::Bool(true));
    add_member(&mut ms, "state", str_value("checked_out"));
    add_member(&mut ms, "text", Datum::Str(text));
    assert(members(ms@) =~= seq![
        ("agent_id"@, Json::Str(id@)),
        ("idempotent"@, Json::Bool(true)),
        ("state"@, Json::Str("checked_out"@)),
        ("text"@, Json::Str(shown)),
    ]);
    build(ms)
}

fn says_something(h: &Datum) -> (r: bool)
    ensures
        r == capsule_says(h@),
{
    let summary = string_or(h, "summary", "");
    if !is_blank(bound(summary.as_str(), MAX_SUMMARY).as_str()) {
        return true;
    }
    if crate::izakaya::records::opt_str(h, "mas_session").is_some() {
        return true;
    }
    get_str(h, "note_ref").is_some()
}

fn prepare_check_out(
    proj: &Projection,
    args: &Datum,
    around: &Around,
    id: &str,
    agent: &Agent,
    lease: &str,
) -> (r: Result<Prepared, String>)
    requires
        agent.revision < u64::MAX,
        proj.seq < u64::MAX,
    ensures
        match r {
            Ok(prep) => prep@.answer is CheckOut && leaving(
                proj@,
                args@,
                around@,
                id@,
                agent@,
                lease@,
            ) == Ok::<CommittedView, Seq<char>>(committed(proj@, prep@, around.now)),
            Err(e) => leaving(proj@, args@, around@, id@, agent@, lease@) == Err::<
                CommittedView,
                Seq<char>,
            >(e@),
        },
{
    let given: Option<&Datum> = match args.get("handoff") {
        Some(h) => if h.is_null() {
            None
        } else {
            Some(h)
        },
        None => None,
    };
    assert(match given {
        Some(h) => handoff_given(args@) == Some(h@),
        None => handoff_given(args@) is None,
    });
    let reason: String = match get_str(args, "reason") {
        Some(raw) => match checkout_reason(raw.as_str()) {
            Ok(t) => copy(t),
            Err(e) => {
                return Err(e);
            },
        },
        None => if given.is_some() {
            copy("handed_off")
        } else {
            copy("completed")
        },
    };
    match given {
        None => if same(reason.as_str(), "handed_off") {
            return Err(
                copy("handed_off checkout requires a handoff capsule (summary and/or mas_session)"),
            );
        },
        Some(h) => if !says_something(h) {
            return Err(copy("handoff capsule needs summary, mas_session, or note_ref"));
        },
    }
    let session = handoff_session(args);
    let mut ms = no_members();
    add_member(&mut ms, "mas_note", Datum::Str(mas_note(&session, &around.session)));
    add_member(&mut ms, "reason", str_value(reason.as_str()));
    add_member(&mut ms, "revision", Datum::UInt(agent.revision + 1));
    if let Some(h) = given {
        let mut hid = copy("h");
        hid.append(decimal(proj.seq + 1).as_str());
        add_member(&mut ms, "handoff", bound_handoff(h, hid.as_str()));
    }
    assert(members(ms@) =~= check_out_members(proj@, args@, around@, agent@, reason@));
    Ok(
        Prepared {
            kind: copy("check_out"),
            agent_id: copy(id),
            lease_id: copy(lease),
            idempotency_key: opt(args, "idempotency_key"),
            body: build(ms),
            answer: Answer::CheckOut,
        },
    )
}

pub fn check_out(proj: Projection, args: &Datum, around: &Around) -> (r: Result<Committed, String>)
    requires
        proj.wf(),
        roomy(proj@, args@),
    ensures
        call_view(r) == checked_out(proj@, args@, around@),
        r matches Ok(Committed::Appended(_, _, q)) ==> q.wf(),
{
    if let Err(e) = reject_unsafe_payload(args) {
        return Err(e);
    }
    let id = match agent_id_of(args) {
        Ok(id) => id,
        Err(e) => {
            return Err(e);
        },
    };
    if let Some(t) = cached(&proj, args) {
        return Ok(Committed::Answered(repeat_reply(t.as_str(), id.as_str())));
    }
    let prepared = match proj.agents.get(id.as_str()) {
        None => {
            let mut e = copy("agent ");
            e.append(id.as_str());
            e.append(" is not checked in");
            return Err(e);
        },
        Some(agent) => {
            if same(agent.state.as_str(), AgentState::CheckedOut.as_str()) {
                return Ok(Committed::Answered(already_reply(id.as_str())));
            }
            let lease = match required(args, "lease_id") {
                Ok(l) => l,
                Err(e) => {
                    return Err(e);
                },
            };
            if let Err(e) = expect_lease(agent, id.as_str(), lease.as_str()) {
                return Err(e);
            }
            if let Err(e) = expect_revision(args, agent.revision) {
                return Err(e);
            }
            match prepare_check_out(&proj, args, around, id.as_str(), agent, lease.as_str()) {
                Ok(p) => p,
                Err(e) => {
                    return Err(e);
                },
            }
        },
    };
    Ok(commit(proj, prepared, around.now))
}

// ---------------------------------------------------------------------------
// Decisions and outcomes

/// Whether an action is among the given ones.
pub open spec fn is_legal(legal: Seq<Json>, id: Seq<char>) -> bool {
    exists|i: int| 0 <= i < legal.len() && as_str(get(#[trigger] legal[i], "id"@)) == Some(id)
}

/// The first selected action that is not legal.
pub open spec fn stray(selected: Seq<Seq<char>>, legal: Seq<Json>, from: int) -> Option<Seq<char>>
    decreases selected.len() - from,
{
    if from < 0 || from >= selected.len() {
        None
    } else if !is_legal(legal, selected[from]) {
        Some(selected[from])
    } else {
        stray(selected, legal, from + 1)
    }
}

fn check_legal(legal: &Vec<Datum>, id: &str) -> (r: bool)
    ensures
        r == is_legal(views(legal@), id@),
{
    for i in 0..legal.len()
        invariant
            forall|k: int|
                0 <= k < i ==> as_str(get(#[trigger] views(legal@)[k], "id"@)) != Some(id@),
    {
        assert(views(legal@)[i as int] == legal@[i as int]@);
        if let Some(s) = get_str(&legal[i], "id") {
            if same(s.as_str(), id) {
                return true;
            }
        }
    }
    false
}

fn find_stray<'a>(selected: &'a Vec<String>, legal: &Vec<Datum>) -> (r: Option<&'a String>)
    ensures
        match r {
            Some(s) => stray(strs(selected@), views(legal@), 0) == Some(s@),
            None => stray(strs(selected@), views(legal@), 0) is None,
        },
{
    for i in 0..selected.len()
        invariant
            stray(strs(selected@), views(legal@), 0) == stray(
                strs(selected@),
                views(legal@),
                i as int,
            ),
    {
        assert(strs(selected@)[i as int] == selected@[i as int]@);
        if !check_legal(legal, selected[i].as_str()) {
            return Some(&selected[i]);
        }
    }
    None
}

/// The episode of a decision; without one it is the agent's.
pub open spec fn episode_for(j: Json, id: Seq<char>) -> Result<Seq<char>, Seq<char>> {
    slug("episode_id"@, text_or(j, "episode_id"@, id))
}

/// The name of a decision; without one it is taken from the journal.
pub open spec fn decision_for(j: Json, seq: u64) -> Result<Seq<char>, Seq<char>> {
    match as_str(get(j, "decision_id"@)) {
        Some(s) => slug("decision_id"@, s),
        None => Ok("d"@ + dec((seq + 1) as nat)),
    }
}

fn decision_name(args: &Datum, seq: u64) -> (r: Result<String, String>)
    requires
        seq < u64::MAX,
    ensures
        outcome(r) == decision_for(args@, seq),
{
    match get_str(args, "decision_id") {
        Some(s) => validate_slug("decision_id", s.as_str()),
        None => {
            let mut d = copy("d");
            d.append(decimal(seq + 1).as_str());
            Ok(d)
        },
    }
}

pub open spec fn decision_members(
    j: Json,
    episode: Seq<char>,
    decision: Seq<char>,
    legal: Seq<Json>,
) -> Seq<(Seq<char>, Json)> {
    seq![
        ("budget"@, Json::UInt(u64_or(j, "budget"@, 1))),
        ("decision_id"@, Json::Str(decision)),
        ("episode_id"@, Json::Str(episode)),
        ("fingerprints"@, fingerprints_given(j)),
        ("legal_actions"@, Json::Array(legal)),
        ("observation_hash"@, Json::Str(arg_text(j, "observation_hash"@))),
        ("policy_id"@, Json::Str(text_or(j, "policy_id"@, "manual"@))),
        ("profile_id"@, Json::Str(text_or(j, "profile"@, "coordination"@))),
        ("selected"@, json_strs(arg_list(j, "selected"@))),
        ("task"@, Json::Str(arg_text(j, "task"@))),
        ("workers"@, Json::UInt(u64_or(j, "workers"@, 1))),
    ]
}

/// Why a batch cannot be recorded.
pub open spec fn batch_fault(j: Json, legal: Seq<Json>) -> Result<(), Seq<char>> {
    if legal.len() == 0 {
        Err("legal_actions must list the frontier visible at this decision"@)
    } else if arg_list(j, "selected"@).len() == 0 {
        Err(
            "selected must name the batch actually started (empty batches are a stop, omit the call)"@,
        )
    } else {
        match stray(arg_list(j, "selected"@), legal, 0) {
            Some(id) => Err("selected action "@ + id + " is not in legal_actions"@),
            None => Ok(()),
        }
    }
}

/// The repeated answer of a call that names no agent.
pub open spec fn told_again(text: Seq<char>) -> Json {
    record(seq![("idempotent"@, Json::Bool(true)), ("text"@, Json::Str(text))])
}

fn tell_again(text: &str) -> (r: Datum)
    ensures
        r@ == told_again(text@),
{
    let mut ms = no_members();
    add_member(&mut ms, "idempotent", Datum::Bool(true));
    add_member(&mut ms, "text", str_value(text));
    assert(members(ms@) =~= seq![
        ("idempotent"@, Json::Bool(true)),
        ("text"@, Json::Str(text@)),
    ]);
    build(ms)
}

/// What recording a decision comes to, once the lease is found.
pub open spec fn deciding(
    p: ProjectionView,
    j: Json,
    now: u64,
    id: Seq<char>,
    lease: Seq<char>,
) -> Result<CommittedView, Seq<char>> {
    match episode_for(j, id) {
        Err(e) => Err(e),
        Ok(episode) => match decision_for(j, p.seq) {
            Err(e) => Err(e),
            Ok(decision) => match actions_given(j, "legal_actions"@) {
                Err(e) => Err(e),
                Ok(legal) => match batch_fault(j, legal) {
                    Err(e) => Err(e),
                    Ok(_) => Ok(
                        committed(
                            p,
                            PreparedView {
                                kind: "decision"@,
                                agent_id: id,
                                lease_id: lease,
                                idempotency_key: arg(j, "idempotency_key"@),
                                body: record(decision_members(j, episode, decision, legal)),
                                answer: AnswerView::Decision,
                            },
                            now,
                        ),
                    ),
                },
            },
        },
    }
}

/// What recording a decision comes to.
pub open spec fn decided(p: ProjectionView, j: Json, now: u64) -> Result<CommittedView, Seq<char>> {
    match payload_fault(j) {
        Err(e) => Err(e),
        Ok(_) => match agent_named(j) {
            Err(e) => Err(e),
            Ok(id) => match earlier(p, j) {
                Some(t) => Ok(CommittedView::Answered(told_again(t))),
                None => match live(p, id) {
                    Err(e) => Err(e),
                    Ok(a) => match need(j, "lease_id"@) {
                        Err(e) => Err(e),
                        Ok(lease) => match lease_fault(a, id, lease) {
                            Err(e) => Err(e),
                            Ok(_) => deciding(p, j, now, id, lease),
                        },
                    },
                },
            },
        },
    }
}

fn prepare_decision(proj: &Projection, args: &Datum, now: u64, id: &str, lease: &str) -> (r: Result<
    Prepared,
    String,
>)
    requires
        proj.seq < u64::MAX,
    ensures
        match r {
            Ok(prep) => prep@.answer is Decision && deciding(proj@, args@, now, id@, lease@)
                == Ok::<CommittedView, Seq<char>>(committed(proj@, prep@, now)),
            Err(e) => deciding(proj@, args@, now, id@, lease@) == Err::<CommittedView, Seq<char>>(
                e@,
            ),
        },
{
    let raw = string_or(args, "episode_id", id);
    let episode = match validate_slug("episode_id", raw.as_str()) {
        Ok(s) => s,
        Err(e) => {
            return Err(e);
        },
    };
    let decision = match decision_name(args, proj.seq) {
        Ok(s) => s,
        Err(e) => {
            return Err(e);
        },
    };
    let legal = match parse_actions(args, "legal_actions") {
        Ok(v) => v,
        Err(e) => {
            return Err(e);
        },
    };
    assert(views(legal@).len() == legal@.len());
    if legal.len() == 0 {
        return Err(copy("legal_actions must list the frontier visible at this decision"));
    }
    let selected = string_list(args, "selected");
    assert(strs(selected@).len() == selected@.len());
    if selected.len() == 0 {
        return Err(
            copy(
                "selected must name the batch actually started (empty batches are a stop, omit the call)",
            ),
        );
    }
    if let Some(s) = find_stray(&selected, &legal) {
        let mut e = copy("selected action ");
        e.append(s.as_str());
        e.append(" is not in legal_actions");
        return Err(e);
    }
    let ghost shown = views(legal@);
    let mut ms = no_members();
    add_member(&mut ms, "budget", Datum::UInt(number_or(args, "budget", 1)));
    add_member(&mut ms, "decision_id", str_value(decision.as_str()));
    add_member(&mut ms, "episode_id", str_value(episode.as_str()));
    add_member(&mut ms, "fingerprints", fingerprints(args));
    add_member(&mut ms, "legal_actions", array(legal));
    add_member(&mut ms, "observation_hash", Datum::Str(bound_opt(args, "observation_hash")));
    add_member(&mut ms, "policy_id", Datum::Str(string_or(args, "policy_id", "manual")));
    add_member(&mut ms, "profile_id", Datum::Str(string_or(args, "profile", "coordination")));
    add_member(&mut ms, "selected", strs_value(&selected));
    add_member(&mut ms, "task", Datum::Str(bound_opt(args, "task")));
    add_member(&mut ms, "workers", Datum::UInt(number_or(args, "workers", 1)));
    assert(members(ms@) =~= decision_members(args@, episode@, decision@, shown));
    Ok(
        Prepared {
            kind: copy("decision"),
            agent_id: copy(id),
            lease_id: copy(lease),
            idempotency_key: opt(args, "idempotency_key"),
            body: build(ms),
            answer: Answer::Decision,
        },
    )
}

pub fn record_decision(proj: Projection, args: &Datum, now: u64) -> (r: Result<Committed, String>)
    requires
        proj.wf(),
        proj.seq < u64::MAX,
    ensures
        call_view(r) == decided(proj@, args@, now),
        r matches Ok(Committed::Appended(_, _, q)) ==> q.wf(),
{
    if let Err(e) = reject_unsafe_payload(args) {
        return Err(e);
    }
    let id = match agent_id_of(args) {
        Ok(id) => id,
        Err(e) => {
            return Err(e);
        },
    };
    if let Some(t) = cached(&proj, args) {
        return Ok(Committed::Answered(tell_again(t.as_str())));
    }
    let prepared = match live_agent(&proj, id.as_str()) {
        Err(e) => {
            return Err(e);
        },
        Ok(agent) => {
            let lease = match required(args, "lease_id") {
                Ok(l) => l,
                Err(e) => {
                    return Err(e);
                },
            };
            if let Err(e) = expect_lease(agent, id.as_str(), lease.as_str()) {
                return Err(e);
            }
            match prepare_decision(&proj, args, now, id.as_str(), lease.as_str()) {
                Ok(p) => p,
                Err(e) => {
                    return Err(e);
                },
            }
        },
    };
    Ok(commit(proj, prepared, now))
}

/// Whether the journal has a decision of that name.
pub open spec fn decision_known(events: Seq<EventView>, id: Seq<char>) -> bool {
    exists|i: int|
        0 <= i < events.len() && (#[trigger] events[i]).kind == "decision"@ && as_str(
            get(events[i].body, "decision_id"@),
        ) == Some(id)
}

fn knows_decision(events: &Vec<Event>, id: &str) -> (r: bool)
    ensures
        r == decision_known(event_views(events@), id@),
{
    for i in 0..events.len()
        invariant
            forall|k: int|
                0 <= k < i ==> !((#[trigger] event_views(events@)[k]).kind == "decision"@
                    && as_str(get(event_views(events@)[k].body, "decision_id"@)) == Some(id@)),
    {
        let e = &events[i];
        assert(event_views(events@)[i as int] == e@);
        if same(e.kind.as_str(), "decision") {
            if let Some(s) = get_str(&e.body, "decision_id") {
                if same(s.as_str(), id) {
                    return true;
                }
            }
        }
    }
    false
}

/// A value where there is none yet.
pub open spec fn put_new(m: Seq<(Seq<char>, Json)>, key: Seq<char>, value: Json) -> Seq<
    (Seq<char>, Json),
> {
    if at(m, key) is Some {
        m
    } else {
        crate::smap::put(m, key, value)
    }
}

fn insert_new(m: &mut StrMap<Datum>, key: &str, value: Datum)
    requires
        old(m).wf(),
    ensures
        final(m).wf(),
        final(m)@ == put_new(old(m)@, key@, value@),
{
    if m.get(key).is_none() {
        m.insert(key, value);
    }
}

/// What the status of a run says: a pass counts unless something else was said,
/// a failure always counts.
pub open spec fn by_status(m: Seq<(Seq<char>, Json)>, run: RunView) -> Seq<(Seq<char>, Json)> {
    if run.status == "passed"@ {
        put_new(
            put_new(m, "correctness"@, Json::Real("1.0"@)),
            "integration"@,
            Json::Real("1.0"@),
        )
    } else if run.status == "failed"@ {
        crate::smap::put(m, "correctness"@, Json::Real("0.0"@))
    } else {
        m
    }
}

/// What the duration of a run says, unless something else was said.
pub open spec fn by_duration(m: Seq<(Seq<char>, Json)>, run: RunView) -> Seq<(Seq<char>, Json)> {
    match run.duration {
        Some(ms) => put_new(
            put_new(m, "cost"@, double_json(Json::UInt(ms))),
            "critical_path"@,
            double_json(Json::UInt(ms)),
        ),
        None => m,
    }
}

/// Metrics after the first `n` linked runs.
pub open spec fn with_runs(
    m: Seq<(Seq<char>, Json)>,
    adapters: Seq<AdapterView>,
    runs: Seq<RunView>,
    n: nat,
) -> Seq<(Seq<char>, Json)>
    decreases n,
{
    if n == 0 {
        m
    } else {
        adapted(
            by_duration(
                by_status(with_runs(m, adapters, runs, (n - 1) as nat), runs[n - 1]),
                runs[n - 1],
            ),
            adapters,
            runs[n - 1],
            adapters.len(),
        )
    }
}

/// The numeric members of the metrics of a call, as doubles.
pub open spec fn metrics_given(j: Json) -> Seq<(Seq<char>, Json)> {
    match as_object(get(j, "metrics"@)) {
        Some(ms) => numbers_in(ms, ms.len()),
        None => Seq::empty(),
    }
}

/// The numbers among the first `n` members, as doubles.
pub open spec fn numbers_in(ms: Seq<(Seq<char>, Json)>, n: nat) -> Seq<(Seq<char>, Json)>
    decreases n,
{
    if n == 0 {
        Seq::empty()
    } else {
        let before = numbers_in(ms, (n - 1) as nat);
        if is_number(ms[n - 1].1) {
            before.push((ms[n - 1].0, double_json(ms[n - 1].1)))
        } else {
            before
        }
    }
}

pub fn given_metrics(args: &Datum) -> (r: Vec<(String, Datum)>)
    ensures
        members(r@) == metrics_given(args@),
{
    let mut out: Vec<(String, Datum)> = Vec::new();
    assert(members(out@) =~= Seq::<(Seq<char>, Json)>::empty());
    let given = match args.get("metrics") {
        Some(v) => v.fields(),
        None => None,
    };
    if let Some(ms) = given {
        let ghost all = members(ms@);
        assert(all.len() == ms@.len());
        for i in 0..ms.len()
            invariant
                all == members(ms@),
                members(out@) == numbers_in(all, i as nat),
        {
            assert(all[i as int] == (ms@[i as int].0@, ms@[i as int].1@));
            if ms[i].1.number() {
                add_member(&mut out, ms[i].0.as_str(), ms[i].1.double());
            }
        }
    }
    out
}

pub open spec fn outcome_members(
    j: Json,
    decision: Seq<char>,
    action: Seq<char>,
    metrics: Seq<(Seq<char>, Json)>,
) -> Seq<(Seq<char>, Json)> {
    seq![
        ("action"@, Json::Str(action)),
        ("artifacts"@, json_strs(arg_list(j, "artifacts"@))),
        ("censored"@, Json::Bool(bool_or(j, "censored"@, false))),
        ("decision_id"@, Json::Str(decision)),
        ("fingerprints"@, fingerprints_given(j)),
        ("metrics"@, Json::Object(metrics)),
        ("profile_id"@, Json::Str(text_or(j, "profile"@, "coordination"@))),
        ("run_ids"@, json_strs(arg_list(j, "run_ids"@))),
    ]
}

/// A name that a call has to give, checked.
pub open spec fn slug_needed(j: Json, key: Seq<char>, label: Seq<char>) -> Result<
    Seq<char>,
    Seq<char>,
> {
    match need(j, key) {
        Err(e) => Err(e),
        Ok(s) => slug(label, s),
    }
}

fn required_slug(args: &Datum, key: &str, label: &str) -> (r: Result<String, String>)
    ensures
        outcome(r) == slug_needed(args@, key@, label@),
{
    match required(args, key) {
        Err(e) => Err(e),
        Ok(s) => validate_slug(label, s.as_str()),
    }
}

/// The metrics of an outcome: those of the call, then what its runs say if the
/// profile could be read.
pub open spec fn outcome_metrics(
    given: Seq<(Seq<char>, Json)>,
    adapters: Option<Seq<AdapterView>>,
    runs: Seq<RunView>,
) -> Seq<(Seq<char>, Json)> {
    let base = put_all(given);
    match adapters {
        Some(a) => with_runs(base, a, runs, runs.len()),
        None => base,
    }
}

pub open spec fn adapters_view(a: Option<&Vec<RunAdapter>>) -> Option<Seq<AdapterView>> {
    match a {
        Some(v) => Some(adapter_views(v@)),
        None => None,
    }
}

fn measure(
    given: &Vec<(String, Datum)>,
    adapters: Option<&Vec<RunAdapter>>,
    runs: &Vec<RunFacts>,
) -> (r: StrMap<Datum>)
    ensures
        r.wf(),
        r@ == outcome_metrics(members(given@), adapters_view(adapters), run_views(runs@)),
{
    let mut m: StrMap<Datum> = StrMap::new();
    let ghost all = members(given@);
    assert(all.take(0) =~= Seq::<(Seq<char>, Json)>::empty());
    for i in 0..given.len()
        invariant
            all == members(given@),
            m.wf(),
            m@ == put_all(all.take(i as int)),
    {
        assert(all.take(i + 1).drop_last() =~= all.take(i as int));
        assert(all[i as int] == (given@[i as int].0@, given@[i as int].1@));
        m.insert(given[i].0.as_str(), given[i].1.copy());
    }
    assert(all.take(all.len() as int) =~= all);
    if let Some(a) = adapters {
        let ghost base = m@;
        for i in 0..runs.len()
            invariant
                m.wf(),
                m@ == with_runs(base, adapter_views(a@), run_views(runs@), i as nat),
        {
            let run = &runs[i];
            assert(run_views(runs@)[i as int] == run@);
            if same(run.status.as_str(), "passed") {
                insert_new(&mut m, "correctness", Datum::Real(copy("1.0")));
                insert_new(&mut m, "integration", Datum::Real(copy("1.0")));
            } else if same(run.status.as_str(), "failed") {
                m.insert("correctness", Datum::Real(copy("0.0")));
            }
            if let Some(ms) = run.duration {
                insert_new(&mut m, "cost", Datum::UInt(ms).double());
                insert_new(&mut m, "critical_path", Datum::UInt(ms).double());
            }
            apply_run_adapters(a, run, &mut m);
            assert(adapter_views(a@).len() == a@.len());
        }
        assert(run_views(runs@).len() == runs@.len());
    }
    m
}

/// What recording an outcome comes to, once the lease is found.
pub open spec fn concluding(
    p: ProjectionView,
    events: Seq<EventView>,
    j: Json,
    now: u64,
    id: Seq<char>,
    lease: Seq<char>,
    metrics: Seq<(Seq<char>, Json)>,
) -> Result<CommittedView, Seq<char>> {
    match slug_needed(j, "decision_id"@, "decision_id"@) {
        Err(e) => Err(e),
        Ok(decision) => match slug_needed(j, "action"@, "action"@) {
            Err(e) => Err(e),
            Ok(action) => if !decision_known(events, decision) {
                Err("unknown decision_id "@ + decision)
            } else {
                Ok(
                    committed(
                        p,
                        PreparedView {
                            kind: "outcome"@,
                            agent_id: id,
                            lease_id: lease,
                            idempotency_key: arg(j, "idempotency_key"@),
                            body: record(outcome_members(j, decision, action, metrics)),
                            answer: AnswerView::Outcome,
                        },
                        now,
                    ),
                )
            },
        },
    }
}

/// What recording an outcome comes to.
pub open spec fn concluded(
    p: ProjectionView,
    events: Seq<EventView>,
    j: Json,
    now: u64,
    metrics: Seq<(Seq<char>, Json)>,
) -> Result<CommittedView, Seq<char>> {
    match payload_fault(j) {
        Err(e) => Err(e),
        Ok(_) => match agent_named(j) {
            Err(e) => Err(e),
            Ok(id) => match earlier(p, j) {
                Some(t) => Ok(CommittedView::Answered(told_again(t))),
                None => match live(p, id) {
                    Err(e) => Err(e),
                    Ok(a) => match need(j, "lease_id"@) {
                        Err(e) => Err(e),
                        Ok(lease) => match lease_fault(a, id, lease) {
                            Err(e) => Err(e),
                            Ok(_) => concluding(p, events, j, now, id, lease, metrics),
                        },
                    },
                },
            },
        },
    }
}

fn prepare_outcome(
    proj: &Projection,
    events: &Vec<Event>,
    args: &Datum,
    now: u64,
    id: &str,
    lease: &str,
    metrics: StrMap<Datum>,
) -> (r: Result<Prepared, String>)
    ensures
        match r {
            Ok(prep) => prep@.answer is Outcome && concluding(
                proj@,
                event_views(events@),
                args@,
                now,
                id@,
                lease@,
                metrics@,
            ) == Ok::<CommittedView, Seq<char>>(committed(proj@, prep@, now)),
            Err(e) => concluding(
                proj@,
                event_views(events@),
                args@,
                now,
                id@,
                lease@,
                metrics@,
            ) == Err::<CommittedView, Seq<char>>(e@),
        },
{
    let decision = match required_slug(args, "decision_id", "decision_id") {
        Ok(s) => s,
        Err(e) => {
            return Err(e);
        },
    };
    let action = match required_slug(args, "action", "action") {
        Ok(s) => s,
        Err(e) => {
            return Err(e);
        },
    };
    if !knows_decision(events, decision.as_str()) {
        let mut e = copy("unknown decision_id ");
        e.append(decision.as_str());
        return Err(e);
    }
    assert(members(metrics.entries@) =~= metrics@);
    let ghost shown = metrics@;
    let mut ms = no_members();
    add_member(&mut ms, "action", str_value(action.as_str()));
    add_member(&mut ms, "artifacts", strs_value(&string_list(args, "artifacts")));
    add_member(&mut ms, "censored", Datum::Bool(flag_or(args, "censored", false)));
    add_member(&mut ms, "decision_id", str_value(decision.as_str()));
    add_member(&mut ms, "fingerprints", fingerprints(args));
    add_member(&mut ms, "metrics", object(metrics.entries));
    add_member(&mut ms, "profile_id", Datum::Str(string_or(args, "profile", "coordination")));
    add_member(&mut ms, "run_ids", strs_value(&string_list(args, "run_ids")));
    assert(members(ms@) =~= outcome_members(args@, decision@, action@, shown));
    Ok(
        Prepared {
            kind: copy("outcome"),
            agent_id: copy(id),
            lease_id: copy(lease),
            idempotency_key: opt(args, "idempotency_key"),
            body: build(ms),
            answer: Answer::Outcome,
        },
    )
}

/// Records an outcome. `adapters` are those of the profile, if it could be read;
/// `runs` are the linked runs that are on record.
pub fn record_outcome(
    proj: Projection,
    events: &Vec<Event>,
    args: &Datum,
    now: u64,
    adapters: Option<&Vec<RunAdapter>>,
    runs: &Vec<RunFacts>,
) -> (r: Result<Committed, String>)
    requires
        proj.wf(),
        proj.seq < u64::MAX,
    ensures
        call_view(r) == concluded(
            proj@,
            event_views(events@),
            args@,
            now,
            outcome_metrics(metrics_given(args@), adapters_view(adapters), run_views(runs@)),
        ),
        r matches Ok(Committed::Appended(_, _, q)) ==> q.wf(),
{
    if let Err(e) = reject_unsafe_payload(args) {
        return Err(e);
    }
    let id = match agent_id_of(args) {
        Ok(id) => id,
        Err(e) => {
            return Err(e);
        },
    };
    if let Some(t) = cached(&proj, args) {
        return Ok(Committed::Answered(tell_again(t.as_str())));
    }
    let prepared = match live_agent(&proj, id.as_str()) {
        Err(e) => {
            return Err(e);
        },
        Ok(agent) => {
            let lease = match required(args, "lease_id") {
                Ok(l) => l,
                Err(e) => {
                    return Err(e);
                },
            };
            if let Err(e) = expect_lease(agent, id.as_str(), lease.as_str()) {
                return Err(e);
            }
            let metrics = measure(&given_metrics(args), adapters, runs);
            match prepare_outcome(&proj, events, args, now, id.as_str(), lease.as_str(), metrics) {
                Ok(p) => p,
                Err(e) => {
                    return Err(e);
                },
            }
        },
    };
    Ok(commit(proj, prepared, now))
}

// ---------------------------------------------------------------------------
// Laws

/// An agent that is present cannot be taken over: without its lease, and without
/// force, a check-in is refused as long as the agent is not stale.
pub proof fn law_lease_protects(p: ProjectionView, j: Json, w: AroundView, id: Seq<char>)
    requires
        payload_fault(j) is Ok,
        agent_named(j) == Ok::<Seq<char>, Seq<char>>(id),
        earlier(p, j) is None,
        live(p, id) is Ok,
        state_named(live(p, id)->Ok_0.state) is Ok,
        arg(j, "lease_id"@) != Some(live(p, id)->Ok_0.lease_id),
        !bool_or(j, "force"@, false),
        !stale(state_named(live(p, id)->Ok_0.state)->Ok_0, live(p, id)->Ok_0.expires_at, w.now),
    ensures
        checked_in(p, j, w) is Err,
{
}

/// Whether a projection is what an event makes of another, once the event was
/// written to the journal and read from it again.
pub open spec fn journaled_as(p: ProjectionView, e: EventView, q: ProjectionView) -> bool {
    event_from(event_json(e)) matches Ok(f) && q == applied(p, f)
}

/// Whatever a call changes in the group is what its event makes of it, read back from
/// the journal.
pub proof fn law_changes_are_journaled(p: ProjectionView, j: Json, w: AroundView)
    requires
        crate::smap::ascending(p.idempotency),
    ensures
        checked_in(p, j, w) matches Ok(CommittedView::Appended(_, e, q)) ==> journaled_as(p, e, q),
        updated(p, j, w) matches Ok(CommittedView::Appended(_, e, q)) ==> journaled_as(p, e, q),
        checked_out(p, j, w) matches Ok(CommittedView::Appended(_, e, q)) ==> journaled_as(p, e, q),
        decided(p, j, w.now) matches Ok(CommittedView::Appended(_, e, q)) ==> journaled_as(
            p,
            e,
            q,
        ),
{
    if let Ok(CommittedView::Appended(_, e, q)) = checked_in(p, j, w) {
        let id = agent_named(j)->Ok_0;
        let lease = lease_for(p, id, j, w.now)->Ok_0;
        let claims = claims_given(j)->Ok_0;
        law_stored_projection_is_replay(p, check_in_change(p, j, w, id, lease, claims), w.now);
    }
    if let Ok(CommittedView::Appended(_, e, q)) = updated(p, j, w) {
        let id = agent_named(j)->Ok_0;
        let a = live(p, id)->Ok_0;
        let lease = need(j, "lease_id"@)->Ok_0;
        let from = state_named(a.state)->Ok_0;
        let to = state_wanted(j, from)->Ok_0;
        let claims = claims_after(j, w, a)->Ok_0;
        law_stored_projection_is_replay(
            p,
            PreparedView {
                kind: "update"@,
                agent_id: id,
                lease_id: lease,
                idempotency_key: arg(j, "idempotency_key"@),
                body: record(update_members(j, w, a, to, claims)),
                answer: AnswerView::Update,
            },
            w.now,
        );
    }
    if let Ok(CommittedView::Appended(_, e, q)) = checked_out(p, j, w) {
        let id = agent_named(j)->Ok_0;
        let a = at(p.agents, id)->Some_0;
        let lease = need(j, "lease_id"@)->Ok_0;
        law_stored_projection_is_replay(
            p,
            PreparedView {
                kind: "check_out"@,
                agent_id: id,
                lease_id: lease,
                idempotency_key: arg(j, "idempotency_key"@),
                body: record(check_out_members(p, j, w, a, reason_for(j)->Ok_0)),
                answer: AnswerView::CheckOut,
            },
            w.now,
        );
    }
    if let Ok(CommittedView::Appended(_, e, q)) = decided(p, j, w.now) {
        let id = agent_named(j)->Ok_0;
        let lease = need(j, "lease_id"@)->Ok_0;
        law_stored_projection_is_replay(
            p,
            PreparedView {
                kind: "decision"@,
                agent_id: id,
                lease_id: lease,
                idempotency_key: arg(j, "idempotency_key"@),
                body: record(
                    decision_members(
                        j,
                        episode_for(j, id)->Ok_0,
                        decision_for(j, p.seq)->Ok_0,
                        actions_given(j, "legal_actions"@)->Ok_0,
                    ),
                ),
                answer: AnswerView::Decision,
            },
            w.now,
        );
    }
}

proof fn lemma_no_note(
    j: Json,
    w: AroundView,
    a: AgentRecord,
    to: AgentState,
    claims: Seq<ClaimView>,
)
    requires
        get(j, "note"@) is None,
    ensures
        get(record(update_members(j, w, a, to, claims)), "note"@) is None,
{
    let ms = update_members(j, w, a, to, claims);
    reveal_strlit("note");
    reveal_strlit("ack_seqs");
    reveal_strlit("blockers");
    reveal_strlit("checkpoint");
    reveal_strlit("claims");
    reveal_strlit("dirty_paths");
    reveal_strlit("expires_at");
    reveal_strlit("replace_blockers");
    reveal_strlit("replace_claims");
    reveal_strlit("replace_dirty");
    reveal_strlit("revision");
    reveal_strlit("state");
    reveal_strlit("summary");
    reveal_strlit("role");
    reveal_strlit("task");
    reveal_strlit("mas_session");
    reveal_strlit("base_oid");
    reveal_strlit("branch");
    reveal_strlit("head_oid");
    assert("note"@[0] == 'n');
    assert forall|i: int| 0 <= i < ms.len() implies (#[trigger] ms[i]).0 != "note"@ by {
        assert(ms[i].0[0] != 'n');
    }
    crate::json::lemma_record_none(ms, "note"@);
}

/// An update without a note sends no message: the messages stay, and only those
/// that it acknowledges are marked.
pub proof fn law_update_without_note_sends_none(p: ProjectionView, j: Json, w: AroundView)
    requires
        get(j, "note"@) is None,
    ensures
        updated(p, j, w) matches Ok(CommittedView::Appended(_, e, q)) ==> {
            &&& q.messages.len() == p.messages.len()
            &&& forall|i: int|
                0 <= i < p.messages.len() ==> {
                    let m = #[trigger] q.messages[i];
                    let o = p.messages[i];
                    &&& m.seq == o.seq && m.from == o.from && m.to == o.to && m.body == o.body
                    &&& m.acked != o.acked ==> m.acked && crate::izakaya::store::names_seq(
                        crate::izakaya::store::list_at(e.body, "ack_seqs"@),
                        o.seq,
                    )
                }
        },
{
    if let Ok(CommittedView::Appended(_, e, q)) = updated(p, j, w) {
        let id = agent_named(j)->Ok_0;
        let a = live(p, id)->Ok_0;
        let from = state_named(a.state)->Ok_0;
        let to = state_wanted(j, from)->Ok_0;
        let claims = claims_after(j, w, a)->Ok_0;
        lemma_no_note(j, w, a, to, claims);
        reveal_strlit("update");
        reveal_strlit("check_in");
        reveal_strlit("malformed");
        assert("update"@.len() == 6 && "check_in"@.len() == 8 && "malformed"@.len() == 9);
    }
}

/// A check-in that goes through leaves the agent present, with the lease and the
/// revision that it was given and its time of expiry.
pub proof fn law_check_in_is_present(p: ProjectionView, j: Json, w: AroundView)
    ensures
        checked_in(p, j, w) matches Ok(CommittedView::Appended(_, e, q)) ==> {
            let id = agent_named(j)->Ok_0;
            let lease = lease_for(p, id, j, w.now)->Ok_0;
            &&& at(q.agents, id) matches Some(a)
            &&& a.agent_id == id
            &&& a.lease_id == lease.0
            &&& a.revision == at_least_one(lease.1)
            &&& a.state == "checked_in"@
            &&& a.expires_at == capped_sum(
                w.now,
                at_least_one(u64_or(j, "ttl_secs"@, w.ttl_secs)),
            )
        },
{
    if let Ok(CommittedView::Appended(_, e, q)) = checked_in(p, j, w) {
        let id = agent_named(j)->Ok_0;
        let lease = lease_for(p, id, j, w.now)->Ok_0;
        let claims = claims_given(j)->Ok_0;
        let prep = check_in_change(p, j, w, id, lease, claims);
        let e0 = event_of(p, prep, w.now);
        lemma_check_in_answerable(p, prep, w.now);
        lemma_at_put(p.agents, id, crate::izakaya::store::agent_checked_in(e0), id);
        let ms = check_in_members(p, j, w, id, lease, claims);
        reveal_strlit("expires_at");
        reveal_strlit("head_oid");
        reveal_strlit("mas_note");
        reveal_strlit("mas_session");
        reveal_strlit("revision");
        reveal_strlit("role");
        reveal_strlit("state");
        reveal_strlit("summary");
        reveal_strlit("task");
        reveal_strlit("ttl_secs");
        reveal_strlit("workspace_id");
        reveal_strlit("worktree");
        reveal_strlit("malformed");
        reveal_strlit("check_in");
        assert("revision"@[0] == 'r' && "ttl_secs"@[0] == 't' && "worktree"@[0] == 'w');
        assert("check_in"@.len() != "malformed"@.len());
        assert("expires_at"@.len() == 10);
        assert("head_oid"@.len() == 8);
        assert("mas_note"@.len() == 8);
        assert("mas_session"@.len() == 11);
        assert("revision"@.len() == 8);
        assert("role"@.len() == 4);
        assert("state"@.len() == 5);
        assert("summary"@.len() == 7);
        assert("task"@.len() == 4);
        assert("ttl_secs"@.len() == 8);
        assert("workspace_id"@.len() == 12);
        assert("worktree"@.len() == 8);
        assert(ms[8].0 == "expires_at"@);
        assert(ms[9].0 == "head_oid"@);
        assert(ms[10].0 == "mas_note"@);
        assert(ms[11].0 == "mas_session"@);
        assert(ms[12].0 == "revision"@);
        assert(ms[13].0 == "role"@);
        assert(ms[14].0 == "state"@);
        assert(ms[15].0 == "summary"@);
        assert(ms[16].0 == "task"@);
        assert(ms[17].0 == "ttl_secs"@);
        assert(ms[18].0 == "workspace_id"@);
        assert(ms[19].0 == "worktree"@);
        assert(ms.len() == 20);
        crate::json::lemma_record_get(ms, 8);
        crate::json::lemma_record_get(ms, 12);
        crate::json::lemma_record_get(ms, 14);
    }
}

} // verus!

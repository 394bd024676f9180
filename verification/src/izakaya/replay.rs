//! Supported replay of recorded history. Not a counterfactual simulator.
//!
//! A candidate may stop early, take a recorded subset, or batch independent
//! recorded actions. Asking for a continuation that was not recorded counts as
//! out of support and earns nothing. Episodes that are still open stay censored.
use vstd::prelude::*;
use crate::izakaya::model::{overlap, paths_overlap, slug, validate_slug, AgentState};
use crate::izakaya::profiles::{
    executable_fault, items_at, objective_views, reject_executable, weight_of, read_weight, Objective,
    ObjectiveView, Profile, ProfileView,
};
use crate::izakaya::records::AgentRecord;
use crate::izakaya::store::{event_views, hash_id, text_hash, Event, EventView, Projection, ProjectionView};
use crate::json::{
    add_member, array, as_array, as_object, as_str, bool_or, build, compact, double_at, flag_or,
    get, get_items, get_str, get_strings, is_number, json_compact, json_strs, members, no_members,
    number_or, object, read_double, record, str_or, str_value, string_or, strings_at, strs_value,
    u64_or, views, Datum, Json,
};
use crate::order::{key_views, sort, sort_order, Key, KeyView};
use crate::smap::{at, put, StrMap};
use crate::text::{
    among, copy, copy_all, dec, decimal, hex_of, is_among, is_blank, join, joined, same, starts,
    starts_with, strs,
};

verus! {

// ---------------------------------------------------------------------------
// Policies

/// A declarative policy. Weights, the least score and beta are doubles.
pub struct Spec {
    pub id: String,
    pub selection: String,
    pub max_batch: u64,
    pub max_rounds: u64,
    pub prefer: Vec<(String, Datum)>,
    pub min_score: Datum,
    pub beta: Datum,
}

/// The values of a [`Spec`].
pub struct SpecView {
    pub id: Seq<char>,
    pub selection: Seq<char>,
    pub max_batch: u64,
    pub max_rounds: u64,
    pub prefer: Seq<(Seq<char>, Json)>,
    pub min_score: Json,
    pub beta: Json,
}

impl View for Spec {
    type V = SpecView;

    open spec fn view(&self) -> SpecView {
        SpecView {
            id: self.id@,
            selection: self.selection@,
            max_batch: self.max_batch,
            max_rounds: self.max_rounds,
            prefer: members(self.prefer@),
            min_score: self.min_score@,
            beta: self.beta@,
        }
    }
}

/// The policy that repeats what was done.
pub open spec fn incumbent_doc() -> Json {
    record(
        seq![
            ("id"@, Json::Str("incumbent"@)),
            ("max_batch"@, Json::UInt(32)),
            ("max_rounds"@, Json::UInt(10000)),
            ("prefer"@, Json::Array(Seq::empty())),
            ("selection"@, Json::Str("recorded"@)),
            ("version"@, Json::UInt(1)),
        ],
    )
}

pub fn incumbent_spec() -> (r: Datum)
    ensures
        r@ == incumbent_doc(),
{
    let none: Vec<Datum> = Vec::new();
    assert(views(none@) =~= Seq::<Json>::empty());
    let mut ms = no_members();
    add_member(&mut ms, "id", str_value("incumbent"));
    add_member(&mut ms, "max_batch", Datum::UInt(32));
    add_member(&mut ms, "max_rounds", Datum::UInt(10000));
    add_member(&mut ms, "prefer", array(none));
    add_member(&mut ms, "selection", str_value("recorded"));
    add_member(&mut ms, "version", Datum::UInt(1));
    assert(members(ms@) =~= seq![
        ("id"@, Json::Str("incumbent"@)),
        ("max_batch"@, Json::UInt(32)),
        ("max_rounds"@, Json::UInt(10000)),
        ("prefer"@, Json::Array(Seq::empty())),
        ("selection"@, Json::Str("recorded"@)),
        ("version"@, Json::UInt(1)),
    ]);
    build(ms)
}

/// The features that a policy may prefer.
pub open spec fn known_feature(f: Seq<char>) -> bool {
    f == "non_overlapping"@ || f == "continue"@ || f == "root"@ || f == "handoff"@
}

fn is_known_feature(f: &str) -> (r: bool)
    ensures
        r == known_feature(f@),
{
    same(f, "non_overlapping") || same(f, "continue") || same(f, "root") || same(f, "handoff")
}

/// The preferences among the first `n` items, or the first unknown feature.
pub open spec fn prefers_upto(items: Seq<Json>, n: nat) -> Result<
    Seq<(Seq<char>, Json)>,
    Seq<char>,
>
    decreases n,
{
    if n == 0 {
        Ok(Seq::empty())
    } else {
        match prefers_upto(items, (n - 1) as nat) {
            Err(e) => Err(e),
            Ok(rest) => {
                let f = str_or(items[n - 1], "feature"@, ""@);
                if known_feature(f) {
                    Ok(rest.push((f, weight_of(items[n - 1]))))
                } else {
                    Err("unknown policy feature "@ + f)
                }
            },
        }
    }
}

proof fn lemma_prefers_err(items: Seq<Json>, k: nat, n: nat)
    requires
        k <= n,
        prefers_upto(items, k) is Err,
    ensures
        prefers_upto(items, n) == prefers_upto(items, k),
    decreases n,
{
    if k < n {
        lemma_prefers_err(items, k, (n - 1) as nat);
    }
}

pub open spec fn prefers_of(j: Json) -> Result<Seq<(Seq<char>, Json)>, Seq<char>> {
    prefers_upto(items_at(j, "prefer"@), items_at(j, "prefer"@).len())
}

fn read_prefers(v: &Datum) -> (r: Result<Vec<(String, Datum)>, String>)
    ensures
        match (r, prefers_of(v@)) {
            (Ok(a), Ok(b)) => members(a@) == b,
            (Err(a), Err(b)) => a@ == b,
            _ => false,
        },
{
    let mut out = no_members();
    let items = match get_items(v, "prefer") {
        Some(a) => a,
        None => {
            return Ok(out);
        },
    };
    let ghost all = views(items@);
    assert(members(out@) =~= Seq::<(Seq<char>, Json)>::empty());
    for i in 0..items.len()
        invariant
            all == views(items@),
            all == items_at(v@, "prefer"@),
            prefers_upto(all, i as nat) == Ok::<Seq<(Seq<char>, Json)>, Seq<char>>(members(out@)),
    {
        assert(all[i as int] == items@[i as int]@);
        let f = string_or(&items[i], "feature", "");
        if !is_known_feature(f.as_str()) {
            let mut e = copy("unknown policy feature ");
            e.append(f.as_str());
            assert(prefers_upto(all, (i + 1) as nat) is Err);
            proof {
                lemma_prefers_err(all, (i + 1) as nat, all.len());
            }
            return Err(e);
        }
        add_member(&mut out, f.as_str(), read_weight(&items[i]));
    }
    Ok(out)
}

/// A number that is not above zero, in the form that JSON output gives it.
pub open spec fn not_positive(j: Json) -> bool {
    match j {
        Json::UInt(n) => n == 0,
        Json::NInt(_) => true,
        Json::Real(t) => starts(t, "-"@) || t == "0.0"@,
        _ => true,
    }
}

fn is_not_positive(v: &Datum) -> (r: bool)
    ensures
        r == not_positive(v@),
{
    match v {
        Datum::UInt(n) => *n == 0,
        Datum::NInt(_) => true,
        Datum::Real(t) => starts_with(t.as_str(), "-") || same(t.as_str(), "0.0"),
        _ => true,
    }
}

/// Whether a policy gives a beta that is not above zero.
pub open spec fn beta_too_low(j: Json) -> bool {
    match get(j, "beta"@) {
        Some(v) => is_number(v) && not_positive(v),
        None => false,
    }
}

fn is_beta_too_low(v: &Datum) -> (r: bool)
    ensures
        r == beta_too_low(v@),
{
    match v.get("beta") {
        Some(n) => n.number() && is_not_positive(n),
        None => false,
    }
}

/// The policy that a JSON value describes.
pub open spec fn spec_from(j: Json) -> Result<SpecView, Seq<char>> {
    match executable_fault(j) {
        Err(e) => Err(e),
        Ok(_) => match slug("policy.id"@, str_or(j, "id"@, "policy"@)) {
            Err(e) => Err(e),
            Ok(id) => {
                let version = u64_or(j, "version"@, 1);
                let selection = str_or(j, "selection"@, "score"@);
                let max_batch = u64_or(j, "max_batch"@, 1);
                let max_rounds = u64_or(j, "max_rounds"@, 32);
                if version != 1 {
                    Err("unsupported policy version "@ + dec(version as nat))
                } else if selection != "recorded"@ && selection != "score"@ {
                    Err("policy.selection must be recorded or score"@)
                } else if !(1 <= max_batch <= 32) || !(1 <= max_rounds <= 10_000) {
                    Err("policy max_batch must be 1..=32 and max_rounds 1..=10000"@)
                } else {
                    match prefers_of(j) {
                        Err(e) => Err(e),
                        Ok(prefer) => if beta_too_low(j) {
                            Err("policy.beta must be > 0"@)
                        } else {
                            Ok(
                                SpecView {
                                    id,
                                    selection,
                                    max_batch,
                                    max_rounds,
                                    prefer,
                                    min_score: double_at(j, "min_score"@, "0.0"@),
                                    beta: double_at(j, "beta"@, "1.0"@),
                                },
                            )
                        },
                    }
                }
            },
        },
    }
}

pub open spec fn spec_result(r: Result<Spec, String>) -> Result<SpecView, Seq<char>> {
    match r {
        Ok(s) => Ok(s@),
        Err(e) => Err(e@),
    }
}

pub fn parse_spec(v: &Datum) -> (r: Result<Spec, String>)
    ensures
        spec_result(r) == spec_from(v@),
{
    if let Err(e) = reject_executable(v) {
        return Err(e);
    }
    let raw = string_or(v, "id", "policy");
    let id = match validate_slug("policy.id", raw.as_str()) {
        Ok(s) => s,
        Err(e) => {
            return Err(e);
        },
    };
    let version: u64 = number_or(v, "version", 1);
    if version != 1 {
        let mut e = copy("unsupported policy version ");
        e.append(decimal(version).as_str());
        return Err(e);
    }
    let selection = string_or(v, "selection", "score");
    if !same(selection.as_str(), "recorded") && !same(selection.as_str(), "score") {
        return Err(copy("policy.selection must be recorded or score"));
    }
    let max_batch: u64 = number_or(v, "max_batch", 1);
    let max_rounds: u64 = number_or(v, "max_rounds", 32);
    if max_batch < 1 || max_batch > 32 || max_rounds < 1 || max_rounds > 10_000 {
        return Err(copy("policy max_batch must be 1..=32 and max_rounds 1..=10000"));
    }
    let prefer = match read_prefers(v) {
        Ok(p) => p,
        Err(e) => {
            return Err(e);
        },
    };
    if is_beta_too_low(v) {
        return Err(copy("policy.beta must be > 0"));
    }
    let beta = read_double(v, "beta", "1.0");
    let min_score = read_double(v, "min_score", "0.0");
    Ok(Spec { id, selection, max_batch, max_rounds, prefer, min_score, beta })
}

// ---------------------------------------------------------------------------
// Recorded history

pub struct Action {
    pub id: String,
    pub overlapping: bool,
    pub kind: String,
    pub paths: Vec<String>,
    pub causal_parents: Vec<String>,
}

/// The values of an [`Action`].
pub struct ActionView {
    pub id: Seq<char>,
    pub overlapping: bool,
    pub kind: Seq<char>,
    pub paths: Seq<Seq<char>>,
    pub causal_parents: Seq<Seq<char>>,
}

impl View for Action {
    type V = ActionView;

    open spec fn view(&self) -> ActionView {
        ActionView {
            id: self.id@,
            overlapping: self.overlapping,
            kind: self.kind@,
            paths: strs(self.paths@),
            causal_parents: strs(self.causal_parents@),
        }
    }
}

pub open spec fn action_views(v: Seq<Action>) -> Seq<ActionView> {
    Seq::new(v.len(), |i: int| v[i]@)
}

impl Action {
    pub fn copy(&self) -> (r: Action)
        ensures
            r@ == self@,
    {
        Action {
            id: copy(self.id.as_str()),
            overlapping: self.overlapping,
            kind: copy(self.kind.as_str()),
            paths: copy_all(&self.paths),
            causal_parents: copy_all(&self.causal_parents),
        }
    }
}

pub struct Decision {
    pub seq: u64,
    pub id: String,
    pub agent_id: String,
    pub episode_id: String,
    pub task: String,
    pub legal: Vec<Action>,
    pub selected: Vec<String>,
    pub fingerprints: Vec<(String, Datum)>,
    pub ts: u64,
}

/// The values of a [`Decision`].
pub struct DecisionView {
    pub seq: u64,
    pub id: Seq<char>,
    pub agent_id: Seq<char>,
    pub episode_id: Seq<char>,
    pub task: Seq<char>,
    pub legal: Seq<ActionView>,
    pub selected: Seq<Seq<char>>,
    pub fingerprints: Seq<(Seq<char>, Json)>,
    pub ts: u64,
}

impl View for Decision {
    type V = DecisionView;

    open spec fn view(&self) -> DecisionView {
        DecisionView {
            seq: self.seq,
            id: self.id@,
            agent_id: self.agent_id@,
            episode_id: self.episode_id@,
            task: self.task@,
            legal: action_views(self.legal@),
            selected: strs(self.selected@),
            fingerprints: members(self.fingerprints@),
            ts: self.ts,
        }
    }
}

pub open spec fn decision_views(v: Seq<Decision>) -> Seq<DecisionView> {
    Seq::new(v.len(), |i: int| v[i]@)
}

fn copy_actions(v: &Vec<Action>) -> (r: Vec<Action>)
    ensures
        action_views(r@) == action_views(v@),
{
    let mut out: Vec<Action> = Vec::new();
    for i in 0..v.len()
        invariant
            out@.len() == i,
            forall|k: int| 0 <= k < i ==> (#[trigger] out@[k])@ == v@[k]@,
    {
        out.push(v[i].copy());
    }
    assert(action_views(out@) =~= action_views(v@));
    out
}

fn copy_members(v: &Vec<(String, Datum)>) -> (r: Vec<(String, Datum)>)
    ensures
        members(r@) == members(v@),
{
    let mut out: Vec<(String, Datum)> = Vec::new();
    for i in 0..v.len()
        invariant
            out@.len() == i,
            forall|k: int|
                0 <= k < i ==> (#[trigger] out@[k]).0@ == v@[k].0@ && out@[k].1@ == v@[k].1@,
    {
        out.push((copy(v[i].0.as_str()), v[i].1.copy()));
    }
    assert(members(out@) =~= members(v@));
    out
}

impl Decision {
    pub fn copy(&self) -> (r: Decision)
        ensures
            r@ == self@,
    {
        Decision {
            seq: self.seq,
            id: copy(self.id.as_str()),
            agent_id: copy(self.agent_id.as_str()),
            episode_id: copy(self.episode_id.as_str()),
            task: copy(self.task.as_str()),
            legal: copy_actions(&self.legal),
            selected: copy_all(&self.selected),
            fingerprints: copy_members(&self.fingerprints),
            ts: self.ts,
        }
    }
}

/// The action that a JSON value describes.
pub open spec fn action_from() -> spec_fn(Json) -> Option<ActionView> {
    |j: Json|
        match as_str(get(j, "id"@)) {
            None => None,
            Some(id) => Some(
                ActionView {
                    id,
                    overlapping: bool_or(j, "overlapping"@, false),
                    kind: str_or(j, "kind"@, "continue"@),
                    paths: strings_at(j, "paths"@),
                    causal_parents: strings_at(j, "causal_parents"@),
                },
            ),
        }
}

/// The predicate of a member that holds a text.
pub open spec fn holds_text() -> spec_fn((Seq<char>, Json)) -> bool {
    |m: (Seq<char>, Json)| m.1 is Str
}

/// The members with a text.
pub open spec fn text_members(j: Json, key: Seq<char>) -> Seq<(Seq<char>, Json)> {
    match as_object(get(j, key)) {
        Some(ms) => ms.filter(holds_text()),
        None => Seq::empty(),
    }
}

/// The decision that an event records; an event without legal actions or
/// without a name records none.
pub open spec fn decision_of() -> spec_fn(EventView) -> Option<DecisionView> {
    |e: EventView|
        if e.kind != "decision"@ {
            None
        } else {
            match (as_array(get(e.body, "legal_actions"@)), as_str(get(e.body, "decision_id"@))) {
                (Some(items), Some(id)) => Some(
                    DecisionView {
                        seq: e.seq,
                        id,
                        agent_id: e.agent_id,
                        episode_id: str_or(e.body, "episode_id"@, "episode"@),
                        task: str_or(e.body, "task"@, ""@),
                        legal: items.filter_map(action_from()),
                        selected: strings_at(e.body, "selected"@),
                        fingerprints: text_members(e.body, "fingerprints"@),
                        ts: e.ts,
                    },
                ),
                _ => None,
            }
        }
}

fn read_actions(items: &Vec<Datum>) -> (r: Vec<Action>)
    ensures
        action_views(r@) == views(items@).filter_map(action_from()),
{
    let mut out: Vec<Action> = Vec::new();
    let ghost all = views(items@);
    assert(action_views(out@) =~= Seq::<ActionView>::empty());
    assert(all.take(0).filter_map(action_from()) =~= Seq::<ActionView>::empty());
    for i in 0..items.len()
        invariant
            all == views(items@),
            action_views(out@) == all.take(i as int).filter_map(action_from()),
    {
        proof {
            all.lemma_filter_map_take_succ(action_from(), i as int);
        }
        let v = &items[i];
        assert(all[i as int] == v@);
        if let Some(id) = get_str(v, "id") {
            let ghost before = out@;
            let a = Action {
                id: copy(id.as_str()),
                overlapping: flag_or(v, "overlapping", false),
                kind: string_or(v, "kind", "continue"),
                paths: get_strings(v, "paths"),
                causal_parents: get_strings(v, "causal_parents"),
            };
            out.push(a);
            assert(action_views(out@) =~= action_views(before).push(a@));
            assert(action_from()(v@) == Some(a@));
        }
    }
    assert(all.take(all.len() as int) =~= all);
    out
}

fn read_texts(v: &Datum, key: &str) -> (r: Vec<(String, Datum)>)
    ensures
        members(r@) == text_members(v@, key@),
{
    let ghost keep = holds_text();
    let mut out: Vec<(String, Datum)> = Vec::new();
    assert(members(out@) =~= Seq::<(Seq<char>, Json)>::empty());
    let given = match v.get(key) {
        Some(o) => o.fields(),
        None => None,
    };
    if let Some(ms) = given {
        let ghost all = members(ms@);
        proof {
            reveal(Seq::filter);
        }
        assert(all.take(0).filter(keep) =~= Seq::<(Seq<char>, Json)>::empty());
        for i in 0..ms.len()
            invariant
                all == members(ms@),
                keep == holds_text(),
                members(out@) == all.take(i as int).filter(keep),
        {
            proof {
                assert(all.take(i + 1) =~= all.take(i as int).push(all[i as int]));
                all.take(i as int).lemma_filter_push(all[i as int], keep);
            }
            assert(all[i as int] == (ms@[i as int].0@, ms@[i as int].1@));
            match &ms[i].1 {
                Datum::Str(s) => {
                    add_member(&mut out, ms[i].0.as_str(), str_value(s.as_str()));
                },
                _ => {},
            }
        }
        assert(all.take(all.len() as int) =~= all);
    }
    out
}

pub fn decision_from(event: &Event) -> (r: Option<Decision>)
    ensures
        match r {
            Some(d) => decision_of()(event@) == Some(d@),
            None => decision_of()(event@) is None,
        },
{
    if !same(event.kind.as_str(), "decision") {
        return None;
    }
    let body = &event.body;
    match get_items(body, "legal_actions") {
        None => None,
        Some(items) => match get_str(body, "decision_id") {
            None => None,
            Some(id) => Some(
                Decision {
                    seq: event.seq,
                    id: copy(id.as_str()),
                    agent_id: copy(event.agent_id.as_str()),
                    episode_id: string_or(body, "episode_id", "episode"),
                    task: string_or(body, "task", ""),
                    legal: read_actions(items),
                    selected: get_strings(body, "selected"),
                    fingerprints: read_texts(body, "fingerprints"),
                    ts: event.ts,
                },
            ),
        },
    }
}

fn read_decisions(events: &Vec<Event>) -> (r: Vec<Decision>)
    ensures
        decision_views(r@) == event_views(events@).filter_map(decision_of()),
{
    let mut out: Vec<Decision> = Vec::new();
    let ghost all = event_views(events@);
    assert(decision_views(out@) =~= Seq::<DecisionView>::empty());
    assert(all.take(0).filter_map(decision_of()) =~= Seq::<DecisionView>::empty());
    for i in 0..events.len()
        invariant
            all == event_views(events@),
            decision_views(out@) == all.take(i as int).filter_map(decision_of()),
    {
        proof {
            all.lemma_filter_map_take_succ(decision_of(), i as int);
        }
        assert(all[i as int] == events@[i as int]@);
        if let Some(d) = decision_from(&events[i]) {
            let ghost before = out@;
            out.push(d);
            assert(decision_views(out@) =~= decision_views(before).push(d@));
        }
    }
    assert(all.take(all.len() as int) =~= all);
    out
}

/// A recorded outcome. Metrics are numbers as JSON has them.
pub struct Outcome {
    pub decision: String,
    pub action: String,
    pub metrics: Vec<(String, Datum)>,
    pub censored: bool,
}

/// The values of an [`Outcome`].
pub struct OutcomeView {
    pub decision: Seq<char>,
    pub action: Seq<char>,
    pub metrics: Seq<(Seq<char>, Json)>,
    pub censored: bool,
}

impl View for Outcome {
    type V = OutcomeView;

    open spec fn view(&self) -> OutcomeView {
        OutcomeView {
            decision: self.decision@,
            action: self.action@,
            metrics: members(self.metrics@),
            censored: self.censored,
        }
    }
}

pub open spec fn outcome_views(v: Seq<Outcome>) -> Seq<OutcomeView> {
    Seq::new(v.len(), |i: int| v[i]@)
}

pub open spec fn outcome_of() -> spec_fn(EventView) -> Option<OutcomeView> {
    |e: EventView|
        if e.kind != "outcome"@ {
            None
        } else {
            match (as_str(get(e.body, "decision_id"@)), as_str(get(e.body, "action"@))) {
                (Some(decision), Some(action)) => Some(
                    OutcomeView {
                        decision,
                        action,
                        metrics: crate::izakaya::presence::metrics_given(e.body),
                        censored: bool_or(e.body, "censored"@, false),
                    },
                ),
                _ => None,
            }
        }
}

pub fn compile_outcomes(events: &Vec<Event>) -> (r: Vec<Outcome>)
    ensures
        outcome_views(r@) == event_views(events@).filter_map(outcome_of()),
{
    let mut out: Vec<Outcome> = Vec::new();
    let ghost all = event_views(events@);
    assert(outcome_views(out@) =~= Seq::<OutcomeView>::empty());
    assert(all.take(0).filter_map(outcome_of()) =~= Seq::<OutcomeView>::empty());
    for i in 0..events.len()
        invariant
            all == event_views(events@),
            outcome_views(out@) == all.take(i as int).filter_map(outcome_of()),
    {
        proof {
            all.lemma_filter_map_take_succ(outcome_of(), i as int);
        }
        let e = &events[i];
        assert(all[i as int] == e@);
        if same(e.kind.as_str(), "outcome") {
            if let Some(d) = get_str(&e.body, "decision_id") {
                if let Some(a) = get_str(&e.body, "action") {
                    let ghost before = out@;
                    let o = Outcome {
                        decision: copy(d.as_str()),
                        action: copy(a.as_str()),
                        metrics: crate::izakaya::presence::given_metrics(&e.body),
                        censored: flag_or(&e.body, "censored", false),
                    };
                    out.push(o);
                    assert(outcome_views(out@) =~= outcome_views(before).push(o@));
                    assert(outcome_of()(e@) == Some(o@));
                }
            }
        }
    }
    assert(all.take(all.len() as int) =~= all);
    out
}

/// The latest outcome of an action of a decision, among the first `n`.
pub open spec fn outcome_for(
    os: Seq<OutcomeView>,
    decision: Seq<char>,
    action: Seq<char>,
    n: nat,
) -> Option<OutcomeView>
    decreases n,
{
    if n == 0 {
        None
    } else if os[n - 1].decision == decision && os[n - 1].action == action {
        Some(os[n - 1])
    } else {
        outcome_for(os, decision, action, (n - 1) as nat)
    }
}

fn find_outcome<'a>(os: &'a Vec<Outcome>, decision: &str, action: &str) -> (r: Option<&'a Outcome>)
    ensures
        match r {
            Some(o) => outcome_for(outcome_views(os@), decision@, action@, os@.len()) == Some(o@),
            None => outcome_for(outcome_views(os@), decision@, action@, os@.len()) is None,
        },
{
    let mut n: usize = os.len();
    while n > 0
        invariant
            n <= os@.len(),
            outcome_for(outcome_views(os@), decision@, action@, os@.len()) == outcome_for(
                outcome_views(os@),
                decision@,
                action@,
                n as nat,
            ),
        decreases n,
    {
        let o = &os[n - 1];
        assert(outcome_views(os@)[n - 1] == o@);
        if same(o.decision.as_str(), decision) && same(o.action.as_str(), action) {
            return Some(o);
        }
        n = n - 1;
    }
    None
}

// ---------------------------------------------------------------------------
// Worlds

/// An episode: its decisions in order, the agents that took them, and whether it
/// is still open.
pub struct World {
    pub episode_id: String,
    pub task: String,
    pub ts: u64,
    pub agent_ids: Vec<String>,
    pub decisions: Vec<Decision>,
    pub censored: bool,
}

/// The values of a [`World`].
pub struct WorldView {
    pub episode_id: Seq<char>,
    pub task: Seq<char>,
    pub ts: u64,
    pub agent_ids: Seq<Seq<char>>,
    pub decisions: Seq<DecisionView>,
    pub censored: bool,
}

impl View for World {
    type V = WorldView;

    open spec fn view(&self) -> WorldView {
        WorldView {
            episode_id: self.episode_id@,
            task: self.task@,
            ts: self.ts,
            agent_ids: strs(self.agent_ids@),
            decisions: decision_views(self.decisions@),
            censored: self.censored,
        }
    }
}

pub open spec fn world_views(v: Seq<World>) -> Seq<WorldView> {
    Seq::new(v.len(), |i: int| v[i]@)
}

/// Items in a given order.
pub open spec fn arranged<T>(s: Seq<T>, order: Seq<int>) -> Seq<T> {
    Seq::new(order.len(), |i: int| s[order[i]])
}

pub open spec fn of_episode(id: Seq<char>) -> spec_fn(DecisionView) -> bool {
    |d: DecisionView| d.episode_id == id
}

/// The names that occur among the first `n`, in ascending order.
pub open spec fn names(s: Seq<Seq<char>>, n: nat) -> Seq<(Seq<char>, bool)>
    decreases n,
{
    if n == 0 {
        Seq::empty()
    } else {
        put(names(s, (n - 1) as nat), s[n - 1], true)
    }
}

pub open spec fn keys_of(m: Seq<(Seq<char>, bool)>) -> Seq<Seq<char>> {
    m.map_values(|kv: (Seq<char>, bool)| kv.0)
}

/// The distinct texts, in ascending order.
pub open spec fn distinct(s: Seq<Seq<char>>) -> Seq<Seq<char>> {
    keys_of(names(s, s.len()))
}

pub fn sort_distinct(v: &Vec<String>) -> (r: Vec<String>)
    ensures
        strs(r@) == distinct(strs(v@)),
{
    let mut m: StrMap<bool> = StrMap::new();
    for i in 0..v.len()
        invariant
            m.wf(),
            m@ == names(strs(v@), i as nat),
    {
        assert(strs(v@)[i as int] == v@[i as int]@);
        m.insert(v[i].as_str(), true);
    }
    let ghost all = m@;
    let mut out: Vec<String> = Vec::new();
    for i in 0..m.entries.len()
        invariant
            all == m@,
            out@.len() == i,
            forall|k: int| 0 <= k < i ==> (#[trigger] out@[k])@ == all[k].0,
    {
        out.push(copy(m.entries[i].0.as_str()));
    }
    assert(strs(out@) =~= keys_of(all));
    out
}

pub open spec fn seq_keys(ds: Seq<DecisionView>) -> Seq<KeyView> {
    Seq::new(
        ds.len(),
        |i: int| KeyView { rank: ds[i].seq, name: Seq::empty(), number: 0, at: i as nat },
    )
}

/// Decisions in the order of the journal.
pub open spec fn in_sequence(ds: Seq<DecisionView>) -> Seq<DecisionView> {
    arranged(ds, sort_order(seq_keys(ds)))
}

/// The first task that is named.
pub open spec fn first_task(ds: Seq<DecisionView>, from: int) -> Seq<char>
    decreases ds.len() - from,
{
    if from < 0 || from >= ds.len() {
        ""@
    } else if ds[from].task.len() > 0 {
        ds[from].task
    } else {
        first_task(ds, from + 1)
    }
}

pub open spec fn takers(ds: Seq<DecisionView>) -> Seq<Seq<char>> {
    distinct(Seq::new(ds.len(), |i: int| ds[i].agent_id))
}

/// Whether an agent has not checked out.
pub open spec fn still_open(agents: Seq<(Seq<char>, AgentRecord)>, id: Seq<char>) -> bool {
    match at(agents, id) {
        Some(a) => a.state != "checked_out"@,
        None => true,
    }
}

/// An episode is censored as long as one of its agents has not checked out.
pub open spec fn any_open(agents: Seq<(Seq<char>, AgentRecord)>, ids: Seq<Seq<char>>) -> bool {
    exists|i: int| 0 <= i < ids.len() && still_open(agents, #[trigger] ids[i])
}

pub open spec fn world_of(id: Seq<char>, ds: Seq<DecisionView>, p: ProjectionView) -> WorldView {
    let ordered = in_sequence(ds.filter(of_episode(id)));
    WorldView {
        episode_id: id,
        task: first_task(ordered, 0),
        ts: if ordered.len() > 0 {
            ordered[0].ts
        } else {
            0
        },
        agent_ids: takers(ordered),
        decisions: ordered,
        censored: any_open(p.agents, takers(ordered)),
    }
}

pub open spec fn episodes(ds: Seq<DecisionView>) -> Seq<Seq<char>> {
    distinct(Seq::new(ds.len(), |i: int| ds[i].episode_id))
}

pub open spec fn worlds_unsorted(ds: Seq<DecisionView>, p: ProjectionView) -> Seq<WorldView> {
    Seq::new(episodes(ds).len(), |i: int| world_of(episodes(ds)[i], ds, p))
}

pub open spec fn world_keys(ws: Seq<WorldView>) -> Seq<KeyView> {
    Seq::new(
        ws.len(),
        |i: int| KeyView { rank: ws[i].ts, name: ws[i].episode_id, number: 0, at: i as nat },
    )
}

/// The order of worlds: by time, then by name.
pub open spec fn world_order(ws: Seq<WorldView>) -> Seq<int> {
    sort_order(world_keys(ws))
}

/// The episodes that a journal records.
pub open spec fn worlds_of(events: Seq<EventView>, p: ProjectionView) -> Seq<WorldView> {
    let ws = worlds_unsorted(events.filter_map(decision_of()), p);
    arranged(ws, world_order(ws))
}

fn pick_episode(ds: &Vec<Decision>, id: &str) -> (r: Vec<Decision>)
    ensures
        decision_views(r@) == decision_views(ds@).filter(of_episode(id@)),
{
    let ghost keep = of_episode(id@);
    let ghost all = decision_views(ds@);
    let mut out: Vec<Decision> = Vec::new();
    proof {
        reveal(Seq::filter);
    }
    assert(decision_views(out@) =~= Seq::<DecisionView>::empty());
    assert(all.take(0).filter(keep) =~= Seq::<DecisionView>::empty());
    for i in 0..ds.len()
        invariant
            all == decision_views(ds@),
            keep == of_episode(id@),
            decision_views(out@) == all.take(i as int).filter(keep),
    {
        proof {
            assert(all.take(i + 1) =~= all.take(i as int).push(all[i as int]));
            all.take(i as int).lemma_filter_push(all[i as int], keep);
        }
        assert(all[i as int] == ds@[i as int]@);
        if same(ds[i].episode_id.as_str(), id) {
            let ghost before = out@;
            let d = ds[i].copy();
            out.push(d);
            assert(decision_views(out@) =~= decision_views(before).push(d@));
        }
    }
    assert(all.take(all.len() as int) =~= all);
    out
}

fn sort_decisions(ds: &Vec<Decision>) -> (r: Vec<Decision>)
    ensures
        decision_views(r@) == in_sequence(decision_views(ds@)),
{
    let mut keys: Vec<Key> = Vec::new();
    for i in 0..ds.len()
        invariant
            keys@.len() == i,
            forall|k: int|
                0 <= k < i ==> (#[trigger] keys@[k])@ == (KeyView {
                    rank: ds@[k].seq,
                    name: Seq::empty(),
                    number: 0,
                    at: k as nat,
                }),
    {
        let name = copy("");
        proof {
            reveal_strlit("");
        }
        assert(name@ =~= Seq::<char>::empty());
        keys.push(Key { rank: ds[i].seq, name, number: 0, at: i });
    }
    assert(key_views(keys@) =~= seq_keys(decision_views(ds@)));
    let order = sort(keys);
    let mut out: Vec<Decision> = Vec::new();
    for i in 0..order.len()
        invariant
            order@.len() == ds@.len(),
            forall|k: int| 0 <= k < order@.len() ==> #[trigger] order@[k] < ds@.len(),
            out@.len() == i,
            forall|k: int| 0 <= k < i ==> (#[trigger] out@[k])@ == ds@[order@[k] as int]@,
    {
        out.push(ds[order[i]].copy());
    }
    assert(decision_views(out@) =~= in_sequence(decision_views(ds@)));
    out
}

fn find_task(ds: &Vec<Decision>) -> (r: String)
    ensures
        r@ == first_task(decision_views(ds@), 0),
{
    for i in 0..ds.len()
        invariant
            first_task(decision_views(ds@), 0) == first_task(decision_views(ds@), i as int),
    {
        assert(decision_views(ds@)[i as int] == ds@[i as int]@);
        if !is_blank(ds[i].task.as_str()) {
            return copy(ds[i].task.as_str());
        }
    }
    copy("")
}

fn list_takers(ds: &Vec<Decision>) -> (r: Vec<String>)
    ensures
        strs(r@) == takers(decision_views(ds@)),
{
    let mut ids: Vec<String> = Vec::new();
    for i in 0..ds.len()
        invariant
            ids@.len() == i,
            forall|k: int| 0 <= k < i ==> (#[trigger] ids@[k])@ == ds@[k]@.agent_id,
    {
        ids.push(copy(ds[i].agent_id.as_str()));
    }
    assert(strs(ids@) =~= Seq::new(
        decision_views(ds@).len(),
        |i: int| decision_views(ds@)[i].agent_id,
    ));
    sort_distinct(&ids)
}

fn has_open(proj: &Projection, ids: &Vec<String>) -> (r: bool)
    requires
        proj.wf(),
    ensures
        r == any_open(proj@.agents, strs(ids@)),
{
    for i in 0..ids.len()
        invariant
            proj.wf(),
            forall|k: int| 0 <= k < i ==> !still_open(proj@.agents, #[trigger] strs(ids@)[k]),
    {
        assert(strs(ids@)[i as int] == ids@[i as int]@);
        let waiting: bool = match proj.agents.get(ids[i].as_str()) {
            Some(a) => !same(a.state.as_str(), AgentState::CheckedOut.as_str()),
            None => true,
        };
        if waiting {
            return true;
        }
    }
    false
}

fn make_world(id: &str, ds: &Vec<Decision>, proj: &Projection) -> (r: World)
    requires
        proj.wf(),
    ensures
        r@ == world_of(id@, decision_views(ds@), proj@),
{
    let own = pick_episode(ds, id);
    let decisions = sort_decisions(&own);
    assert(decision_views(decisions@).len() == decisions@.len());
    let ts: u64 = if decisions.len() > 0 {
        decisions[0].ts
    } else {
        0
    };
    assert(decisions@.len() > 0 ==> decision_views(decisions@)[0] == decisions@[0]@);
    let agent_ids = list_takers(&decisions);
    let censored: bool = has_open(proj, &agent_ids);
    World { episode_id: copy(id), task: find_task(&decisions), ts, agent_ids, decisions, censored }
}

/// The positions of worlds in their order.
fn order_worlds(ws: &Vec<World>) -> (r: Vec<usize>)
    ensures
        r@.len() == ws@.len(),
        world_order(world_views(ws@)).len() == ws@.len(),
        forall|i: int|
            0 <= i < r@.len() ==> (#[trigger] r@[i] as int) == world_order(world_views(ws@))[i]
                && r@[i] < ws@.len(),
{
    let mut keys: Vec<Key> = Vec::new();
    for i in 0..ws.len()
        invariant
            keys@.len() == i,
            forall|k: int|
                0 <= k < i ==> (#[trigger] keys@[k])@ == (KeyView {
                    rank: ws@[k].ts,
                    name: ws@[k].episode_id@,
                    number: 0,
                    at: k as nat,
                }),
    {
        keys.push(Key { rank: ws[i].ts, name: copy(ws[i].episode_id.as_str()), number: 0, at: i });
    }
    assert(key_views(keys@) =~= world_keys(world_views(ws@)));
    sort(keys)
}

pub fn compile_worlds(events: &Vec<Event>, proj: &Projection) -> (r: Vec<World>)
    requires
        proj.wf(),
    ensures
        world_views(r@) == worlds_of(event_views(events@), proj@),
{
    let ds = read_decisions(events);
    let ghost all = decision_views(ds@);
    let mut ids: Vec<String> = Vec::new();
    for i in 0..ds.len()
        invariant
            ids@.len() == i,
            forall|k: int| 0 <= k < i ==> (#[trigger] ids@[k])@ == ds@[k]@.episode_id,
    {
        ids.push(copy(ds[i].episode_id.as_str()));
    }
    assert(strs(ids@) =~= Seq::new(all.len(), |i: int| all[i].episode_id));
    let eps = sort_distinct(&ids);
    assert(strs(eps@) == episodes(all));
    let mut loose: Vec<World> = Vec::new();
    for i in 0..eps.len()
        invariant
            proj.wf(),
            all == decision_views(ds@),
            strs(eps@) == episodes(all),
            loose@.len() == i,
            forall|k: int|
                0 <= k < i ==> (#[trigger] loose@[k])@ == world_of(episodes(all)[k], all, proj@),
    {
        assert(strs(eps@)[i as int] == eps@[i as int]@);
        loose.push(make_world(eps[i].as_str(), &ds, proj));
    }
    assert(strs(eps@).len() == eps@.len());
    assert(world_views(loose@) =~= worlds_unsorted(all, proj@));
    let order = order_worlds(&loose);
    let mut out: Vec<World> = Vec::new();
    for i in 0..order.len()
        invariant
            order@.len() == loose@.len(),
            forall|k: int| 0 <= k < order@.len() ==> #[trigger] order@[k] < loose@.len(),
            out@.len() == i,
            forall|k: int| 0 <= k < i ==> (#[trigger] out@[k])@ == loose@[order@[k] as int]@,
    {
        out.push(loose[order[i]].copy());
    }
    assert(world_views(out@) =~= worlds_of(event_views(events@), proj@));
    out
}

impl World {
    pub fn copy(&self) -> (r: World)
        ensures
            r@ == self@,
    {
        let mut decisions: Vec<Decision> = Vec::new();
        for i in 0..self.decisions.len()
            invariant
                decisions@.len() == i,
                forall|k: int|
                    0 <= k < i ==> (#[trigger] decisions@[k])@ == self.decisions@[k]@,
        {
            decisions.push(self.decisions[i].copy());
        }
        assert(decision_views(decisions@) =~= decision_views(self.decisions@));
        World {
            episode_id: copy(self.episode_id.as_str()),
            task: copy(self.task.as_str()),
            ts: self.ts,
            agent_ids: copy_all(&self.agent_ids),
            decisions,
            censored: self.censored,
        }
    }
}

// ---------------------------------------------------------------------------
// Choosing

/// Whether an action has a feature.
pub open spec fn has_feature(f: Seq<char>, overlapping: bool, kind: Seq<char>) -> bool {
    if f == "non_overlapping"@ {
        !overlapping
    } else if f == "continue"@ || f == "root"@ || f == "handoff"@ {
        kind == f
    } else {
        false
    }
}

pub fn feature_hit(feature: &str, overlapping: bool, kind: &str) -> (r: bool)
    ensures
        r == has_feature(feature@, overlapping, kind@),
{
    if same(feature, "non_overlapping") {
        !overlapping
    } else if same(feature, "continue") || same(feature, "root") || same(feature, "handoff") {
        same(kind, feature)
    } else {
        false
    }
}

/// How the score of an action compares: the least rank is the best score, and an
/// action whose score is too low is not eligible.
#[derive(Clone, Copy)]
pub struct Grade {
    pub rank: u64,
    pub eligible: bool,
}

/// The grade of an action. A score depends on the features alone, so eight grades
/// cover all actions: four kinds (continue, root, handoff, any other) that
/// overlap, then the same four that do not.
pub open spec fn cell(overlapping: bool, kind: Seq<char>) -> int {
    (if overlapping {
        0int
    } else {
        4
    }) + (if kind == "continue"@ {
        0int
    } else if kind == "root"@ {
        1
    } else if kind == "handoff"@ {
        2
    } else {
        3
    })
}

pub fn grade_cell(overlapping: bool, kind: &str) -> (r: usize)
    ensures
        r == cell(overlapping, kind@),
        r < 8,
{
    let base: usize = if overlapping {
        0
    } else {
        4
    };
    let step: usize = if same(kind, "continue") {
        0
    } else if same(kind, "root") {
        1
    } else if same(kind, "handoff") {
        2
    } else {
        3
    };
    base + step
}

pub open spec fn grade_of(g: Seq<Grade>, a: ActionView) -> Grade {
    g[cell(a.overlapping, a.kind)]
}

/// Two actions that can be started together: neither caused the other, and their
/// paths do not overlap.
pub open spec fn apart(a: ActionView, b: ActionView) -> bool {
    &&& !among(a.causal_parents, b.id)
    &&& !among(b.causal_parents, a.id)
    &&& forall|i: int, j: int|
        0 <= i < a.paths.len() && 0 <= j < b.paths.len() ==> !overlap(
            #[trigger] a.paths[i],
            #[trigger] b.paths[j],
        )
}

pub fn independent(a: &Action, b: &Action) -> (r: bool)
    ensures
        r == apart(a@, b@),
{
    if is_among(&a.causal_parents, b.id.as_str()) || is_among(&b.causal_parents, a.id.as_str()) {
        return false;
    }
    for i in 0..a.paths.len()
        invariant
            forall|k: int, j: int|
                0 <= k < i && 0 <= j < b@.paths.len() ==> !overlap(
                    #[trigger] a@.paths[k],
                    #[trigger] b@.paths[j],
                ),
    {
        for j in 0..b.paths.len()
            invariant
                i < a.paths@.len(),
                forall|k: int|
                    0 <= k < j ==> !overlap(a@.paths[i as int], #[trigger] b@.paths[k]),
        {
            assert(a@.paths[i as int] == a.paths@[i as int]@);
            assert(b@.paths[j as int] == b.paths@[j as int]@);
            if paths_overlap(a.paths[i].as_str(), b.paths[j].as_str()) {
                return false;
            }
        }
    }
    true
}

pub open spec fn rank_keys(acts: Seq<ActionView>, g: Seq<Grade>) -> Seq<KeyView> {
    Seq::new(
        acts.len(),
        |i: int|
            KeyView { rank: grade_of(g, acts[i]).rank, name: acts[i].id, number: 0, at: i as nat },
    )
}

/// Actions by score, then by name.
pub open spec fn ranked(acts: Seq<ActionView>, g: Seq<Grade>) -> Seq<ActionView> {
    arranged(acts, sort_order(rank_keys(acts, g)))
}

pub open spec fn apart_from_all(batch: Seq<ActionView>, a: ActionView) -> bool {
    forall|i: int| 0 <= i < batch.len() ==> apart(#[trigger] batch[i], a)
}

/// The batch taken from the first `n` of the ranked actions: each that is
/// eligible and independent of those before it, as long as there is room.
pub open spec fn batch_upto(acts: Seq<ActionView>, g: Seq<Grade>, max: nat, n: nat) -> Seq<
    ActionView,
>
    decreases n,
{
    if n == 0 {
        Seq::empty()
    } else {
        let rest = batch_upto(acts, g, max, (n - 1) as nat);
        let a = acts[n - 1];
        if grade_of(g, a).eligible && rest.len() < max && apart_from_all(rest, a) {
            rest.push(a)
        } else {
            rest
        }
    }
}

pub open spec fn is_selected(selected: Seq<Seq<char>>) -> spec_fn(ActionView) -> bool {
    |a: ActionView| among(selected, a.id)
}

/// What a policy starts at a decision.
pub open spec fn batch_of(d: DecisionView, s: SpecView, g: Seq<Grade>) -> Seq<ActionView> {
    if s.selection == "recorded"@ {
        d.legal.filter(is_selected(d.selected))
    } else {
        let r = ranked(d.legal, g);
        batch_upto(r, g, s.max_batch as nat, r.len())
    }
}

fn all_independent(batch: &Vec<Action>, a: &Action) -> (r: bool)
    ensures
        r == apart_from_all(action_views(batch@), a@),
{
    for i in 0..batch.len()
        invariant
            forall|k: int| 0 <= k < i ==> apart(#[trigger] action_views(batch@)[k], a@),
    {
        assert(action_views(batch@)[i as int] == batch@[i as int]@);
        if !independent(&batch[i], a) {
            return false;
        }
    }
    true
}

pub fn choose_batch(legal: &Vec<Action>, grades: &Vec<Grade>, max_batch: u64) -> (r: Vec<Action>)
    requires
        grades@.len() == 8,
    ensures
        action_views(r@) == batch_upto(
            ranked(action_views(legal@), grades@),
            grades@,
            max_batch as nat,
            legal@.len(),
        ),
        ranked(action_views(legal@), grades@).len() == legal@.len(),
{
    let ghost acts = action_views(legal@);
    let mut keys: Vec<Key> = Vec::new();
    for i in 0..legal.len()
        invariant
            grades@.len() == 8,
            acts == action_views(legal@),
            keys@.len() == i,
            forall|k: int|
                0 <= k < i ==> (#[trigger] keys@[k])@ == (KeyView {
                    rank: grade_of(grades@, acts[k]).rank,
                    name: acts[k].id,
                    number: 0,
                    at: k as nat,
                }),
    {
        let a = &legal[i];
        assert(acts[i as int] == a@);
        let c: usize = grade_cell(a.overlapping, a.kind.as_str());
        keys.push(Key { rank: grades[c].rank, name: copy(a.id.as_str()), number: 0, at: i });
    }
    assert(key_views(keys@) =~= rank_keys(acts, grades@));
    let order = sort(keys);
    let ghost r = ranked(acts, grades@);
    let mut batch: Vec<Action> = Vec::new();
    assert(action_views(batch@) =~= Seq::<ActionView>::empty());
    for i in 0..order.len()
        invariant
            grades@.len() == 8,
            acts == action_views(legal@),
            r == ranked(acts, grades@),
            order@.len() == legal@.len(),
            r.len() == order@.len(),
            forall|k: int|
                0 <= k < order@.len() ==> #[trigger] order@[k] < legal@.len() && order@[k] as int
                    == sort_order(rank_keys(acts, grades@))[k],
            action_views(batch@) == batch_upto(r, grades@, max_batch as nat, i as nat),
    {
        let a = &legal[order[i]];
        assert(r[i as int] == a@);
        let c: usize = grade_cell(a.overlapping, a.kind.as_str());
        assert(action_views(batch@).len() == batch@.len());
        if grades[c].eligible && (batch.len() as u64) < max_batch && all_independent(&batch, a) {
            let ghost before = batch@;
            let copied = a.copy();
            batch.push(copied);
            assert(action_views(batch@) =~= action_views(before).push(copied@));
        }
    }
    batch
}

fn pick_selected(d: &Decision) -> (r: Vec<Action>)
    ensures
        action_views(r@) == d@.legal.filter(is_selected(d@.selected)),
{
    let ghost keep = is_selected(d@.selected);
    let ghost all = d@.legal;
    let mut out: Vec<Action> = Vec::new();
    proof {
        reveal(Seq::filter);
    }
    assert(action_views(out@) =~= Seq::<ActionView>::empty());
    assert(all.take(0).filter(keep) =~= Seq::<ActionView>::empty());
    for i in 0..d.legal.len()
        invariant
            all == d@.legal,
            keep == is_selected(d@.selected),
            action_views(out@) == all.take(i as int).filter(keep),
    {
        proof {
            assert(all.take(i + 1) =~= all.take(i as int).push(all[i as int]));
            all.take(i as int).lemma_filter_push(all[i as int], keep);
        }
        assert(all[i as int] == d.legal@[i as int]@);
        if is_among(&d.selected, d.legal[i].id.as_str()) {
            let ghost before = out@;
            let a = d.legal[i].copy();
            out.push(a);
            assert(action_views(out@) =~= action_views(before).push(a@));
        }
    }
    assert(all.take(all.len() as int) =~= all);
    out
}

fn take_batch(d: &Decision, s: &Spec, grades: &Vec<Grade>) -> (r: Vec<Action>)
    requires
        grades@.len() == 8,
    ensures
        action_views(r@) == batch_of(d@, s@, grades@),
{
    if same(s.selection.as_str(), "recorded") {
        pick_selected(d)
    } else {
        choose_batch(&d.legal, grades, s.max_batch)
    }
}

// ---------------------------------------------------------------------------
// Playing

/// What a replay has come to.
pub struct Played {
    pub in_support: u64,
    pub out_of_support: u64,
    pub trace: Vec<String>,
    pub revealed: Vec<Outcome>,
}

/// The values of a [`Played`].
pub struct PlayedView {
    pub in_support: nat,
    pub out_of_support: nat,
    pub trace: Seq<Seq<char>>,
    pub revealed: Seq<OutcomeView>,
}

impl View for Played {
    type V = PlayedView;

    open spec fn view(&self) -> PlayedView {
        PlayedView {
            in_support: self.in_support as nat,
            out_of_support: self.out_of_support as nat,
            trace: strs(self.trace@),
            revealed: outcome_views(self.revealed@),
        }
    }
}

pub open spec fn nothing_played() -> PlayedView {
    PlayedView {
        in_support: 0,
        out_of_support: 0,
        trace: Seq::empty(),
        revealed: Seq::empty(),
    }
}

/// One action more. One that was selected is in support, and its outcome is
/// revealed unless it is censored; any other is out of support and reveals
/// nothing.
pub open spec fn step(
    p: PlayedView,
    d: DecisionView,
    a: ActionView,
    os: Seq<OutcomeView>,
) -> PlayedView {
    if among(d.selected, a.id) {
        PlayedView {
            in_support: p.in_support + 1,
            trace: p.trace.push(d.id + ":"@ + a.id),
            revealed: match outcome_for(os, d.id, a.id, os.len()) {
                Some(o) => if o.censored {
                    p.revealed
                } else {
                    p.revealed.push(o)
                },
                None => p.revealed,
            },
            ..p
        }
    } else {
        PlayedView {
            out_of_support: p.out_of_support + 1,
            trace: p.trace.push(d.id + ":"@ + a.id + ":out_of_support"@),
            ..p
        }
    }
}

pub open spec fn play_batch(
    p: PlayedView,
    d: DecisionView,
    batch: Seq<ActionView>,
    os: Seq<OutcomeView>,
    n: nat,
) -> PlayedView
    decreases n,
{
    if n == 0 {
        p
    } else {
        step(play_batch(p, d, batch, os, (n - 1) as nat), d, batch[n - 1], os)
    }
}

/// How many decisions are played from one on: up to the first at which nothing
/// is started, and no more rounds than the policy allows.
pub open spec fn rounds(ds: Seq<DecisionView>, s: SpecView, g: Seq<Grade>, i: nat) -> nat
    decreases ds.len() - i,
{
    if i >= ds.len() || i >= s.max_rounds || batch_of(ds[i as int], s, g).len() == 0 {
        i
    } else {
        rounds(ds, s, g, i + 1)
    }
}

pub open spec fn play_rounds(
    p: PlayedView,
    ds: Seq<DecisionView>,
    s: SpecView,
    g: Seq<Grade>,
    os: Seq<OutcomeView>,
    n: nat,
) -> PlayedView
    decreases n,
{
    if n == 0 {
        p
    } else {
        let b = batch_of(ds[n - 1], s, g);
        play_batch(play_rounds(p, ds, s, g, os, (n - 1) as nat), ds[n - 1], b, os, b.len())
    }
}

/// A world played from a given state on.
pub open spec fn play_world(
    p: PlayedView,
    w: WorldView,
    s: SpecView,
    g: Seq<Grade>,
    os: Seq<OutcomeView>,
) -> PlayedView {
    play_rounds(p, w.decisions, s, g, os, rounds(w.decisions, s, g, 0))
}

impl Outcome {
    pub fn copy(&self) -> (r: Outcome)
        ensures
            r@ == self@,
    {
        Outcome {
            decision: copy(self.decision.as_str()),
            action: copy(self.action.as_str()),
            metrics: copy_members(&self.metrics),
            censored: self.censored,
        }
    }
}

fn play_action(p: &mut Played, d: &Decision, a: &Action, os: &Vec<Outcome>)
    requires
        old(p).in_support + old(p).out_of_support == old(p).trace@.len(),
    ensures
        final(p)@ == step(old(p)@, d@, a@, outcome_views(os@)),
        final(p).in_support + final(p).out_of_support == final(p).trace@.len(),
{
    let ghost before = p@;
    let mut t = copy(d.id.as_str());
    t.append(":");
    t.append(a.id.as_str());
    assert(outcome_views(os@).len() == os@.len());
    if is_among(&d.selected, a.id.as_str()) {
        p.trace.push(t);
        assert(strs(p.trace@) =~= before.trace.push(t@));
        assert(p.trace@.len() == p.trace.len());
        p.in_support = p.in_support + 1;
        if let Some(o) = find_outcome(os, d.id.as_str(), a.id.as_str()) {
            if !o.censored {
                let c = o.copy();
                p.revealed.push(c);
                assert(outcome_views(p.revealed@) =~= before.revealed.push(c@));
            }
        }
    } else {
        t.append(":out_of_support");
        p.trace.push(t);
        assert(strs(p.trace@) =~= before.trace.push(t@));
        assert(p.trace@.len() == p.trace.len());
        p.out_of_support = p.out_of_support + 1;
    }
}

pub fn replay_world(
    p: &mut Played,
    world: &World,
    s: &Spec,
    grades: &Vec<Grade>,
    os: &Vec<Outcome>,
)
    requires
        grades@.len() == 8,
        old(p).in_support + old(p).out_of_support == old(p).trace@.len(),
    ensures
        final(p)@ == play_world(old(p)@, world@, s@, grades@, outcome_views(os@)),
        final(p).in_support + final(p).out_of_support == final(p).trace@.len(),
{
    let ghost start = p@;
    let ghost ds = world@.decisions;
    let ghost outs = outcome_views(os@);
    let mut i: usize = 0;
    while i < world.decisions.len()
        invariant_except_break
            rounds(ds, s@, grades@, 0) == rounds(ds, s@, grades@, i as nat),
        invariant
            ds == world@.decisions,
            outs == outcome_views(os@),
            grades@.len() == 8,
            i <= world.decisions@.len(),
            p.in_support + p.out_of_support == p.trace@.len(),
            p@ == play_rounds(start, ds, s@, grades@, outs, i as nat),
        ensures
            rounds(ds, s@, grades@, 0) == i,
        decreases world.decisions@.len() - i,
    {
        if i as u64 >= s.max_rounds {
            break ;
        }
        let d = &world.decisions[i];
        assert(ds[i as int] == d@);
        let batch = take_batch(d, s, grades);
        let ghost b = action_views(batch@);
        assert(b.len() == batch@.len());
        if batch.len() == 0 {
            break ;
        }
        let ghost mid = p@;
        for k in 0..batch.len()
            invariant
                b == action_views(batch@),
                outs == outcome_views(os@),
                p.in_support + p.out_of_support == p.trace@.len(),
                p@ == play_batch(mid, d@, b, outs, k as nat),
        {
            assert(b[k as int] == batch@[k as int]@);
            play_action(p, d, &batch[k], os);
        }
        i = i + 1;
    }
}

/// What a replay of several worlds has come to.
pub struct Agg {
    pub played: Played,
    pub censored_ids: Vec<String>,
}

/// The values of an [`Agg`].
pub struct AggView {
    pub played: PlayedView,
    pub censored_ids: Seq<Seq<char>>,
}

impl View for Agg {
    type V = AggView;

    open spec fn view(&self) -> AggView {
        AggView { played: self.played@, censored_ids: strs(self.censored_ids@) }
    }
}

/// The first `n` of some worlds, replayed. A censored one is only listed.
pub open spec fn replayed(
    ws: Seq<WorldView>,
    s: SpecView,
    g: Seq<Grade>,
    os: Seq<OutcomeView>,
    n: nat,
) -> AggView
    decreases n,
{
    if n == 0 {
        AggView { played: nothing_played(), censored_ids: Seq::empty() }
    } else {
        let rest = replayed(ws, s, g, os, (n - 1) as nat);
        let w = ws[n - 1];
        if w.censored {
            AggView { censored_ids: rest.censored_ids.push(w.episode_id), ..rest }
        } else {
            AggView { played: play_world(rest.played, w, s, g, os), ..rest }
        }
    }
}

/// The worlds at given positions.
pub open spec fn at_positions(ws: Seq<WorldView>, which: Seq<int>) -> Seq<WorldView> {
    Seq::new(which.len(), |i: int| ws[which[i]])
}

pub open spec fn positions(v: Seq<usize>) -> Seq<int> {
    Seq::new(v.len(), |i: int| v[i] as int)
}

pub fn replay_set(
    worlds: &Vec<World>,
    which: &Vec<usize>,
    s: &Spec,
    grades: &Vec<Grade>,
    os: &Vec<Outcome>,
) -> (r: Agg)
    requires
        grades@.len() == 8,
        forall|i: int| 0 <= i < which@.len() ==> #[trigger] which@[i] < worlds@.len(),
    ensures
        r@ == replayed(
            at_positions(world_views(worlds@), positions(which@)),
            s@,
            grades@,
            outcome_views(os@),
            which@.len(),
        ),
        r.played.in_support + r.played.out_of_support == r.played.trace@.len(),
{
    let ghost ws = at_positions(world_views(worlds@), positions(which@));
    let none: Vec<Outcome> = Vec::new();
    assert(outcome_views(none@) =~= Seq::<OutcomeView>::empty());
    let mut agg = Agg {
        played: Played {
            in_support: 0,
            out_of_support: 0,
            trace: crate::text::no_strings(),
            revealed: none,
        },
        censored_ids: crate::text::no_strings(),
    };
    assert(strs(agg.played.trace@).len() == agg.played.trace@.len());
    for i in 0..which.len()
        invariant
            grades@.len() == 8,
            ws == at_positions(world_views(worlds@), positions(which@)),
            forall|k: int| 0 <= k < which@.len() ==> #[trigger] which@[k] < worlds@.len(),
            agg@ == replayed(ws, s@, grades@, outcome_views(os@), i as nat),
            agg.played.in_support + agg.played.out_of_support == agg.played.trace@.len(),
    {
        let w = &worlds[which[i]];
        assert(ws[i as int] == w@);
        if w.censored {
            let ghost before = agg.censored_ids@;
            agg.censored_ids.push(copy(w.episode_id.as_str()));
            assert(strs(agg.censored_ids@) =~= strs(before).push(w@.episode_id));
        } else {
            replay_world(&mut agg.played, w, s, grades, os);
        }
    }
    agg
}

// ---------------------------------------------------------------------------
// Holdouts and gates

/// How many of `n` worlds are held out: a fifth, rounded up, at least one and
/// not all.
pub open spec fn held_out(n: nat) -> nat {
    if n < 2 {
        0
    } else {
        let h = (n + 4) / 5;
        if h < 1 {
            1
        } else if h > n - 1 {
            (n - 1) as nat
        } else {
            h
        }
    }
}

/// The worlds in order, split into those that came first and the latest, which
/// are held out.
pub fn split_holdout(worlds: &Vec<World>) -> (r: (Vec<usize>, Vec<usize>))
    ensures
        positions(r.0@) + positions(r.1@) == world_order(world_views(worlds@)),
        r.1@.len() == held_out(worlds@.len()),
        r.0@.len() + r.1@.len() == worlds@.len(),
        forall|i: int| 0 <= i < r.0@.len() ==> #[trigger] r.0@[i] < worlds@.len(),
        forall|i: int| 0 <= i < r.1@.len() ==> #[trigger] r.1@[i] < worlds@.len(),
{
    let order = order_worlds(worlds);
    let n: usize = order.len();
    let h: usize = if n < 2 {
        0
    } else {
        let fifth: usize = n / 5 + (if n % 5 == 0 {
            0
        } else {
            1
        });
        if fifth > n - 1 {
            n - 1
        } else {
            fifth
        }
    };
    assert(h == held_out(n as nat));
    let mut train: Vec<usize> = Vec::new();
    let mut hold: Vec<usize> = Vec::new();
    for i in 0..n
        invariant
            n == order@.len(),
            h <= n,
            n == worlds@.len(),
            forall|k: int| 0 <= k < n ==> #[trigger] order@[k] < worlds@.len(),
            train@ + hold@ == order@.take(i as int),
            train@.len() == (if i <= n - h {
                i as int
            } else {
                n - h
            }),
            forall|k: int| 0 <= k < train@.len() ==> #[trigger] train@[k] < worlds@.len(),
            forall|k: int| 0 <= k < hold@.len() ==> #[trigger] hold@[k] < worlds@.len(),
    {
        let x: usize = order[i];
        let ghost t0 = train@;
        let ghost h0 = hold@;
        assert(order@.take(i + 1) =~= order@.take(i as int).push(x));
        assert((t0 + h0).len() == i);
        if i < n - h {
            train.push(x);
            assert(train@ + hold@ =~= (t0 + h0).push(x));
        } else {
            hold.push(x);
            assert(train@ + hold@ =~= (t0 + h0).push(x));
        }
    }
    assert(order@.take(n as int) =~= order@);
    assert((train@ + hold@).len() == n);
    assert(positions(train@) + positions(hold@) =~= positions(train@ + hold@));
    assert(positions(order@) =~= world_order(world_views(worlds@)));
    (train, hold)
}

/// The tasks that are named, in ascending order.
pub open spec fn task_names(ws: Seq<WorldView>) -> Seq<Seq<char>> {
    distinct(
        Seq::new(ws.len(), |i: int| ws[i].task).filter(|t: Seq<char>| t.len() > 0),
    )
}

/// The task that is held out: the last by name, if there are at least two.
pub open spec fn held_task(ws: Seq<WorldView>) -> Option<Seq<char>> {
    let ts = task_names(ws);
    if ts.len() < 2 {
        None
    } else {
        Some(ts.last())
    }
}

fn find_held_task(worlds: &Vec<World>) -> (r: Option<String>)
    ensures
        match r {
            Some(t) => held_task(world_views(worlds@)) == Some(t@),
            None => held_task(world_views(worlds@)) is None,
        },
{
    let ghost keep = |t: Seq<char>| t.len() > 0;
    let ghost all = Seq::new(
        world_views(worlds@).len(),
        |i: int| world_views(worlds@)[i].task,
    );
    let mut tasks = crate::text::no_strings();
    proof {
        reveal(Seq::filter);
    }
    assert(all.take(0).filter(keep) =~= Seq::<Seq<char>>::empty());
    for i in 0..worlds.len()
        invariant
            all == Seq::new(
                world_views(worlds@).len(),
                |i: int| world_views(worlds@)[i].task,
            ),
            keep == (|t: Seq<char>| t.len() > 0),
            strs(tasks@) == all.take(i as int).filter(keep),
    {
        proof {
            assert(all.take(i + 1) =~= all.take(i as int).push(all[i as int]));
            all.take(i as int).lemma_filter_push(all[i as int], keep);
        }
        assert(all[i as int] == worlds@[i as int].task@);
        if !is_blank(worlds[i].task.as_str()) {
            crate::izakaya::board::add_line(&mut tasks, copy(worlds[i].task.as_str()));
        }
    }
    assert(all.take(all.len() as int) =~= all);
    let names = sort_distinct(&tasks);
    assert(strs(names@).len() == names@.len());
    if names.len() < 2 {
        None
    } else {
        let last: usize = names.len() - 1;
        assert(strs(names@).last() == names@[last as int]@);
        Some(copy(names[last].as_str()))
    }
}

/// The positions of the worlds with the task that is held out.
pub open spec fn held_positions(ws: Seq<WorldView>, n: nat) -> Seq<int>
    decreases n,
{
    if n == 0 {
        Seq::empty()
    } else {
        let rest = held_positions(ws, (n - 1) as nat);
        if held_task(ws) == Some(ws[n - 1].task) {
            rest.push(n - 1)
        } else {
            rest
        }
    }
}

pub fn task_holdout(worlds: &Vec<World>) -> (r: Vec<usize>)
    ensures
        positions(r@) == held_positions(world_views(worlds@), worlds@.len()),
        forall|i: int| 0 <= i < r@.len() ==> #[trigger] r@[i] < worlds@.len(),
{
    let mut out: Vec<usize> = Vec::new();
    let held = find_held_task(worlds);
    assert(positions(out@) =~= Seq::<int>::empty());
    for i in 0..worlds.len()
        invariant
            match held {
                Some(t) => held_task(world_views(worlds@)) == Some(t@),
                None => held_task(world_views(worlds@)) is None,
            },
            positions(out@) == held_positions(world_views(worlds@), i as nat),
            forall|k: int| 0 <= k < out@.len() ==> #[trigger] out@[k] < worlds@.len(),
    {
        assert(world_views(worlds@)[i as int] == worlds@[i as int]@);
        let fits: bool = match &held {
            Some(t) => same(t.as_str(), worlds[i].task.as_str()),
            None => false,
        };
        if fits {
            let ghost before = out@;
            out.push(i);
            assert(positions(out@) =~= positions(before).push(i as int));
        }
    }
    out
}

/// How a candidate did at a gate, against the incumbent: whether either has a
/// value, and whether the candidate's is worse.
#[derive(Clone, Copy)]
pub struct GateFact {
    pub candidate: bool,
    pub incumbent: bool,
    pub worse: bool,
}

/// A gate fails where the incumbent has a value and the candidate none, or a
/// worse one.
pub open spec fn gate_fails(f: GateFact) -> bool {
    f.incumbent && (!f.candidate || f.worse)
}

pub fn gates_ok(facts: &Vec<GateFact>) -> (r: bool)
    ensures
        r == !(exists|i: int| 0 <= i < facts@.len() && gate_fails(#[trigger] facts@[i])),
{
    for i in 0..facts.len()
        invariant
            forall|k: int| 0 <= k < i ==> !gate_fails(#[trigger] facts@[k]),
    {
        let f = facts[i];
        if f.incumbent && (!f.candidate || f.worse) {
            return false;
        }
    }
    true
}

/// Whether at least seven tenths of what was asked for is in support. Nothing
/// asked for counts as full support.
pub open spec fn supported(in_support: nat, total: nat) -> bool {
    10 * in_support >= 7 * total
}

/// Whether a policy may be promoted: there is a holdout, it is supported well
/// enough and entirely, and no gate fails.
pub open spec fn promotable(
    holdout: nat,
    held: PlayedView,
    hold_gates: bool,
    task_gates: bool,
) -> bool {
    &&& holdout > 0
    &&& supported(held.in_support, held.in_support + held.out_of_support)
    &&& hold_gates
    &&& task_gates
    &&& held.out_of_support == 0
}

pub fn promotion_ok(holdout: usize, held: &Played, hold_gates: bool, task_gates: bool) -> (r: bool)
    ensures
        r == promotable(holdout as nat, held@, hold_gates, task_gates),
{
    let asked: u128 = held.in_support as u128 + held.out_of_support as u128;
    holdout > 0 && 10 * (held.in_support as u128) >= 7 * asked && hold_gates && task_gates
        && held.out_of_support == 0
}

// ---------------------------------------------------------------------------
// The study of a policy

/// The positions of the worlds that are held out.
pub open spec fn hold_positions(ws: Seq<WorldView>) -> Seq<int> {
    world_order(ws).skip(ws.len() - held_out(ws.len()))
}

pub open spec fn replay_all(ws: Seq<WorldView>, s: SpecView, g: Seq<Grade>, os: Seq<OutcomeView>) -> AggView {
    replayed(ws, s, g, os, ws.len())
}

/// A candidate and the incumbent on all worlds, on those held out by time, and
/// on those held out by task.
pub struct Study {
    pub worlds: Vec<World>,
    pub train: usize,
    pub holdout: usize,
    pub task_holdout: usize,
    pub full_candidate: Agg,
    pub full_incumbent: Agg,
    pub hold_candidate: Agg,
    pub hold_incumbent: Agg,
    pub task_candidate: Agg,
    pub task_incumbent: Agg,
}

/// The values of a [`Study`].
pub struct StudyView {
    pub worlds: Seq<WorldView>,
    pub train: nat,
    pub holdout: nat,
    pub task_holdout: nat,
    pub full_candidate: AggView,
    pub full_incumbent: AggView,
    pub hold_candidate: AggView,
    pub hold_incumbent: AggView,
    pub task_candidate: AggView,
    pub task_incumbent: AggView,
}

impl View for Study {
    type V = StudyView;

    open spec fn view(&self) -> StudyView {
        StudyView {
            worlds: world_views(self.worlds@),
            train: self.train as nat,
            holdout: self.holdout as nat,
            task_holdout: self.task_holdout as nat,
            full_candidate: self.full_candidate@,
            full_incumbent: self.full_incumbent@,
            hold_candidate: self.hold_candidate@,
            hold_incumbent: self.hold_incumbent@,
            task_candidate: self.task_candidate@,
            task_incumbent: self.task_incumbent@,
        }
    }
}

pub open spec fn studied(
    events: Seq<EventView>,
    p: ProjectionView,
    s: SpecView,
    g: Seq<Grade>,
    inc: SpecView,
    ig: Seq<Grade>,
) -> StudyView {
    let ws = worlds_of(events, p);
    let os = events.filter_map(outcome_of());
    let hold = at_positions(ws, hold_positions(ws));
    let task = at_positions(ws, held_positions(ws, ws.len()));
    StudyView {
        worlds: ws,
        train: (ws.len() - held_out(ws.len())) as nat,
        holdout: held_out(ws.len()),
        task_holdout: task.len(),
        full_candidate: replay_all(ws, s, g, os),
        full_incumbent: replay_all(ws, inc, ig, os),
        hold_candidate: replay_all(hold, s, g, os),
        hold_incumbent: replay_all(hold, inc, ig, os),
        task_candidate: replay_all(task, s, g, os),
        task_incumbent: replay_all(task, inc, ig, os),
    }
}

fn all_positions(worlds: &Vec<World>) -> (r: Vec<usize>)
    ensures
        at_positions(world_views(worlds@), positions(r@)) == world_views(worlds@),
        r@.len() == worlds@.len(),
        forall|i: int| 0 <= i < r@.len() ==> #[trigger] r@[i] < worlds@.len(),
{
    let mut out: Vec<usize> = Vec::new();
    for i in 0..worlds.len()
        invariant
            out@.len() == i,
            forall|k: int| 0 <= k < i ==> #[trigger] out@[k] == k,
    {
        out.push(i);
    }
    assert(at_positions(world_views(worlds@), positions(out@)) =~= world_views(worlds@));
    out
}

/// The computing part of an evaluation: what a journal says of a policy.
pub fn study(
    events: &Vec<Event>,
    proj: &Projection,
    s: &Spec,
    grades: &Vec<Grade>,
    incumbent: &Spec,
    incumbent_grades: &Vec<Grade>,
) -> (r: Study)
    requires
        proj.wf(),
        grades@.len() == 8,
        incumbent_grades@.len() == 8,
    ensures
        r@ == studied(
            event_views(events@),
            proj@,
            s@,
            grades@,
            incumbent@,
            incumbent_grades@,
        ),
        r.hold_candidate.played.in_support + r.hold_candidate.played.out_of_support
            == r.hold_candidate.played.trace@.len(),
{
    let worlds = compile_worlds(events, proj);
    let outcomes = compile_outcomes(events);
    let ghost ws = world_views(worlds@);
    assert(ws.len() == worlds@.len());
    let (train, hold) = split_holdout(&worlds);
    assert(positions(hold@) =~= hold_positions(ws)) by {
        let all = positions(train@) + positions(hold@);
        assert(all.skip(train@.len() as int) =~= positions(hold@));
    }
    let task = task_holdout(&worlds);
    let all = all_positions(&worlds);
    let full_candidate = replay_set(&worlds, &all, s, grades, &outcomes);
    let full_incumbent = replay_set(&worlds, &all, incumbent, incumbent_grades, &outcomes);
    let hold_candidate = replay_set(&worlds, &hold, s, grades, &outcomes);
    let hold_incumbent = replay_set(&worlds, &hold, incumbent, incumbent_grades, &outcomes);
    let task_candidate = replay_set(&worlds, &task, s, grades, &outcomes);
    let task_incumbent = replay_set(&worlds, &task, incumbent, incumbent_grades, &outcomes);
    assert(positions(hold@).len() == hold@.len());
    assert(positions(task@).len() == task@.len());
    Study {
        train: train.len(),
        holdout: hold.len(),
        task_holdout: task.len(),
        worlds,
        full_candidate,
        full_incumbent,
        hold_candidate,
        hold_incumbent,
        task_candidate,
        task_incumbent,
    }
}

/// The numbers of a report that are fractions, as JSON has them: the shares in
/// support and the axes. The share of the whole is also given with three
/// decimals.
pub struct Figures {
    pub support: Datum,
    pub support_text: String,
    pub holdout_support: Datum,
    pub candidate: Datum,
    pub incumbent: Datum,
}

/// The values of a [`Figures`].
pub struct FiguresView {
    pub support: Json,
    pub support_text: Seq<char>,
    pub holdout_support: Json,
    pub candidate: Json,
    pub incumbent: Json,
}

impl View for Figures {
    type V = FiguresView;

    open spec fn view(&self) -> FiguresView {
        FiguresView {
            support: self.support@,
            support_text: self.support_text@,
            holdout_support: self.holdout_support@,
            candidate: self.candidate@,
            incumbent: self.incumbent@,
        }
    }
}

/// The name of a report: the hash of the candidate's trace.
pub open spec fn report_name(st: StudyView) -> Seq<char> {
    hex_of(text_hash(json_compact(json_strs(st.full_candidate.played.trace))) as nat, 16)
}

pub open spec fn yes_no(b: bool) -> Seq<char> {
    if b {
        "true"@
    } else {
        "false"@
    }
}

pub open spec fn report_text(
    s: SpecView,
    profile: ProfileView,
    st: StudyView,
    fig: FiguresView,
    ok: bool,
) -> Seq<char> {
    "izakaya_replay - policy "@ + s.id + " profile "@ + profile.id
        + "\nmode: historical_supported_replay\nbeta_sweep: false\nsupport: "@ + fig.support_text
        + "\nholdout_worlds: "@ + dec(st.holdout) + "\npromotion_ok: "@ + yes_no(ok)
        + "\nout_of_support: "@ + dec(st.full_candidate.played.out_of_support)
        + "\ncensored_episodes: "@ + dec(st.full_candidate.censored_ids.len())
        + "\nreport_hash: "@ + report_name(st) + "\nincumbent_trace: "@ + joined(
        st.full_incumbent.played.trace,
        " > "@,
    ) + "\ncandidate_trace: "@ + joined(st.full_candidate.played.trace, " > "@) + "\n"@
}

/// The fingerprints of the decisions among the first `n`; later ones count.
pub open spec fn prints_upto(
    m: Seq<(Seq<char>, Json)>,
    ds: Seq<DecisionView>,
    n: nat,
) -> Seq<(Seq<char>, Json)>
    decreases n,
{
    if n == 0 {
        m
    } else {
        put_each(
            prints_upto(m, ds, (n - 1) as nat),
            ds[n - 1].fingerprints,
            ds[n - 1].fingerprints.len(),
        )
    }
}

pub open spec fn put_each(
    m: Seq<(Seq<char>, Json)>,
    more: Seq<(Seq<char>, Json)>,
    n: nat,
) -> Seq<(Seq<char>, Json)>
    decreases n,
{
    if n == 0 {
        m
    } else {
        put(put_each(m, more, (n - 1) as nat), more[n - 1].0, more[n - 1].1)
    }
}

pub open spec fn all_prints(ws: Seq<WorldView>, n: nat) -> Seq<(Seq<char>, Json)>
    decreases n,
{
    if n == 0 {
        Seq::empty()
    } else {
        prints_upto(
            all_prints(ws, (n - 1) as nat),
            ws[n - 1].decisions,
            ws[n - 1].decisions.len(),
        )
    }
}

fn gather_prints(ws: &Vec<World>) -> (r: StrMap<Datum>)
    ensures
        r.wf(),
        r@ == all_prints(world_views(ws@), ws@.len()),
{
    let mut m: StrMap<Datum> = StrMap::new();
    for i in 0..ws.len()
        invariant
            m.wf(),
            m@ == all_prints(world_views(ws@), i as nat),
    {
        let w = &ws[i];
        assert(world_views(ws@)[i as int] == w@);
        let ghost base = m@;
        for k in 0..w.decisions.len()
            invariant
                m.wf(),
                m@ == prints_upto(base, w@.decisions, k as nat),
        {
            let d = &w.decisions[k];
            assert(w@.decisions[k as int] == d@);
            let ghost mid = m@;
            for f in 0..d.fingerprints.len()
                invariant
                    m.wf(),
                    m@ == put_each(mid, d@.fingerprints, f as nat),
            {
                assert(d@.fingerprints[f as int] == (
                    d.fingerprints@[f as int].0@,
                    d.fingerprints@[f as int].1@,
                ));
                m.insert(d.fingerprints[f].0.as_str(), d.fingerprints[f].1.copy());
            }
        }
    }
    m
}

/// How many agents took part, counted once for each episode.
pub open spec fn agents_seen(ws: Seq<WorldView>, n: nat) -> nat
    decreases n,
{
    if n == 0 {
        0
    } else {
        agents_seen(ws, (n - 1) as nat) + ws[n - 1].agent_ids.len()
    }
}

proof fn lemma_agents_seen(ws: Seq<WorldView>, k: nat, n: nat)
    requires
        k <= n,
    ensures
        agents_seen(ws, k) <= agents_seen(ws, n),
    decreases n,
{
    if k < n {
        lemma_agents_seen(ws, k, (n - 1) as nat);
    }
}

fn count_agents(ws: &Vec<World>) -> (r: u64)
    requires
        agents_seen(world_views(ws@), ws@.len()) <= u64::MAX,
    ensures
        r == agents_seen(world_views(ws@), ws@.len()),
{
    let mut n: u64 = 0;
    for i in 0..ws.len()
        invariant
            n == agents_seen(world_views(ws@), i as nat),
            agents_seen(world_views(ws@), ws@.len()) <= u64::MAX,
    {
        assert(world_views(ws@)[i as int] == ws@[i as int]@);
        proof {
            lemma_agents_seen(world_views(ws@), (i + 1) as nat, ws@.len());
        }
        n = n + ws[i].agent_ids.len() as u64;
    }
    n
}

pub open spec fn objective_json(o: ObjectiveView) -> Json {
    record(
        seq![
            ("direction"@, Json::Str(o.direction)),
            ("metric"@, Json::Str(o.metric)),
            ("weight"@, o.weight),
        ],
    )
}

pub open spec fn objectives_json(os: Seq<ObjectiveView>) -> Json {
    Json::Array(os.map_values(|o: ObjectiveView| objective_json(o)))
}

fn objectives_value(os: &Vec<Objective>) -> (r: Datum)
    ensures
        r@ == objectives_json(objective_views(os@)),
{
    let mut out: Vec<Datum> = Vec::new();
    for i in 0..os.len()
        invariant
            out@.len() == i,
            forall|k: int| 0 <= k < i ==> (#[trigger] out@[k])@ == objective_json(os@[k]@),
    {
        let mut ms = no_members();
        add_member(&mut ms, "direction", str_value(os[i].direction.as_str()));
        add_member(&mut ms, "metric", str_value(os[i].metric.as_str()));
        add_member(&mut ms, "weight", os[i].weight.copy());
        assert(members(ms@) =~= seq![
            ("direction"@, Json::Str(os@[i as int].direction@)),
            ("metric"@, Json::Str(os@[i as int].metric@)),
            ("weight"@, os@[i as int].weight@),
        ]);
        out.push(build(ms));
    }
    assert(views(out@) =~= objective_views(os@).map_values(
        |o: ObjectiveView| objective_json(o),
    ));
    array(out)
}

pub open spec fn pareto_json(fig: FiguresView) -> Json {
    record(
        seq![
            ("candidate"@, fig.candidate),
            ("incumbent"@, fig.incumbent),
            ("note"@, Json::Str("no single winner; compare axes"@)),
            ("winner"@, Json::Null),
        ],
    )
}

pub open spec fn revealed_actions(p: PlayedView) -> Seq<Seq<char>> {
    p.revealed.map_values(|o: OutcomeView| o.action)
}

fn list_revealed(p: &Played) -> (r: Vec<String>)
    ensures
        strs(r@) == revealed_actions(p@),
{
    let mut out: Vec<String> = Vec::new();
    for i in 0..p.revealed.len()
        invariant
            out@.len() == i,
            forall|k: int| 0 <= k < i ==> (#[trigger] out@[k])@ == p.revealed@[k]@.action,
    {
        out.push(copy(p.revealed[i].action.as_str()));
    }
    assert(strs(out@) =~= revealed_actions(p@));
    out
}

/// The report on a policy.
pub open spec fn report_members(
    s: SpecView,
    profile: ProfileView,
    st: StudyView,
    fig: FiguresView,
    hold_gates: bool,
    task_gates: bool,
    version: Seq<char>,
) -> Seq<(Seq<char>, Json)> {
    let cand = st.full_candidate.played;
    let ok = promotable(st.holdout, st.hold_candidate.played, hold_gates, task_gates);
    seq![
        ("agents_seen"@, Json::UInt(agents_seen(st.worlds, st.worlds.len()) as u64)),
        ("beta"@, s.beta),
        ("beta_sweep"@, Json::Bool(false)),
        ("censored_episodes"@, json_strs(st.full_candidate.censored_ids)),
        ("fingerprints"@, Json::Object(all_prints(st.worlds, st.worlds.len()))),
        ("gates_ok"@, Json::Bool(hold_gates && task_gates)),
        ("holdout_support"@, fig.holdout_support),
        ("holdout_worlds"@, Json::UInt(st.holdout as u64)),
        ("mode"@, Json::Str("historical_supported_replay"@)),
        ("objectives"@, objectives_json(profile.objectives)),
        ("out_of_support"@, Json::UInt(cand.out_of_support as u64)),
        ("pareto"@, pareto_json(fig)),
        ("policy_id"@, Json::Str(s.id)),
        ("profile"@, Json::Str(profile.id)),
        ("promotion_ok"@, Json::Bool(ok)),
        ("report_hash"@, Json::Str(report_name(st))),
        ("revealed_actions"@, json_strs(revealed_actions(cand))),
        ("support"@, fig.support),
        ("task_holdout_worlds"@, Json::UInt(st.task_holdout as u64)),
        ("text"@, Json::Str(report_text(s, profile, st, fig, ok))),
        ("traces"@, json_strs(cand.trace)),
        ("train_worlds"@, Json::UInt(st.train as u64)),
        ("wordkeep"@, Json::Str(version)),
    ]
}

fn write_report(
    s: &Spec,
    profile: &Profile,
    st: &Study,
    fig: &Figures,
    ok: bool,
    hash: &str,
) -> (r: String)
    requires
        hash@ == report_name(st@),
    ensures
        r@ == report_text(s@, profile@, st@, fig@, ok),
{
    let mut t = copy("izakaya_replay - policy ");
    t.append(s.id.as_str());
    t.append(" profile ");
    t.append(profile.id.as_str());
    t.append("\nmode: historical_supported_replay\nbeta_sweep: false\nsupport: ");
    t.append(fig.support_text.as_str());
    t.append("\nholdout_worlds: ");
    t.append(decimal(st.holdout as u64).as_str());
    t.append("\npromotion_ok: ");
    t.append(
        if ok {
            "true"
        } else {
            "false"
        },
    );
    t.append("\nout_of_support: ");
    t.append(decimal(st.full_candidate.played.out_of_support).as_str());
    t.append("\ncensored_episodes: ");
    t.append(decimal(st.full_candidate.censored_ids.len() as u64).as_str());
    t.append("\nreport_hash: ");
    t.append(hash);
    t.append("\nincumbent_trace: ");
    t.append(join(&st.full_incumbent.played.trace, " > ").as_str());
    t.append("\ncandidate_trace: ");
    t.append(join(&st.full_candidate.played.trace, " > ").as_str());
    t.append("\n");
    t
}

/// The report on a policy, from its study, the fractions and the gates.
pub fn report(
    s: &Spec,
    profile: &Profile,
    st: &Study,
    fig: &Figures,
    hold_gates: bool,
    task_gates: bool,
    version: &str,
) -> (r: Datum)
    requires
        agents_seen(st@.worlds, st@.worlds.len()) <= u64::MAX,
    ensures
        r@ == record(
            report_members(s@, profile@, st@, fig@, hold_gates, task_gates, version@),
        ),
{
    let ok: bool = promotion_ok(st.holdout, &st.hold_candidate.played, hold_gates, task_gates);
    let key = compact(&strs_value(&st.full_candidate.played.trace));
    proof {
        crate::json::lemma_strs_plain(st@.full_candidate.played.trace);
    }
    let hash = hash_id(key.as_str());
    let text = write_report(s, profile, st, fig, ok, hash.as_str());
    let prints = gather_prints(&st.worlds);
    assert(members(prints.entries@) =~= prints@);
    assert(st@.worlds.len() == st.worlds@.len());
    let mut axes = no_members();
    add_member(&mut axes, "candidate", fig.candidate.copy());
    add_member(&mut axes, "incumbent", fig.incumbent.copy());
    add_member(&mut axes, "note", str_value("no single winner; compare axes"));
    add_member(&mut axes, "winner", Datum::Null);
    assert(members(axes@) =~= seq![
        ("candidate"@, fig@.candidate),
        ("incumbent"@, fig@.incumbent),
        ("note"@, Json::Str("no single winner; compare axes"@)),
        ("winner"@, Json::Null),
    ]);
    let cand = &st.full_candidate.played;
    let mut ms = no_members();
    add_member(&mut ms, "agents_seen", Datum::UInt(count_agents(&st.worlds)));
    add_member(&mut ms, "beta", s.beta.copy());
    add_member(&mut ms, "beta_sweep", Datum::Bool(false));
    add_member(&mut ms, "censored_episodes", strs_value(&st.full_candidate.censored_ids));
    add_member(&mut ms, "fingerprints", object(prints.entries));
    add_member(&mut ms, "gates_ok", Datum::Bool(hold_gates && task_gates));
    add_member(&mut ms, "holdout_support", fig.holdout_support.copy());
    add_member(&mut ms, "holdout_worlds", Datum::UInt(st.holdout as u64));
    add_member(&mut ms, "mode", str_value("historical_supported_replay"));
    add_member(&mut ms, "objectives", objectives_value(&profile.objectives));
    add_member(&mut ms, "out_of_support", Datum::UInt(cand.out_of_support));
    add_member(&mut ms, "pareto", build(axes));
    let ghost half = members(ms@);
    let ghost want = report_members(s@, profile@, st@, fig@, hold_gates, task_gates, version@);
    assert(half =~= want.take(12));
    add_member(&mut ms, "policy_id", str_value(s.id.as_str()));
    add_member(&mut ms, "profile", str_value(profile.id.as_str()));
    add_member(&mut ms, "promotion_ok", Datum::Bool(ok));
    add_member(&mut ms, "report_hash", Datum::Str(hash));
    add_member(&mut ms, "revealed_actions", strs_value(&list_revealed(cand)));
    add_member(&mut ms, "support", fig.support.copy());
    add_member(&mut ms, "task_holdout_worlds", Datum::UInt(st.task_holdout as u64));
    add_member(&mut ms, "text", Datum::Str(text));
    add_member(&mut ms, "traces", strs_value(&cand.trace));
    add_member(&mut ms, "train_worlds", Datum::UInt(st.train as u64));
    add_member(&mut ms, "wordkeep", str_value(version));
    assert(members(ms@) =~= want);
    build(ms)
}

// ---------------------------------------------------------------------------
// Laws

/// Whether an outcome belongs to an action that was selected at one of the
/// decisions, and is not censored.
pub open spec fn earned(o: OutcomeView, ds: Seq<DecisionView>) -> bool {
    !o.censored && exists|k: int|
        0 <= k < ds.len() && (#[trigger] ds[k]).id == o.decision && among(
            ds[k].selected,
            o.action,
        )
}

proof fn lemma_outcome_for(os: Seq<OutcomeView>, d: Seq<char>, a: Seq<char>, n: nat)
    ensures
        outcome_for(os, d, a, n) matches Some(o) ==> o.decision == d && o.action == a,
    decreases n,
{
    if n > 0 {
        lemma_outcome_for(os, d, a, (n - 1) as nat);
    }
}

proof fn lemma_batch_earned(
    p: PlayedView,
    ds: Seq<DecisionView>,
    k: int,
    batch: Seq<ActionView>,
    os: Seq<OutcomeView>,
    n: nat,
)
    requires
        0 <= k < ds.len(),
        forall|i: int| 0 <= i < p.revealed.len() ==> earned(#[trigger] p.revealed[i], ds),
        p.in_support + p.out_of_support == p.trace.len(),
    ensures
        ({
            let q = play_batch(p, ds[k], batch, os, n);
            &&& forall|i: int| 0 <= i < q.revealed.len() ==> earned(#[trigger] q.revealed[i], ds)
            &&& q.in_support + q.out_of_support == q.trace.len()
        }),
    decreases n,
{
    if n > 0 {
        lemma_batch_earned(p, ds, k, batch, os, (n - 1) as nat);
        let q0 = play_batch(p, ds[k], batch, os, (n - 1) as nat);
        let q = play_batch(p, ds[k], batch, os, n);
        lemma_outcome_for(os, ds[k].id, batch[n - 1].id, os.len());
        assert forall|i: int| 0 <= i < q.revealed.len() implies earned(
            #[trigger] q.revealed[i],
            ds,
        ) by {
            if i < q0.revealed.len() {
                assert(q.revealed[i] == q0.revealed[i]);
            } else {
                assert(ds[k].id == q.revealed[i].decision);
            }
        }
    }
}

proof fn lemma_rounds_earned(
    ds: Seq<DecisionView>,
    s: SpecView,
    g: Seq<Grade>,
    os: Seq<OutcomeView>,
    n: nat,
)
    requires
        n <= ds.len(),
    ensures
        ({
            let q = play_rounds(nothing_played(), ds, s, g, os, n);
            &&& forall|i: int| 0 <= i < q.revealed.len() ==> earned(#[trigger] q.revealed[i], ds)
            &&& q.in_support + q.out_of_support == q.trace.len()
        }),
    decreases n,
{
    if n > 0 {
        lemma_rounds_earned(ds, s, g, os, (n - 1) as nat);
        let b = batch_of(ds[n - 1], s, g);
        lemma_batch_earned(
            play_rounds(nothing_played(), ds, s, g, os, (n - 1) as nat),
            ds,
            n - 1,
            b,
            os,
            b.len(),
        );
    }
}

proof fn lemma_rounds_bound(ds: Seq<DecisionView>, s: SpecView, g: Seq<Grade>, i: nat)
    requires
        i <= ds.len(),
    ensures
        i <= rounds(ds, s, g, i) <= ds.len(),
    decreases ds.len() - i,
{
    if !(i >= ds.len() || i >= s.max_rounds || batch_of(ds[i as int], s, g).len() == 0) {
        lemma_rounds_bound(ds, s, g, i + 1);
    }
}

/// A replay reveals only outcomes of actions that were selected and are not
/// censored, whatever the policy asks for; and each action that it takes is
/// counted once, in support or out of it.
pub proof fn law_replay_reveals_only_selected(
    w: WorldView,
    s: SpecView,
    g: Seq<Grade>,
    os: Seq<OutcomeView>,
)
    ensures
        ({
            let q = play_world(nothing_played(), w, s, g, os);
            &&& forall|i: int|
                0 <= i < q.revealed.len() ==> earned(#[trigger] q.revealed[i], w.decisions)
            &&& q.in_support + q.out_of_support == q.trace.len()
        }),
{
    lemma_rounds_bound(w.decisions, s, g, 0);
    lemma_rounds_earned(w.decisions, s, g, os, rounds(w.decisions, s, g, 0));
}

proof fn lemma_recorded_supported(
    p: PlayedView,
    d: DecisionView,
    os: Seq<OutcomeView>,
    batch: Seq<ActionView>,
    n: nat,
)
    requires
        n <= batch.len(),
        forall|i: int| 0 <= i < batch.len() ==> among(d.selected, (#[trigger] batch[i]).id),
    ensures
        play_batch(p, d, batch, os, n).out_of_support == p.out_of_support,
    decreases n,
{
    if n > 0 {
        lemma_recorded_supported(p, d, os, batch, (n - 1) as nat);
        assert(among(d.selected, batch[n - 1].id));
    }
}

proof fn lemma_recorded_rounds(
    p: PlayedView,
    ds: Seq<DecisionView>,
    s: SpecView,
    g: Seq<Grade>,
    os: Seq<OutcomeView>,
    n: nat,
)
    requires
        n <= ds.len(),
        s.selection == "recorded"@,
    ensures
        play_rounds(p, ds, s, g, os, n).out_of_support == p.out_of_support,
    decreases n,
{
    if n > 0 {
        lemma_recorded_rounds(p, ds, s, g, os, (n - 1) as nat);
        let d = ds[n - 1];
        let b = batch_of(d, s, g);
        let keep = is_selected(d.selected);
        assert forall|i: int| 0 <= i < b.len() implies among(
            d.selected,
            (#[trigger] b[i]).id,
        ) by {
            d.legal.lemma_filter_pred(keep, i);
            assert(keep(b[i]));
        }
        lemma_recorded_supported(
            play_rounds(p, ds, s, g, os, (n - 1) as nat),
            d,
            os,
            b,
            b.len(),
        );
    }
}

/// A policy that repeats what was recorded never leaves the recorded support.
pub proof fn law_recorded_stays_in_support(
    w: WorldView,
    s: SpecView,
    g: Seq<Grade>,
    os: Seq<OutcomeView>,
)
    requires
        s.selection == "recorded"@,
    ensures
        play_world(nothing_played(), w, s, g, os).out_of_support == 0,
{
    lemma_rounds_bound(w.decisions, s, g, 0);
    lemma_recorded_rounds(
        nothing_played(),
        w.decisions,
        s,
        g,
        os,
        rounds(w.decisions, s, g, 0),
    );
}

/// A batch is no larger than the policy allows, its actions are eligible, and
/// any two of them are independent.
pub proof fn law_batch_is_independent(acts: Seq<ActionView>, g: Seq<Grade>, max: nat, n: nat)
    ensures
        ({
            let b = batch_upto(acts, g, max, n);
            &&& b.len() <= max
            &&& forall|i: int| 0 <= i < b.len() ==> grade_of(g, #[trigger] b[i]).eligible
            &&& forall|i: int, j: int|
                0 <= i < j < b.len() ==> apart(#[trigger] b[i], #[trigger] b[j])
        }),
    decreases n,
{
    if n > 0 {
        law_batch_is_independent(acts, g, max, (n - 1) as nat);
        let rest = batch_upto(acts, g, max, (n - 1) as nat);
        let b = batch_upto(acts, g, max, n);
        assert forall|i: int, j: int| 0 <= i < j < b.len() implies apart(
            #[trigger] b[i],
            #[trigger] b[j],
        ) by {
            if j < rest.len() {
                assert(b[i] == rest[i] && b[j] == rest[j]);
            } else {
                assert(apart(rest[i], b[j]));
            }
        }
    }
}

/// An episode that is still open adds nothing to a replay but its name.
pub proof fn law_open_episodes_are_censored(
    ws: Seq<WorldView>,
    s: SpecView,
    g: Seq<Grade>,
    os: Seq<OutcomeView>,
    n: nat,
)
    requires
        n < ws.len(),
        ws[n as int].censored,
    ensures
        replayed(ws, s, g, os, n + 1).played == replayed(ws, s, g, os, n).played,
        replayed(ws, s, g, os, n + 1).censored_ids == replayed(ws, s, g, os, n).censored_ids.push(
            ws[n as int].episode_id,
        ),
{
}

/// With at least two worlds, some are held out and some are not.
pub proof fn law_holdout_is_proper(n: nat)
    requires
        n >= 2,
    ensures
        1 <= held_out(n) < n,
{
}

/// A policy that left the support of the holdout is not promoted, nor is one
/// without a holdout.
pub proof fn law_promotion_needs_support(h: nat, held: PlayedView, a: bool, b: bool)
    ensures
        held.out_of_support > 0 ==> !promotable(h, held, a, b),
        h == 0 ==> !promotable(h, held, a, b),
        held.out_of_support == 0 && h > 0 ==> promotable(h, held, a, b) == (a && b),
{
}

} // verus!

//! The tools by which agents coordinate, as a server offers them.
use vstd::prelude::*;
use crate::json::{add_member, array, build, members, no_members, record, str_value, views, Datum, Json};
use crate::mcp::{tool_views, Tool, ToolView};
use crate::text::copy;

verus! {

/// The shapes that arguments have.
#[derive(Clone, Copy, PartialEq, Eq, Structural)]
pub enum Shape {
    Text,
    Whole,
    Flag,
    Format,
    TextList,
    WholeList,
    Open,
    BoardState,
    Policy,
    Claims,
    Actions,
}

pub open spec fn typed(t: Seq<char>) -> Json {
    record(seq![("type"@, Json::Str(t))])
}

fn make_typed(t: &str) -> (r: Datum)
    ensures
        r@ == typed(t@),
{
    let mut ms = no_members();
    add_member(&mut ms, "type", str_value(t));
    assert(members(ms@) =~= seq![("type"@, Json::Str(t@))]);
    build(ms)
}

pub open spec fn described(t: Seq<char>, d: Seq<char>) -> Json {
    record(seq![("type"@, Json::Str(t)), ("description"@, Json::Str(d))])
}

pub open spec fn list_of(item: Json) -> Json {
    record(seq![("type"@, Json::Str("array"@)), ("items"@, item)])
}

fn make_list(item: Datum) -> (r: Datum)
    ensures
        r@ == list_of(item@),
{
    let mut ms = no_members();
    let ghost j = item@;
    add_member(&mut ms, "type", str_value("array"));
    add_member(&mut ms, "items", item);
    assert(members(ms@) =~= seq![("type"@, Json::Str("array"@)), ("items"@, j)]);
    build(ms)
}

/// An object that may have other members too.
pub open spec fn open_object(properties: Json) -> Json {
    record(
        seq![
            ("type"@, Json::Str("object"@)),
            ("properties"@, properties),
            ("additionalProperties"@, Json::Bool(true)),
        ],
    )
}

fn make_open_object(properties: Datum) -> (r: Datum)
    ensures
        r@ == open_object(properties@),
{
    let ghost p = properties@;
    let mut ms = no_members();
    add_member(&mut ms, "type", str_value("object"));
    add_member(&mut ms, "properties", properties);
    add_member(&mut ms, "additionalProperties", Datum::Bool(true));
    assert(members(ms@) =~= seq![
        ("type"@, Json::Str("object"@)),
        ("properties"@, p),
        ("additionalProperties"@, Json::Bool(true)),
    ]);
    build(ms)
}

pub open spec fn claim_properties() -> Json {
    record(
        seq![
            ("path"@, typed("string"@)),
            ("symbols"@, list_of(typed("string"@))),
            ("intent"@, typed("string"@)),
        ],
    )
}

fn make_claim_properties() -> (r: Datum)
    ensures
        r@ == claim_properties(),
{
    let mut ms = no_members();
    add_member(&mut ms, "path", make_typed("string"));
    add_member(&mut ms, "symbols", make_list(make_typed("string")));
    add_member(&mut ms, "intent", make_typed("string"));
    assert(members(ms@) =~= seq![
        ("path"@, typed("string"@)),
        ("symbols"@, list_of(typed("string"@))),
        ("intent"@, typed("string"@)),
    ]);
    build(ms)
}

pub open spec fn action_properties() -> Json {
    record(
        seq![
            ("id"@, typed("string"@)),
            ("kind"@, typed("string"@)),
            ("overlapping"@, typed("boolean"@)),
        ],
    )
}

fn make_action_properties() -> (r: Datum)
    ensures
        r@ == action_properties(),
{
    let mut ms = no_members();
    add_member(&mut ms, "id", make_typed("string"));
    add_member(&mut ms, "kind", make_typed("string"));
    add_member(&mut ms, "overlapping", make_typed("boolean"));
    assert(members(ms@) =~= seq![
        ("id"@, typed("string"@)),
        ("kind"@, typed("string"@)),
        ("overlapping"@, typed("boolean"@)),
    ]);
    build(ms)
}

/// The schema of a shape.
pub open spec fn shape_json(s: Shape) -> Json {
    match s {
        Shape::Text => typed("string"@),
        Shape::Whole => typed("integer"@),
        Shape::Flag => typed("boolean"@),
        Shape::Format => record(
            seq![
                ("type"@, Json::Str("string"@)),
                ("enum"@, Json::Array(seq![Json::Str("text"@), Json::Str("json"@)])),
            ],
        ),
        Shape::TextList => list_of(typed("string"@)),
        Shape::WholeList => list_of(typed("integer"@)),
        Shape::Open => record(
            seq![
                ("type"@, Json::Str("object"@)),
                ("additionalProperties"@, Json::Bool(true)),
            ],
        ),
        Shape::BoardState => described(
            "string"@,
            "checked_in|live_code|suspended|checked_out|stale"@,
        ),
        Shape::Policy => record(
            seq![
                ("type"@, Json::Str("object"@)),
                ("description"@, Json::Str("Declarative spec. Omit for the incumbent."@)),
                ("additionalProperties"@, Json::Bool(true)),
            ],
        ),
        Shape::Claims => list_of(open_object(claim_properties())),
        Shape::Actions => list_of(open_object(action_properties())),
    }
}

fn make_shape(s: Shape) -> (r: Datum)
    ensures
        r@ == shape_json(s),
{
    match s {
        Shape::Text => make_typed("string"),
        Shape::Whole => make_typed("integer"),
        Shape::Flag => make_typed("boolean"),
        Shape::Format => {
            let mut items: Vec<Datum> = Vec::new();
            items.push(str_value("text"));
            items.push(str_value("json"));
            assert(views(items@) =~= seq![Json::Str("text"@), Json::Str("json"@)]);
            let mut ms = no_members();
            add_member(&mut ms, "type", str_value("string"));
            add_member(&mut ms, "enum", array(items));
            assert(members(ms@) =~= seq![
                ("type"@, Json::Str("string"@)),
                ("enum"@, Json::Array(seq![Json::Str("text"@), Json::Str("json"@)])),
            ]);
            build(ms)
        },
        Shape::TextList => make_list(make_typed("string")),
        Shape::WholeList => make_list(make_typed("integer")),
        Shape::Open => {
            let mut ms = no_members();
            add_member(&mut ms, "type", str_value("object"));
            add_member(&mut ms, "additionalProperties", Datum::Bool(true));
            assert(members(ms@) =~= seq![
                ("type"@, Json::Str("object"@)),
                ("additionalProperties"@, Json::Bool(true)),
            ]);
            build(ms)
        },
        Shape::BoardState => {
            let mut ms = no_members();
            add_member(&mut ms, "type", str_value("string"));
            add_member(
                &mut ms,
                "description",
                str_value("checked_in|live_code|suspended|checked_out|stale"),
            );
            assert(members(ms@) =~= seq![
                ("type"@, Json::Str("string"@)),
                ("description"@, Json::Str("checked_in|live_code|suspended|checked_out|stale"@)),
            ]);
            build(ms)
        },
        Shape::Policy => {
            let mut ms = no_members();
            add_member(&mut ms, "type", str_value("object"));
            add_member(
                &mut ms,
                "description",
                str_value("Declarative spec. Omit for the incumbent."),
            );
            add_member(&mut ms, "additionalProperties", Datum::Bool(true));
            assert(members(ms@) =~= seq![
                ("type"@, Json::Str("object"@)),
                ("description"@, Json::Str("Declarative spec. Omit for the incumbent."@)),
                ("additionalProperties"@, Json::Bool(true)),
            ]);
            build(ms)
        },
        Shape::Claims => make_list(make_open_object(make_claim_properties())),
        Shape::Actions => make_list(make_open_object(make_action_properties())),
    }
}

pub open spec fn arg_views(v: Seq<(&'static str, Shape)>) -> Seq<(Seq<char>, Shape)> {
    Seq::new(v.len(), |i: int| (v[i].0@, v[i].1))
}

pub open spec fn name_views(v: Seq<&'static str>) -> Seq<Seq<char>> {
    Seq::new(v.len(), |i: int| v[i]@)
}

/// The schema of a tool's arguments.
pub open spec fn schema(args: Seq<(Seq<char>, Shape)>, needed: Seq<Seq<char>>) -> Json {
    let properties = record(args.map_values(|a: (Seq<char>, Shape)| (a.0, shape_json(a.1))));
    let base = seq![("type"@, Json::Str("object"@)), ("properties"@, properties)];
    record(
        if needed.len() == 0 {
            base
        } else {
            base.push(("required"@, Json::Array(needed.map_values(|n: Seq<char>| Json::Str(n)))))
        },
    )
}

fn make_tool(
    name: &'static str,
    description: &'static str,
    args: &[(&'static str, Shape)],
    needed: &[&'static str],
) -> (r: Tool)
    ensures
        r@ == (ToolView {
            name: name@,
            description: description@,
            input_schema: schema(arg_views(args@), name_views(needed@)),
        }),
{
    let ghost av = arg_views(args@);
    let ghost nv = name_views(needed@);
    let ghost want = av.map_values(|a: (Seq<char>, Shape)| (a.0, shape_json(a.1)));
    let mut ps = no_members();
    assert(want.take(0) =~= members(ps@));
    for i in 0..args.len()
        invariant
            av == arg_views(args@),
            want == av.map_values(|a: (Seq<char>, Shape)| (a.0, shape_json(a.1))),
            members(ps@) == want.take(i as int),
    {
        let ghost before = members(ps@);
        let (key, shape): (&'static str, Shape) = args[i];
        add_member(&mut ps, key, make_shape(shape));
        assert(members(ps@) =~= before.push(want[i as int]));
        assert(want.take(i + 1) =~= want.take(i as int).push(want[i as int]));
    }
    assert(want.take(want.len() as int) =~= want);
    let mut ns: Vec<Datum> = Vec::new();
    for i in 0..needed.len()
        invariant
            nv == name_views(needed@),
            ns@.len() == i,
            forall|k: int| 0 <= k < i ==> (#[trigger] ns@[k])@ == Json::Str(nv[k]),
    {
        ns.push(str_value(needed[i]));
    }
    assert(views(ns@) =~= nv.map_values(|n: Seq<char>| Json::Str(n)));
    let properties = build(ps);
    let ghost pj = properties@;
    let mut ms = no_members();
    add_member(&mut ms, "type", str_value("object"));
    add_member(&mut ms, "properties", properties);
    assert(members(ms@) =~= seq![("type"@, Json::Str("object"@)), ("properties"@, pj)]);
    if needed.len() > 0 {
        let ghost base = members(ms@);
        let list = array(ns);
        let ghost lj = list@;
        add_member(&mut ms, "required", list);
        assert(members(ms@) =~= base.push(("required"@, lj)));
    }
    Tool { name: copy(name), description: copy(description), input_schema: build(ms) }
}

// ---------------------------------------------------------------------------
// The tools

/// The arguments of `izakaya_status`.
pub open spec fn status_args() -> Seq<(Seq<char>, Shape)> {
    seq![
        ("agent"@, Shape::Text),
        ("state"@, Shape::BoardState),
        ("path"@, Shape::Text),
        ("since_seq"@, Shape::Whole),
        ("include_checked_out"@, Shape::Flag),
        ("format"@, Shape::Format),
        ("token_budget"@, Shape::Whole),
    ]
}

pub open spec fn status_tool() -> ToolView {
    ToolView {
        name: "izakaya_status"@,
        description:
            "Read-only Izakaya board: active agents, stale leases, advisory overlaps, handoffs, and messages. Does not create state. Filter with agent, state, path, since_seq. format text|json."@,
        input_schema: schema(status_args(), seq![]),
    }
}

fn make_status() -> (r: Tool)
    ensures
        r@ == status_tool(),
{
    let args: [(&'static str, Shape); 7] = [
        ("agent", Shape::Text),
        ("state", Shape::BoardState),
        ("path", Shape::Text),
        ("since_seq", Shape::Whole),
        ("include_checked_out", Shape::Flag),
        ("format", Shape::Format),
        ("token_budget", Shape::Whole),
    ];
    let needed: [&'static str; 0] = [];
    assert(arg_views(args@) =~= status_args());
    assert(name_views(needed@) =~= seq![]);
    make_tool(
        "izakaya_status",
        "Read-only Izakaya board: active agents, stale leases, advisory overlaps, handoffs, and messages. Does not create state. Filter with agent, state, path, since_seq. format text|json.",
        &args,
        &needed,
    )
}

/// The arguments of `izakaya_check_in`.
pub open spec fn check_in_args() -> Seq<(Seq<char>, Shape)> {
    seq![
        ("agent_id"@, Shape::Text),
        ("role"@, Shape::Text),
        ("task"@, Shape::Text),
        ("summary"@, Shape::Text),
        ("claims"@, Shape::Claims),
        ("mas_session"@, Shape::Text),
        ("handoff_id"@, Shape::Text),
        ("lease_id"@, Shape::Text),
        ("force"@, Shape::Flag),
        ("ttl_secs"@, Shape::Whole),
        ("idempotency_key"@, Shape::Text),
        ("expected_revision"@, Shape::Whole),
        ("observe_git"@, Shape::Flag),
        ("format"@, Shape::Text),
        ("token_budget"@, Shape::Whole),
    ]
}

pub open spec fn check_in_tool() -> ToolView {
    ToolView {
        name: "izakaya_check_in"@,
        description:
            "Check in before the first live edit, or resume with lease_id. Returns a lease. Claims are advisory. Optional handoff_id accepts an offered handoff. Does not finalize MAS sessions."@,
        input_schema: schema(check_in_args(), seq!["agent_id"@]),
    }
}

fn make_check_in() -> (r: Tool)
    ensures
        r@ == check_in_tool(),
{
    let args: [(&'static str, Shape); 15] = [
        ("agent_id", Shape::Text),
        ("role", Shape::Text),
        ("task", Shape::Text),
        ("summary", Shape::Text),
        ("claims", Shape::Claims),
        ("mas_session", Shape::Text),
        ("handoff_id", Shape::Text),
        ("lease_id", Shape::Text),
        ("force", Shape::Flag),
        ("ttl_secs", Shape::Whole),
        ("idempotency_key", Shape::Text),
        ("expected_revision", Shape::Whole),
        ("observe_git", Shape::Flag),
        ("format", Shape::Text),
        ("token_budget", Shape::Whole),
    ];
    let needed: [&'static str; 1] = ["agent_id"];
    assert(arg_views(args@) =~= check_in_args());
    assert(name_views(needed@) =~= seq!["agent_id"@]);
    make_tool(
        "izakaya_check_in",
        "Check in before the first live edit, or resume with lease_id. Returns a lease. Claims are advisory. Optional handoff_id accepts an offered handoff. Does not finalize MAS sessions.",
        &args,
        &needed,
    )
}

/// The arguments of `izakaya_update`.
pub open spec fn update_args() -> Seq<(Seq<char>, Shape)> {
    seq![
        ("agent_id"@, Shape::Text),
        ("lease_id"@, Shape::Text),
        ("state"@, Shape::Text),
        ("summary"@, Shape::Text),
        ("claims"@, Shape::Claims),
        ("checkpoint"@, Shape::Text),
        ("dirty_paths"@, Shape::TextList),
        ("note"@, Shape::Open),
        ("ack_seqs"@, Shape::WholeList),
        ("idempotency_key"@, Shape::Text),
        ("expected_revision"@, Shape::Whole),
        ("observe_git"@, Shape::Flag),
        ("format"@, Shape::Text),
        ("token_budget"@, Shape::Whole),
    ]
}

pub open spec fn update_tool() -> ToolView {
    ToolView {
        name: "izakaya_update"@,
        description:
            "Heartbeat or move among checked_in, live_code, and suspended. Suspend of dirty work requires checkpoint. Optional note is a directed message. Requires lease_id."@,
        input_schema: schema(update_args(), seq!["agent_id"@, "lease_id"@]),
    }
}

fn make_update() -> (r: Tool)
    ensures
        r@ == update_tool(),
{
    let args: [(&'static str, Shape); 14] = [
        ("agent_id", Shape::Text),
        ("lease_id", Shape::Text),
        ("state", Shape::Text),
        ("summary", Shape::Text),
        ("claims", Shape::Claims),
        ("checkpoint", Shape::Text),
        ("dirty_paths", Shape::TextList),
        ("note", Shape::Open),
        ("ack_seqs", Shape::WholeList),
        ("idempotency_key", Shape::Text),
        ("expected_revision", Shape::Whole),
        ("observe_git", Shape::Flag),
        ("format", Shape::Text),
        ("token_budget", Shape::Whole),
    ];
    let needed: [&'static str; 2] = ["agent_id", "lease_id"];
    assert(arg_views(args@) =~= update_args());
    assert(name_views(needed@) =~= seq!["agent_id"@, "lease_id"@]);
    make_tool(
        "izakaya_update",
        "Heartbeat or move among checked_in, live_code, and suspended. Suspend of dirty work requires checkpoint. Optional note is a directed message. Requires lease_id.",
        &args,
        &needed,
    )
}

/// The arguments of `izakaya_check_out`.
pub open spec fn check_out_args() -> Seq<(Seq<char>, Shape)> {
    seq![
        ("agent_id"@, Shape::Text),
        ("lease_id"@, Shape::Text),
        ("reason"@, Shape::Text),
        ("handoff"@, Shape::Open),
        ("idempotency_key"@, Shape::Text),
        ("expected_revision"@, Shape::Whole),
        ("format"@, Shape::Text),
        ("token_budget"@, Shape::Whole),
    ]
}

pub open spec fn check_out_tool() -> ToolView {
    ToolView {
        name: "izakaya_check_out"@,
        description:
            "Release claims and close this incarnation. reason completed|handed_off|abandoned. handed_off requires a handoff capsule referencing MAS/notes; Izakaya does not call mas_finalize. Idempotent if already checked out."@,
        input_schema: schema(check_out_args(), seq!["agent_id"@, "lease_id"@]),
    }
}

fn make_check_out() -> (r: Tool)
    ensures
        r@ == check_out_tool(),
{
    let args: [(&'static str, Shape); 8] = [
        ("agent_id", Shape::Text),
        ("lease_id", Shape::Text),
        ("reason", Shape::Text),
        ("handoff", Shape::Open),
        ("idempotency_key", Shape::Text),
        ("expected_revision", Shape::Whole),
        ("format", Shape::Text),
        ("token_budget", Shape::Whole),
    ];
    let needed: [&'static str; 2] = ["agent_id", "lease_id"];
    assert(arg_views(args@) =~= check_out_args());
    assert(name_views(needed@) =~= seq!["agent_id"@, "lease_id"@]);
    make_tool(
        "izakaya_check_out",
        "Release claims and close this incarnation. reason completed|handed_off|abandoned. handed_off requires a handoff capsule referencing MAS/notes; Izakaya does not call mas_finalize. Idempotent if already checked out.",
        &args,
        &needed,
    )
}

/// The arguments of `izakaya_record_decision`.
pub open spec fn record_decision_args() -> Seq<(Seq<char>, Shape)> {
    seq![
        ("agent_id"@, Shape::Text),
        ("lease_id"@, Shape::Text),
        ("episode_id"@, Shape::Text),
        ("decision_id"@, Shape::Text),
        ("legal_actions"@, Shape::Actions),
        ("selected"@, Shape::TextList),
        ("profile"@, Shape::Text),
        ("policy_id"@, Shape::Text),
        ("fingerprints"@, Shape::Open),
        ("budget"@, Shape::Whole),
        ("workers"@, Shape::Whole),
        ("task"@, Shape::Text),
        ("observation_hash"@, Shape::Text),
        ("idempotency_key"@, Shape::Text),
        ("format"@, Shape::Text),
        ("token_budget"@, Shape::Whole),
    ]
}

pub open spec fn record_decision_tool() -> ToolView {
    ToolView {
        name: "izakaya_record_decision"@,
        description:
            "Record the frontier that was actually visible: legal_actions, selected batch, policy/profile fingerprints, and budget. Required before replay can treat history as supported."@,
        input_schema: schema(record_decision_args(), seq!["agent_id"@, "lease_id"@, "legal_actions"@, "selected"@]),
    }
}

fn make_record_decision() -> (r: Tool)
    ensures
        r@ == record_decision_tool(),
{
    let args: [(&'static str, Shape); 16] = [
        ("agent_id", Shape::Text),
        ("lease_id", Shape::Text),
        ("episode_id", Shape::Text),
        ("decision_id", Shape::Text),
        ("legal_actions", Shape::Actions),
        ("selected", Shape::TextList),
        ("profile", Shape::Text),
        ("policy_id", Shape::Text),
        ("fingerprints", Shape::Open),
        ("budget", Shape::Whole),
        ("workers", Shape::Whole),
        ("task", Shape::Text),
        ("observation_hash", Shape::Text),
        ("idempotency_key", Shape::Text),
        ("format", Shape::Text),
        ("token_budget", Shape::Whole),
    ];
    let needed: [&'static str; 4] = ["agent_id", "lease_id", "legal_actions", "selected"];
    assert(arg_views(args@) =~= record_decision_args());
    assert(name_views(needed@) =~= seq!["agent_id"@, "lease_id"@, "legal_actions"@, "selected"@]);
    make_tool(
        "izakaya_record_decision",
        "Record the frontier that was actually visible: legal_actions, selected batch, policy/profile fingerprints, and budget. Required before replay can treat history as supported.",
        &args,
        &needed,
    )
}

/// The arguments of `izakaya_record_outcome`.
pub open spec fn record_outcome_args() -> Seq<(Seq<char>, Shape)> {
    seq![
        ("agent_id"@, Shape::Text),
        ("lease_id"@, Shape::Text),
        ("decision_id"@, Shape::Text),
        ("action"@, Shape::Text),
        ("metrics"@, Shape::Open),
        ("censored"@, Shape::Flag),
        ("run_ids"@, Shape::TextList),
        ("artifacts"@, Shape::TextList),
        ("profile"@, Shape::Text),
        ("fingerprints"@, Shape::Open),
        ("idempotency_key"@, Shape::Text),
        ("format"@, Shape::Text),
        ("token_budget"@, Shape::Whole),
    ]
}

pub open spec fn record_outcome_tool() -> ToolView {
    ToolView {
        name: "izakaya_record_outcome"@,
        description:
            "Attach measured metrics to a recorded action. Links run_record ids. Does not execute commands. Suspended/unknown results should set censored:true."@,
        input_schema: schema(record_outcome_args(), seq!["agent_id"@, "lease_id"@, "decision_id"@, "action"@]),
    }
}

fn make_record_outcome() -> (r: Tool)
    ensures
        r@ == record_outcome_tool(),
{
    let args: [(&'static str, Shape); 13] = [
        ("agent_id", Shape::Text),
        ("lease_id", Shape::Text),
        ("decision_id", Shape::Text),
        ("action", Shape::Text),
        ("metrics", Shape::Open),
        ("censored", Shape::Flag),
        ("run_ids", Shape::TextList),
        ("artifacts", Shape::TextList),
        ("profile", Shape::Text),
        ("fingerprints", Shape::Open),
        ("idempotency_key", Shape::Text),
        ("format", Shape::Text),
        ("token_budget", Shape::Whole),
    ];
    let needed: [&'static str; 4] = ["agent_id", "lease_id", "decision_id", "action"];
    assert(arg_views(args@) =~= record_outcome_args());
    assert(name_views(needed@) =~= seq!["agent_id"@, "lease_id"@, "decision_id"@, "action"@]);
    make_tool(
        "izakaya_record_outcome",
        "Attach measured metrics to a recorded action. Links run_record ids. Does not execute commands. Suspended/unknown results should set censored:true.",
        &args,
        &needed,
    )
}

/// The arguments of `izakaya_replay`.
pub open spec fn replay_args() -> Seq<(Seq<char>, Shape)> {
    seq![
        ("policy"@, Shape::Policy),
        ("incumbent"@, Shape::Flag),
        ("profile"@, Shape::Text),
        ("format"@, Shape::Text),
        ("token_budget"@, Shape::Whole),
    ]
}

pub open spec fn replay_tool() -> ToolView {
    ToolView {
        name: "izakaya_replay"@,
        description:
            "Evaluate a declarative exploration policy by historical supported replay. Reports support, censoring, holdout gates, and Pareto axes. Does not promote and does not invent outcomes for unrecorded actions."@,
        input_schema: schema(replay_args(), seq![]),
    }
}

fn make_replay() -> (r: Tool)
    ensures
        r@ == replay_tool(),
{
    let args: [(&'static str, Shape); 5] = [
        ("policy", Shape::Policy),
        ("incumbent", Shape::Flag),
        ("profile", Shape::Text),
        ("format", Shape::Text),
        ("token_budget", Shape::Whole),
    ];
    let needed: [&'static str; 0] = [];
    assert(arg_views(args@) =~= replay_args());
    assert(name_views(needed@) =~= seq![]);
    make_tool(
        "izakaya_replay",
        "Evaluate a declarative exploration policy by historical supported replay. Reports support, censoring, holdout gates, and Pareto axes. Does not promote and does not invent outcomes for unrecorded actions.",
        &args,
        &needed,
    )
}

/// The arguments of `izakaya_advise`.
pub open spec fn advise_args() -> Seq<(Seq<char>, Shape)> {
    seq![
        ("format"@, Shape::Text),
        ("token_budget"@, Shape::Whole),
    ]
}

pub open spec fn advise_tool() -> ToolView {
    ToolView {
        name: "izakaya_advise"@,
        description:
            "Apply the promoted advisory policy to current presence and return recommendations. Read-only: cannot assign, suspend, check out, or run git."@,
        input_schema: schema(advise_args(), seq![]),
    }
}

fn make_advise() -> (r: Tool)
    ensures
        r@ == advise_tool(),
{
    let args: [(&'static str, Shape); 2] = [
        ("format", Shape::Text),
        ("token_budget", Shape::Whole),
    ];
    let needed: [&'static str; 0] = [];
    assert(arg_views(args@) =~= advise_args());
    assert(name_views(needed@) =~= seq![]);
    make_tool(
        "izakaya_advise",
        "Apply the promoted advisory policy to current presence and return recommendations. Read-only: cannot assign, suspend, check out, or run git.",
        &args,
        &needed,
    )
}

/// All tools.
pub open spec fn all_tools() -> Seq<ToolView> {
    seq![
        status_tool(),
        check_in_tool(),
        update_tool(),
        check_out_tool(),
        record_decision_tool(),
        record_outcome_tool(),
        replay_tool(),
        advise_tool(),
    ]
}

pub fn mcp_tools() -> (r: Vec<Tool>)
    ensures
        tool_views(r@) == all_tools(),
{
    let mut out: Vec<Tool> = Vec::new();
    out.push(make_status());
    out.push(make_check_in());
    out.push(make_update());
    out.push(make_check_out());
    out.push(make_record_decision());
    out.push(make_record_outcome());
    out.push(make_replay());
    out.push(make_advise());
    assert(tool_views(out@) =~= all_tools());
    out
}

} // verus!

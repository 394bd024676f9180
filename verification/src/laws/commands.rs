//! What the command line and the tools ask for, and how their answers are given.
use vstd::prelude::*;
use crate::izakaya::cli::{
    byte_budget, check_out_args, clipped, command, flags, flags_at, handoff_flags, help,
    plain_command, policy_command, policy_given, rendered, shown, switch_of, token_budget,
    tool_action, tool_answer, Action, CommandView,
};
use crate::izakaya::replay::incumbent_doc;
use crate::izakaya::tools::{
    advise_tool, all_tools, check_in_tool, check_out_tool, list_of, record_decision_tool,
    record_outcome_tool, replay_tool, schema, shape_json, status_tool, typed, update_tool, Shape,
};
use crate::json::{
    as_str, as_u64, bool_or, get, json_pretty, lemma_record_get, lemma_record_none, record,
    serde_held, str_or, u64_or, with_member, Json,
};
use crate::laws::texts::{flat, lemma_flat_push};
use crate::mcp::ToolView;
use crate::module_map::{home_of, samples_text};
use crate::smap::put;
use crate::symbol_context::{ask_of, body_cap, clipped as clipped_body, indented, missing};
use crate::text::{joined, lines_of, listed, split_on, trimmed};

verus! {

// ---------------------------------------------------------------------------
// Flags

/// What each flag adds: a text that follows it, a switch, or one more claim.
pub proof fn law_flags_of_the_board(
    argv: Seq<Seq<char>>,
    i: int,
    m: Seq<(Seq<char>, Json)>,
    claims: Seq<Json>,
)
    requires
        0 <= i,
        i + 1 < argv.len(),
    ensures
        ({
            let a = argv[i];
            let r = flags_at(argv, i, m, claims);
            let text = |k: Seq<char>| flags_at(argv, i + 2, put(m, k, Json::Str(argv[i + 1])), claims);
            let switch = |k: Seq<char>, v: bool| flags_at(argv, i + 1, put(m, k, Json::Bool(v)), claims);
            &&& a == "--agent"@ ==> r == text("agent_id"@)
            &&& a == "--lease"@ ==> r == text("lease_id"@)
            &&& a == "--task"@ ==> r == text("task"@)
            &&& a == "--role"@ ==> r == text("role"@)
            &&& a == "--summary"@ ==> r == text("summary"@)
            &&& a == "--state"@ ==> r == text("state"@)
            &&& a == "--reason"@ ==> r == text("reason"@)
            &&& a == "--handoff-to"@ ==> r == text("handoff_to"@)
            &&& a == "--mas-session"@ ==> r == text("mas_session"@)
            &&& a == "--checkpoint"@ ==> r == text("checkpoint"@)
            &&& a == "--format"@ ==> r == text("format"@)
            &&& a == "--spec"@ ==> r == text("spec"@)
            &&& a == "--profile"@ ==> r == text("profile"@)
            &&& a == "--id"@ ==> r == text("id"@)
            &&& a == "--path"@ ==> r == text("path"@)
            &&& a == "--idempotency"@ ==> r == text("idempotency_key"@)
            &&& a == "--force"@ ==> r == switch("force"@, true)
            &&& a == "--no-git"@ ==> r == switch("observe_git"@, false)
            &&& a == "--include-checked-out"@ ==> r == switch("include_checked_out"@, true)
            &&& a == "--claim"@ ==> r == flags_at(
                argv,
                i + 2,
                m,
                claims.push(Json::Str(argv[i + 1])),
            )
        }),
{
    reveal_strlit("--agent");
    reveal_strlit("--lease");
    reveal_strlit("--task");
    reveal_strlit("--role");
    reveal_strlit("--summary");
    reveal_strlit("--state");
    reveal_strlit("--reason");
    reveal_strlit("--handoff-to");
    reveal_strlit("--mas-session");
    reveal_strlit("--checkpoint");
    reveal_strlit("--format");
    reveal_strlit("--spec");
    reveal_strlit("--profile");
    reveal_strlit("--id");
    reveal_strlit("--path");
    reveal_strlit("--idempotency");
    reveal_strlit("--force");
    reveal_strlit("--no-git");
    reveal_strlit("--include-checked-out");
    reveal_strlit("--claim");
    assert("--agent"@.len() == 7);
    assert("--lease"@.len() == 7);
    assert("--task"@.len() == 6);
    assert("--role"@.len() == 6);
    assert("--summary"@.len() == 9);
    assert("--state"@.len() == 7);
    assert("--reason"@.len() == 8);
    assert("--handoff-to"@.len() == 12);
    assert("--mas-session"@.len() == 13);
    assert("--checkpoint"@.len() == 12);
    assert("--format"@.len() == 8);
    assert("--spec"@.len() == 6);
    assert("--profile"@.len() == 9);
    assert("--id"@.len() == 4);
    assert("--path"@.len() == 6);
    assert("--idempotency"@.len() == 13);
    assert("--force"@.len() == 7);
    assert("--no-git"@.len() == 8);
    assert("--include-checked-out"@.len() == 21);
    assert("--claim"@.len() == 7);
    assert("--agent"@[2] == 'a');
    assert("--lease"@[2] == 'l');
    assert("--task"@[2] == 't');
    assert("--role"@[2] == 'r');
    assert("--summary"@[2] == 's');
    assert("--state"@[2] == 's');
    assert("--reason"@[2] == 'r');
    assert("--handoff-to"@[2] == 'h');
    assert("--mas-session"@[2] == 'm');
    assert("--checkpoint"@[2] == 'c');
    assert("--format"@[2] == 'f');
    assert("--spec"@[2] == 's');
    assert("--profile"@[2] == 'p');
    assert("--path"@[2] == 'p');
    assert("--idempotency"@[2] == 'i');
    assert("--force"@[2] == 'f');
    assert("--no-git"@[2] == 'n');
    assert("--claim"@[2] == 'c');
}

/// Whether a word is a flag.
pub open spec fn known_flag(a: Seq<char>) -> bool {
    ||| a == "--agent"@
    ||| a == "--lease"@
    ||| a == "--task"@
    ||| a == "--role"@
    ||| a == "--summary"@
    ||| a == "--state"@
    ||| a == "--reason"@
    ||| a == "--handoff-to"@
    ||| a == "--mas-session"@
    ||| a == "--checkpoint"@
    ||| a == "--format"@
    ||| a == "--spec"@
    ||| a == "--profile"@
    ||| a == "--id"@
    ||| a == "--path"@
    ||| a == "--idempotency"@
    ||| a == "--force"@
    ||| a == "--no-git"@
    ||| a == "--include-checked-out"@
    ||| a == "--claim"@
}

/// Other words are refused, and so is a flag without its text.
pub proof fn law_flags_that_are_refused(
    argv: Seq<Seq<char>>,
    i: int,
    m: Seq<(Seq<char>, Json)>,
    claims: Seq<Json>,
)
    requires
        0 <= i < argv.len(),
    ensures
        !known_flag(argv[i]) ==> flags_at(argv, i, m, claims) == Err::<Json, Seq<char>>(
            "unknown flag "@ + argv[i],
        ),
        known_flag(argv[i]) && i + 1 == argv.len() && switch_of(argv[i]) is None ==> flags_at(
            argv,
            i,
            m,
            claims,
        ) == Err::<Json, Seq<char>>(argv[i] + " needs a value"@),
        switch_of(argv[i]) is Some <==> argv[i] == "--force"@ || argv[i] == "--no-git"@ || argv[i] == "--include-checked-out"@,
{
    reveal_strlit("--agent");
    reveal_strlit("--lease");
    reveal_strlit("--task");
    reveal_strlit("--role");
    reveal_strlit("--summary");
    reveal_strlit("--state");
    reveal_strlit("--reason");
    reveal_strlit("--handoff-to");
    reveal_strlit("--mas-session");
    reveal_strlit("--checkpoint");
    reveal_strlit("--format");
    reveal_strlit("--spec");
    reveal_strlit("--profile");
    reveal_strlit("--id");
    reveal_strlit("--path");
    reveal_strlit("--idempotency");
    reveal_strlit("--force");
    reveal_strlit("--no-git");
    reveal_strlit("--include-checked-out");
    reveal_strlit("--claim");
    assert("--agent"@.len() == 7);
    assert("--lease"@.len() == 7);
    assert("--task"@.len() == 6);
    assert("--role"@.len() == 6);
    assert("--summary"@.len() == 9);
    assert("--state"@.len() == 7);
    assert("--reason"@.len() == 8);
    assert("--handoff-to"@.len() == 12);
    assert("--mas-session"@.len() == 13);
    assert("--checkpoint"@.len() == 12);
    assert("--format"@.len() == 8);
    assert("--spec"@.len() == 6);
    assert("--profile"@.len() == 9);
    assert("--id"@.len() == 4);
    assert("--path"@.len() == 6);
    assert("--idempotency"@.len() == 13);
    assert("--force"@.len() == 7);
    assert("--no-git"@.len() == 8);
    assert("--include-checked-out"@.len() == 21);
    assert("--claim"@.len() == 7);
    assert("--agent"@[2] == 'a');
    assert("--lease"@[2] == 'l');
    assert("--task"@[2] == 't');
    assert("--role"@[2] == 'r');
    assert("--summary"@[2] == 's');
    assert("--state"@[2] == 's');
    assert("--reason"@[2] == 'r');
    assert("--handoff-to"@[2] == 'h');
    assert("--mas-session"@[2] == 'm');
    assert("--checkpoint"@[2] == 'c');
    assert("--format"@[2] == 'f');
    assert("--spec"@[2] == 's');
    assert("--profile"@[2] == 'p');
    assert("--path"@[2] == 'p');
    assert("--idempotency"@[2] == 'i');
    assert("--force"@[2] == 'f');
    assert("--no-git"@[2] == 'n');
    assert("--claim"@[2] == 'c');
}

/// At the end all that was set is there, and the claims where there are some.
pub proof fn law_end_of_flags(
    argv: Seq<Seq<char>>,
    m: Seq<(Seq<char>, Json)>,
    claims: Seq<Json>,
)
    ensures
        ({
            let r = flags_at(argv, argv.len() as int, m, claims);
            &&& claims.len() == 0 ==> r == Ok::<Json, Seq<char>>(Json::Object(m))
            &&& claims.len() > 0 ==> r == Ok::<Json, Seq<char>>(
                Json::Object(put(m, "claims"@, Json::Array(claims))),
            )
        }),
        flags(argv) == flags_at(argv, 0, Seq::empty(), Seq::empty()),
{
}

/// A handoff from the command line: what was said of it, or nothing.
pub proof fn law_handoffs_from_flags(j: Json)
    ensures
        ({
            let b = handoff_flags(j);
            let or = |key: Seq<char>, d: Json|
                match get(j, key) {
                    Some(v) => v,
                    None => d,
                };
            &&& get(b, "checkpoint"@) == Some(or("checkpoint"@, Json::Null))
            &&& get(b, "mas_session"@) == Some(or("mas_session"@, Json::Null))
            &&& get(b, "summary"@) == Some(or("summary"@, Json::Str(""@)))
            &&& get(b, "to"@) == Some(or("handoff_to"@, Json::Str(""@)))
        }),
{
    let or = |key: Seq<char>, d: Json|
        match get(j, key) {
            Some(v) => v,
            None => d,
        };
    let ms = seq![
        ("checkpoint"@, or("checkpoint"@, Json::Null)),
        ("mas_session"@, or("mas_session"@, Json::Null)),
        ("summary"@, or("summary"@, Json::Str(""@))),
        ("to"@, or("handoff_to"@, Json::Str(""@))),
    ];
    reveal_strlit("checkpoint");
    reveal_strlit("mas_session");
    reveal_strlit("summary");
    reveal_strlit("to");
    assert("checkpoint"@.len() == 10);
    assert("mas_session"@.len() == 11);
    assert("summary"@.len() == 7);
    assert("to"@.len() == 2);
    assert(ms[0].0 == "checkpoint"@ && ms[1].0 == "mas_session"@ && ms[2].0 == "summary"@
        && ms[3].0 == "to"@);
    assert(handoff_flags(j) == record(ms));
    lemma_record_get(ms, 0);
    lemma_record_get(ms, 1);
    lemma_record_get(ms, 2);
    lemma_record_get(ms, 3);
}

/// Who names a taker hands off; otherwise leaving is as it was asked for.
pub proof fn law_leaving_by_flags(j: Json)
    ensures
        get(j, "handoff_to"@) is None && get(j, "to"@) is None ==> check_out_args(j) == j,
        get(j, "handoff_to"@) is Some || get(j, "to"@) is Some ==> check_out_args(j) == with_member(
            with_member(j, "handoff"@, handoff_flags(j)),
            "reason"@,
            Json::Str("handed_off"@),
        ),
{
}

// ---------------------------------------------------------------------------
// Commands

/// What a command comes to, by its first word.
pub proof fn law_commands_of_the_board(argv: Seq<Seq<char>>)
    ensures
        ({
            let r = command(argv);
            let a = argv[0];
            let f = flags(argv.skip(1));
            let some = argv.len() > 0;
            let plain = |act: Action, args: Json| Ok::<CommandView, Seq<char>>(
                plain_command(act, args),
            );
            &&& !some || a == "--help"@ || a == "help"@ ==> r == plain(
                Action::Help,
                Json::Object(Seq::empty()),
            )
            &&& some && a == "policy"@ ==> r == policy_command(argv.skip(1))
            &&& some && (a == "status"@ || a == "check-in"@ || a == "update"@ || a == "check-out"@)
                && f is Err ==> r == Err::<CommandView, Seq<char>>(f->Err_0)
            &&& some && a == "status"@ && f is Ok ==> r == plain(Action::Status, f->Ok_0)
            &&& some && a == "check-in"@ && f is Ok ==> r == plain(Action::CheckIn, f->Ok_0)
            &&& some && a == "update"@ && f is Ok ==> r == plain(Action::Update, f->Ok_0)
            &&& some && a == "check-out"@ && f is Ok ==> r == plain(
                Action::CheckOut,
                check_out_args(f->Ok_0),
            )
            &&& some && a != "--help"@ && a != "help"@ && a != "policy"@ && a != "status"@ && a
                != "check-in"@ && a != "update"@ && a != "check-out"@ ==> r == Err::<
                CommandView,
                Seq<char>,
            >("unknown izakaya command "@ + a + "\n"@ + help())
        }),
{
    reveal_strlit("--help");
    reveal_strlit("help");
    reveal_strlit("policy");
    reveal_strlit("status");
    reveal_strlit("check-in");
    reveal_strlit("update");
    reveal_strlit("check-out");
    assert("--help"@.len() == 6);
    assert("help"@.len() == 4);
    assert("policy"@.len() == 6);
    assert("status"@.len() == 6);
    assert("check-in"@.len() == 8);
    assert("update"@.len() == 6);
    assert("check-out"@.len() == 9);
    assert("--help"@[0] == '-');
    assert("policy"@[0] == 'p');
    assert("status"@[0] == 's');
    assert("update"@[0] == 'u');
}

/// What a command on policies comes to, by its first word.
pub proof fn law_commands_on_policies(argv: Seq<Seq<char>>)
    ensures
        ({
            let r = policy_command(argv);
            let a = argv[0];
            let f = flags(argv.skip(1));
            let some = argv.len() > 0;
            let spec = as_str(get(f->Ok_0, "spec"@));
            let id = as_str(get(f->Ok_0, "id"@));
            &&& !some ==> r == Err::<CommandView, Seq<char>>(help())
            &&& some && a == "list"@ ==> r == Ok::<CommandView, Seq<char>>(
                plain_command(Action::ListPolicies, Json::Object(Seq::empty())),
            )
            &&& some && (a == "evaluate"@ || a == "promote"@ || a == "retire"@) && f is Err ==> r
                == Err::<CommandView, Seq<char>>(f->Err_0)
            &&& some && (a == "evaluate"@ || a == "promote"@) && f is Ok && spec is None ==> r
                == Err::<CommandView, Seq<char>>("policy evaluate/promote requires --spec FILE"@)
            &&& some && a == "evaluate"@ && f is Ok && spec is Some ==> (r matches Ok(c) && c.action
                == Action::Evaluate && c.name == spec->Some_0 && c.args == f->Ok_0)
            &&& some && a == "promote"@ && f is Ok && spec is Some ==> (r matches Ok(c) && c.action
                == Action::Promote && c.name == spec->Some_0 && c.args == f->Ok_0)
            &&& some && a == "retire"@ && f is Ok && id is None ==> r == Err::<
                CommandView,
                Seq<char>,
            >("policy retire requires --id"@)
            &&& some && a == "retire"@ && f is Ok && id is Some ==> (r matches Ok(c) && c.action
                == Action::Retire && c.name == id->Some_0 && c.args == f->Ok_0)
            &&& some && a != "list"@ && a != "evaluate"@ && a != "promote"@ && a != "retire"@ ==> r
                == Err::<CommandView, Seq<char>>("unknown policy command "@ + a)
        }),
{
    reveal_strlit("list");
    reveal_strlit("evaluate");
    reveal_strlit("promote");
    reveal_strlit("retire");
    assert("list"@.len() == 4);
    assert("evaluate"@.len() == 8);
    assert("promote"@.len() == 7);
    assert("retire"@.len() == 6);
}

/// A command keeps its arguments, the format that they ask for, and the profile, the built-in
/// one unless they name another.
pub proof fn law_what_a_command_keeps(action: Action, args: Json)
    ensures
        ({
            let c = plain_command(action, args);
            &&& c.action == action && c.args == args
            &&& c.format == as_str(get(args, "format"@))
            &&& c.name.len() == 0
            &&& c.profile == str_or(args, "profile"@, "coordination"@)
        }),
{
    reveal_strlit("");
}

/// An answer is given as a document where that is asked for, and as its text otherwise; one
/// without a text cannot be.
pub proof fn law_forms_of_an_answer(v: Json, format: Option<Seq<char>>)
    ensures
        format == Some("json"@) ==> rendered(v, format) == Ok::<Seq<char>, Seq<char>>(
            json_pretty(serde_held(v)),
        ),
        format != Some("json"@) && as_str(get(v, "text"@)) is Some ==> rendered(v, format) == Ok::<
            Seq<char>,
            Seq<char>,
        >(as_str(get(v, "text"@))->Some_0),
        format != Some("json"@) && as_str(get(v, "text"@)) is None ==> rendered(v, format) == Err::<
            Seq<char>,
            Seq<char>,
        >("missing text"@),
{
}

/// The answer of a tool is a document where that is asked for, or its text, cut to the budget.
pub proof fn law_answers_of_tools(v: Json, args: Json)
    ensures
        str_or(args, "format"@, "text"@) == "json"@ ==> tool_answer(v, args) == clipped(
            json_pretty(serde_held(v)),
            token_budget(args),
        ),
        str_or(args, "format"@, "text"@) != "json"@ ==> tool_answer(v, args) == clipped(
            str_or(v, "text"@, ""@),
            token_budget(args),
        ),
        token_budget(args) == (match as_u64(get(args, "token_budget"@)) {
            Some(n) => n,
            None => 1200,
        }),
{
}

/// A budget is four bytes to a token, and some at least.
pub proof fn law_bytes_of_a_budget(tokens: u64)
    ensures
        tokens < 8 ==> byte_budget(tokens) == 32,
        8 <= tokens && 4 * tokens <= u64::MAX ==> byte_budget(tokens) == 4 * tokens,
        4 * tokens > u64::MAX ==> byte_budget(tokens) == u64::MAX,
{
}

/// The policy to replay is the one given, and the incumbent where none is or where it is asked
/// for.
pub proof fn law_policy_to_replay(j: Json)
    ensures
        bool_or(j, "incumbent"@, false) || get(j, "policy"@) is None ==> policy_given(j)
            == incumbent_doc(),
        !bool_or(j, "incumbent"@, false) && get(j, "policy"@) is Some ==> Some(policy_given(j))
            == get(j, "policy"@),
{
}

// ---------------------------------------------------------------------------
// Tools

/// Each tool on offer has its own action.
pub proof fn law_actions_of_tools(name: Seq<char>)
    ensures
        all_tools()[0].name == "izakaya_status"@,
        tool_action("izakaya_status"@) == Ok::<Action, Seq<char>>(Action::Status),
        all_tools()[1].name == "izakaya_check_in"@,
        tool_action("izakaya_check_in"@) == Ok::<Action, Seq<char>>(Action::CheckIn),
        all_tools()[2].name == "izakaya_update"@,
        tool_action("izakaya_update"@) == Ok::<Action, Seq<char>>(Action::Update),
        all_tools()[3].name == "izakaya_check_out"@,
        tool_action("izakaya_check_out"@) == Ok::<Action, Seq<char>>(Action::CheckOut),
        all_tools()[4].name == "izakaya_record_decision"@,
        tool_action("izakaya_record_decision"@) == Ok::<Action, Seq<char>>(Action::RecordDecision),
        all_tools()[5].name == "izakaya_record_outcome"@,
        tool_action("izakaya_record_outcome"@) == Ok::<Action, Seq<char>>(Action::RecordOutcome),
        all_tools()[6].name == "izakaya_replay"@,
        tool_action("izakaya_replay"@) == Ok::<Action, Seq<char>>(Action::Replay),
        all_tools()[7].name == "izakaya_advise"@,
        tool_action("izakaya_advise"@) == Ok::<Action, Seq<char>>(Action::Advise),
        all_tools().len() == 8,
        name != "izakaya_status"@ && name != "izakaya_check_in"@ && name != "izakaya_update"@ && name != "izakaya_check_out"@ && name != "izakaya_record_decision"@ && name != "izakaya_record_outcome"@ && name != "izakaya_replay"@ && name != "izakaya_advise"@ ==> tool_action(name) == Err::<
            Action,
            Seq<char>,
        >("unknown izakaya tool "@ + name),
{
    reveal_strlit("izakaya_status");
    reveal_strlit("izakaya_check_in");
    reveal_strlit("izakaya_update");
    reveal_strlit("izakaya_check_out");
    reveal_strlit("izakaya_record_decision");
    reveal_strlit("izakaya_record_outcome");
    reveal_strlit("izakaya_replay");
    reveal_strlit("izakaya_advise");
    assert("izakaya_status"@.len() == 14);
    assert("izakaya_check_in"@.len() == 16);
    assert("izakaya_update"@.len() == 14);
    assert("izakaya_check_out"@.len() == 17);
    assert("izakaya_record_decision"@.len() == 23);
    assert("izakaya_record_outcome"@.len() == 22);
    assert("izakaya_replay"@.len() == 14);
    assert("izakaya_advise"@.len() == 14);
    assert("izakaya_status"@[8] == 's');
    assert("izakaya_update"@[8] == 'u');
    assert("izakaya_replay"@[8] == 'r');
    assert("izakaya_advise"@[8] == 'a');
}

/// What a tool takes: each of its arguments in its shape; those that it needs are named, where
/// it needs some.
pub proof fn law_what_a_tool_takes(
    args: Seq<(Seq<char>, Shape)>,
    needed: Seq<Seq<char>>,
)
    ensures
        ({
            let s = schema(args, needed);
            &&& get(s, "type"@) == Some(Json::Str("object"@))
            &&& get(s, "properties"@) == Some(
                record(args.map_values(|a: (Seq<char>, Shape)| (a.0, shape_json(a.1)))),
            )
            &&& needed.len() == 0 ==> get(s, "required"@) is None
            &&& needed.len() > 0 ==> get(s, "required"@) == Some(
                Json::Array(needed.map_values(|n: Seq<char>| Json::Str(n))),
            )
        }),
{
    let properties = record(args.map_values(|a: (Seq<char>, Shape)| (a.0, shape_json(a.1))));
    let base = seq![("type"@, Json::Str("object"@)), ("properties"@, properties)];
    let more = base.push(
        ("required"@, Json::Array(needed.map_values(|n: Seq<char>| Json::Str(n)))),
    );
    reveal_strlit("type");
    reveal_strlit("properties");
    reveal_strlit("required");
    assert("type"@.len() == 4);
    assert("properties"@.len() == 10);
    assert("required"@.len() == 8);
    assert(base[0].0 == "type"@ && base[1].0 == "properties"@);
    assert(more[0].0 == "type"@ && more[1].0 == "properties"@ && more[2].0 == "required"@);
    if needed.len() == 0 {
        lemma_record_get(base, 0);
        lemma_record_get(base, 1);
        lemma_record_none(base, "required"@);
    } else {
        lemma_record_get(more, 0);
        lemma_record_get(more, 1);
        lemma_record_get(more, 2);
    }
}

/// Which arguments the tools need: those that change the board say who asks, and all but the
/// first call under which lease.
pub proof fn law_what_tools_need()
    ensures
        get(status_tool().input_schema, "required"@) is None,
        get(replay_tool().input_schema, "required"@) is None,
        get(advise_tool().input_schema, "required"@) is None,
        needs(check_in_tool(), seq!["agent_id"@]),
        needs(update_tool(), seq!["agent_id"@, "lease_id"@]),
        needs(check_out_tool(), seq!["agent_id"@, "lease_id"@]),
        needs(record_decision_tool(), seq!["agent_id"@, "lease_id"@, "legal_actions"@, "selected"@]),
        needs(record_outcome_tool(), seq!["agent_id"@, "lease_id"@, "decision_id"@, "action"@]),
{
    law_what_a_tool_takes(crate::izakaya::tools::status_args(), seq![]);
    law_what_a_tool_takes(crate::izakaya::tools::replay_args(), seq![]);
    law_what_a_tool_takes(crate::izakaya::tools::advise_args(), seq![]);
    law_what_a_tool_takes(
        crate::izakaya::tools::check_in_args(),
        seq!["agent_id"@],
    );
    law_what_a_tool_takes(
        crate::izakaya::tools::update_args(),
        seq!["agent_id"@, "lease_id"@],
    );
    law_what_a_tool_takes(
        crate::izakaya::tools::check_out_args(),
        seq!["agent_id"@, "lease_id"@],
    );
    law_what_a_tool_takes(
        crate::izakaya::tools::record_decision_args(),
        seq!["agent_id"@, "lease_id"@, "legal_actions"@, "selected"@],
    );
    law_what_a_tool_takes(
        crate::izakaya::tools::record_outcome_args(),
        seq!["agent_id"@, "lease_id"@, "decision_id"@, "action"@],
    );
}

/// Whether a tool names what it needs.
pub open spec fn needs(t: ToolView, names: Seq<Seq<char>>) -> bool {
    get(t.input_schema, "required"@) == Some(
        Json::Array(names.map_values(|n: Seq<char>| Json::Str(n))),
    )
}

proof fn lemma_typed(t: Seq<char>, more: Seq<(Seq<char>, Json)>)
    ensures
        (forall|i: int| 0 <= i < more.len() ==> (#[trigger] more[i]).0 != "type"@) ==> get(
            record(seq![("type"@, Json::Str(t))] + more),
            "type"@,
        ) == Some(Json::Str(t)),
{
    let ms = seq![("type"@, Json::Str(t))] + more;
    if forall|i: int| 0 <= i < more.len() ==> (#[trigger] more[i]).0 != "type"@ {
        assert(ms[0].0 == "type"@);
        assert forall|i: int| 0 < i < ms.len() implies (#[trigger] ms[i]).0 != "type"@ by {
            assert(ms[i] == more[i - 1]);
        }
        lemma_record_get(ms, 0);
    }
}

/// The type of each shape.
pub proof fn law_types_of_shapes()
    ensures
        get(shape_json(Shape::Text), "type"@) == Some(Json::Str("string"@)),
        get(shape_json(Shape::Whole), "type"@) == Some(Json::Str("integer"@)),
        get(shape_json(Shape::Flag), "type"@) == Some(Json::Str("boolean"@)),
        get(shape_json(Shape::Format), "type"@) == Some(Json::Str("string"@)),
        get(shape_json(Shape::TextList), "type"@) == Some(Json::Str("array"@)),
        get(shape_json(Shape::WholeList), "type"@) == Some(Json::Str("array"@)),
        get(shape_json(Shape::Open), "type"@) == Some(Json::Str("object"@)),
        get(shape_json(Shape::BoardState), "type"@) == Some(Json::Str("string"@)),
        get(shape_json(Shape::Policy), "type"@) == Some(Json::Str("object"@)),
        get(shape_json(Shape::Claims), "type"@) == Some(Json::Str("array"@)),
        get(shape_json(Shape::Actions), "type"@) == Some(Json::Str("array"@)),
{
    reveal_strlit("type");
    reveal_strlit("enum");
    reveal_strlit("items");
    reveal_strlit("description");
    reveal_strlit("additionalProperties");
    assert("type"@.len() == 4);
    assert("enum"@.len() == 4);
    assert("items"@.len() == 5);
    assert("description"@.len() == 11);
    assert("additionalProperties"@.len() == 20);
    assert("type"@[0] == 't');
    assert("enum"@[0] == 'e');
    let no: Seq<(Seq<char>, Json)> = seq![];
    let any = seq![("additionalProperties"@, Json::Bool(true))];
    let formats = seq![("enum"@, Json::Array(seq![Json::Str("text"@), Json::Str("json"@)]))];
    let states = seq![
        ("description"@, Json::Str("checked_in|live_code|suspended|checked_out|stale"@)),
    ];
    let policy = seq![
        ("description"@, Json::Str("Declarative spec. Omit for the incumbent."@)),
        ("additionalProperties"@, Json::Bool(true)),
    ];
    assert(policy[0].0 == "description"@ && policy[1].0 == "additionalProperties"@);
    lemma_typed("string"@, no);
    lemma_typed("integer"@, no);
    lemma_typed("boolean"@, no);
    assert(seq![("type"@, Json::Str("string"@))] + no =~= seq![("type"@, Json::Str("string"@))]);
    assert(seq![("type"@, Json::Str("integer"@))] + no =~= seq![("type"@, Json::Str("integer"@))]);
    assert(seq![("type"@, Json::Str("boolean"@))] + no =~= seq![("type"@, Json::Str("boolean"@))]);
    lemma_typed("string"@, formats);
    assert(seq![("type"@, Json::Str("string"@))] + formats =~= seq![
        ("type"@, Json::Str("string"@)),
        formats[0],
    ]);
    lemma_typed("object"@, any);
    assert(seq![("type"@, Json::Str("object"@))] + any =~= seq![
        ("type"@, Json::Str("object"@)),
        any[0],
    ]);
    lemma_typed("string"@, states);
    assert(seq![("type"@, Json::Str("string"@))] + states =~= seq![
        ("type"@, Json::Str("string"@)),
        states[0],
    ]);
    lemma_typed("object"@, policy);
    assert(seq![("type"@, Json::Str("object"@))] + policy =~= seq![
        ("type"@, Json::Str("object"@)),
        policy[0],
        policy[1],
    ]);
    law_lists_in_a_schema(typed("string"@));
    law_lists_in_a_schema(typed("integer"@));
    law_lists_in_a_schema(
        crate::izakaya::tools::open_object(crate::izakaya::tools::claim_properties()),
    );
    law_lists_in_a_schema(
        crate::izakaya::tools::open_object(crate::izakaya::tools::action_properties()),
    );
}

/// A list in a schema says what its items are.
pub proof fn law_lists_in_a_schema(item: Json)
    ensures
        get(list_of(item), "type"@) == Some(Json::Str("array"@)),
        get(list_of(item), "items"@) == Some(item),
{
    let ms = seq![("type"@, Json::Str("array"@)), ("items"@, item)];
    reveal_strlit("type");
    reveal_strlit("items");
    assert("type"@.len() == 4);
    assert("items"@.len() == 5);
    assert(ms[0].0 == "type"@ && ms[1].0 == "items"@);
    lemma_record_get(ms, 0);
    lemma_record_get(ms, 1);
}

// ---------------------------------------------------------------------------
// Contexts and modules

/// What is asked of a context: a symbol, how many names at least, and how much may be given
/// back.
pub proof fn law_what_a_context_is_asked_for(args: Json)
    ensures
        ({
            let symbol = trimmed(str_or(args, "symbol"@, ""@));
            let max = u64_or(args, "max"@, 40);
            &&& ask_of(args) is None <==> symbol.len() == 0
            &&& ask_of(args) matches Some(a) ==> a.symbol == symbol && a.budget == u64_or(
                args,
                "token_budget"@,
                1600,
            ) && (max >= 1 ==> a.max == max) && (max == 0 ==> a.max == 1)
        }),
{
}

/// Lines are set in by two spaces.
pub proof fn law_lines_are_set_in(ls: Seq<Seq<char>>, n: nat)
    requires
        n <= ls.len(),
    ensures
        indented(ls, n) == flat(Seq::new(n, |i: int| "  "@ + ls[i] + "\n"@)),
    decreases n,
{
    reveal_strlit("");
    let all = Seq::new(n, |i: int| "  "@ + ls[i] + "\n"@);
    if n > 0 {
        let m = (n - 1) as nat;
        law_lines_are_set_in(ls, m);
        let before = Seq::new(m, |i: int| "  "@ + ls[i] + "\n"@);
        lemma_flat_push(before, all[n - 1]);
        assert(all =~= before.push(all[n - 1]));
        let e = indented(ls, m);
        assert(e + ("  "@ + ls[n - 1] + "\n"@) =~= e + "  "@ + ls[n - 1] + "\n"@);
    } else {
        assert(all =~= Seq::<Seq<char>>::empty());
    }
}

/// A body that fits is shown whole; of a longer one as many characters as fit, and a note.
pub proof fn law_bodies_are_cut(body: Seq<char>, cap: nat)
    ensures
        body.len() <= cap ==> clipped_body(body, cap) == indented(
            lines_of(body),
            lines_of(body).len(),
        ),
        body.len() > cap ==> ({
            let t = body.take(cap as int) + "\n… (truncated; raise token_budget)"@;
            clipped_body(body, cap) == indented(lines_of(t), lines_of(t).len())
        }),
{
}

/// A body may take three fifths of the budget, at four characters to a token.
pub proof fn law_share_of_a_body(budget: u64)
    ensures
        budget * 12 <= u64::MAX ==> body_cap(budget) == budget * 12 / 5,
{
}

/// What is said where there is no definition.
pub proof fn law_no_context(symbol: Seq<char>, paths: Seq<Seq<char>>, hint: Seq<char>)
    ensures
        missing(symbol, paths, hint) == "symbol_context - \""@ + symbol
            + "\": no definition found under "@ + listed(paths) + "\n"@ + hint,
{
}

/// The module of a file is its directory, or the first parts of it.
pub proof fn law_module_of_a_file(rel: Seq<char>, d: u64)
    ensures
        ({
            let parts = split_on(rel, '/');
            let n = parts.len() - 1;
            &&& n <= 0 ==> home_of(rel, None) == "."@ && home_of(rel, Some(d)) == "."@
            &&& n > 0 ==> home_of(rel, None) == joined(parts.take(n), "/"@)
            &&& 0 < n <= d ==> home_of(rel, Some(d)) == joined(parts.take(n), "/"@)
            &&& n > d ==> n > 0 && home_of(rel, Some(d)) == joined(parts.take(d as int), "/"@)
        }),
{
    let parts = split_on(rel, '/');
    if parts.len() > 1 {
        let dirs = parts.drop_last();
        assert(dirs =~= parts.take(parts.len() - 1));
        if d < dirs.len() {
            assert(dirs.take(d as int) =~= parts.take(d as int));
        }
    }
}

/// Of what links two modules some samples are shown, in order, as many as may be.
pub proof fn law_samples_of_links(v: Seq<(Seq<char>, Seq<char>)>, cap: nat)
    ensures
        v.len() <= cap ==> samples_text(v, cap) == joined(
            Seq::new(v.len(), |i: int| v[i].0 + " → "@ + v[i].1),
            ", "@,
        ),
        v.len() > cap ==> samples_text(v, cap) == joined(
            Seq::new(cap, |i: int| v[i].0 + " → "@ + v[i].1),
            ", "@,
        ),
{
    let f = |p: (Seq<char>, Seq<char>)| p.0 + " → "@ + p.1;
    if v.len() <= cap {
        assert(v.map_values(f) =~= Seq::new(v.len(), |i: int| v[i].0 + " → "@ + v[i].1));
    } else {
        assert(v.take(cap as int).map_values(f) =~= Seq::new(
            cap,
            |i: int| v[i].0 + " → "@ + v[i].1,
        ));
    }
}

} // verus!

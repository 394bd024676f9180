//! Command-line flags, and answers as text.
use vstd::prelude::*;
use crate::izakaya::replay::{incumbent_doc, incumbent_spec};
use crate::json::{
    add_member, array, as_str, as_u64, bool_or, build, flag_or, get, get_str, get_u64, members,
    json_pretty, no_members, object, pretty, record, serde_held, set_member, str_or, str_value,
    string_or, views, with_member, Datum, Json,
};
use crate::smap::{put, StrMap};
use crate::text::{blen, copy, cut, cut_to, opt_text, outcome, same, size, strs};

verus! {

/// The member that a flag with a value sets.
pub open spec fn value_key(flag: Seq<char>) -> Option<Seq<char>> {
    if flag == "--agent"@ {
        Some("agent_id"@)
    } else if flag == "--lease"@ {
        Some("lease_id"@)
    } else if flag == "--task"@ {
        Some("task"@)
    } else if flag == "--role"@ {
        Some("role"@)
    } else if flag == "--summary"@ {
        Some("summary"@)
    } else if flag == "--state"@ {
        Some("state"@)
    } else if flag == "--reason"@ {
        Some("reason"@)
    } else if flag == "--handoff-to"@ {
        Some("handoff_to"@)
    } else if flag == "--mas-session"@ {
        Some("mas_session"@)
    } else if flag == "--checkpoint"@ {
        Some("checkpoint"@)
    } else if flag == "--format"@ {
        Some("format"@)
    } else if flag == "--spec"@ {
        Some("spec"@)
    } else if flag == "--profile"@ {
        Some("profile"@)
    } else if flag == "--id"@ {
        Some("id"@)
    } else if flag == "--path"@ {
        Some("path"@)
    } else if flag == "--idempotency"@ {
        Some("idempotency_key"@)
    } else {
        None
    }
}

fn key_of_flag(flag: &str) -> (r: Option<&'static str>)
    ensures
        match r {
            Some(k) => value_key(flag@) == Some(k@),
            None => value_key(flag@) is None,
        },
{
    if same(flag, "--agent") {
        Some("agent_id")
    } else if same(flag, "--lease") {
        Some("lease_id")
    } else if same(flag, "--task") {
        Some("task")
    } else if same(flag, "--role") {
        Some("role")
    } else if same(flag, "--summary") {
        Some("summary")
    } else if same(flag, "--state") {
        Some("state")
    } else if same(flag, "--reason") {
        Some("reason")
    } else if same(flag, "--handoff-to") {
        Some("handoff_to")
    } else if same(flag, "--mas-session") {
        Some("mas_session")
    } else if same(flag, "--checkpoint") {
        Some("checkpoint")
    } else if same(flag, "--format") {
        Some("format")
    } else if same(flag, "--spec") {
        Some("spec")
    } else if same(flag, "--profile") {
        Some("profile")
    } else if same(flag, "--id") {
        Some("id")
    } else if same(flag, "--path") {
        Some("path")
    } else if same(flag, "--idempotency") {
        Some("idempotency_key")
    } else {
        None
    }
}

/// The member and the value that a flag without a value sets.
pub open spec fn switch_of(flag: Seq<char>) -> Option<(Seq<char>, bool)> {
    if flag == "--force"@ {
        Some(("force"@, true))
    } else if flag == "--no-git"@ {
        Some(("observe_git"@, false))
    } else if flag == "--include-checked-out"@ {
        Some(("include_checked_out"@, true))
    } else {
        None
    }
}

/// The arguments that flags make, read from a place on.
pub open spec fn flags_at(
    argv: Seq<Seq<char>>,
    i: int,
    m: Seq<(Seq<char>, Json)>,
    claims: Seq<Json>,
) -> Result<Json, Seq<char>>
    decreases argv.len() - i,
{
    if i < 0 || i >= argv.len() {
        Ok(
            Json::Object(
                if claims.len() == 0 {
                    m
                } else {
                    put(m, "claims"@, Json::Array(claims))
                },
            ),
        )
    } else {
        match switch_of(argv[i]) {
            Some((k, v)) => flags_at(argv, i + 1, put(m, k, Json::Bool(v)), claims),
            None => if value_key(argv[i]) is None && argv[i] != "--claim"@ {
                Err("unknown flag "@ + argv[i])
            } else if i + 1 >= argv.len() {
                Err(argv[i] + " needs a value"@)
            } else {
                match value_key(argv[i]) {
                    Some(k) => flags_at(argv, i + 2, put(m, k, Json::Str(argv[i + 1])), claims),
                    None => flags_at(argv, i + 2, m, claims.push(Json::Str(argv[i + 1]))),
                }
            },
        }
    }
}

pub open spec fn flags(argv: Seq<Seq<char>>) -> Result<Json, Seq<char>> {
    flags_at(argv, 0, Seq::empty(), Seq::empty())
}

pub fn parse_flags(argv: &Vec<String>) -> (r: Result<Datum, String>)
    ensures
        match (r, flags(strs(argv@))) {
            (Ok(a), Ok(b)) => a@ == b,
            (Err(a), Err(b)) => a@ == b,
            _ => false,
        },
        r matches Ok(v) ==> crate::json::ordered(v@),
{
    let mut m: StrMap<Datum> = StrMap::new();
    let mut claims: Vec<Datum> = Vec::new();
    let ghost all = strs(argv@);
    assert(views(claims@) =~= Seq::<Json>::empty());
    let mut i: usize = 0;
    while i < argv.len()
        invariant
            all == strs(argv@),
            i <= argv@.len(),
            m.wf(),
            flags(all) == flags_at(all, i as int, m@, views(claims@)),
        decreases argv@.len() - i,
    {
        let flag = argv[i].as_str();
        assert(all[i as int] == flag@);
        if same(flag, "--force") {
            m.insert("force", Datum::Bool(true));
            i = i + 1;
        } else if same(flag, "--no-git") {
            m.insert("observe_git", Datum::Bool(false));
            i = i + 1;
        } else if same(flag, "--include-checked-out") {
            m.insert("include_checked_out", Datum::Bool(true));
            i = i + 1;
        } else {
            let key = key_of_flag(flag);
            if key.is_none() && !same(flag, "--claim") {
                let mut e = copy("unknown flag ");
                e.append(flag);
                return Err(e);
            }
            if argv.len() - i < 2 {
                let mut e = copy(flag);
                e.append(" needs a value");
                return Err(e);
            }
            assert(all[i + 1] == argv@[i + 1]@);
            let value = str_value(argv[i + 1].as_str());
            match key {
                Some(k) => {
                    m.insert(k, value);
                },
                None => {
                    let ghost before = views(claims@);
                    let ghost shown = value@;
                    claims.push(value);
                    assert(views(claims@) =~= before.push(shown));
                },
            }
            i = i + 2;
        }
    }
    assert(views(claims@).len() == claims@.len());
    if claims.len() > 0 {
        m.insert("claims", array(claims));
    }
    assert(members(m.entries@) =~= m@);
    Ok(object(m.entries))
}

/// A member as it is, or a default.
pub open spec fn member_or(j: Json, key: Seq<char>, default: Json) -> Json {
    match get(j, key) {
        Some(v) => v,
        None => default,
    }
}

fn copy_or(v: &Datum, key: &str, default: Datum) -> (r: Datum)
    ensures
        r@ == member_or(v@, key@, default@),
{
    match v.get(key) {
        Some(x) => x.copy(),
        None => default,
    }
}

/// The hand-off that a check-out on the command line describes.
pub open spec fn handoff_flags(j: Json) -> Json {
    record(
        seq![
            ("checkpoint"@, member_or(j, "checkpoint"@, Json::Null)),
            ("mas_session"@, member_or(j, "mas_session"@, Json::Null)),
            ("summary"@, member_or(j, "summary"@, Json::Str(""@))),
            ("to"@, member_or(j, "handoff_to"@, Json::Str(""@))),
        ],
    )
}

/// The arguments of a check-out: one that names a taker is a hand-off.
pub open spec fn check_out_args(j: Json) -> Json {
    if get(j, "handoff_to"@) is Some || get(j, "to"@) is Some {
        with_member(
            with_member(j, "handoff"@, handoff_flags(j)),
            "reason"@,
            Json::Str("handed_off"@),
        )
    } else {
        j
    }
}

pub fn complete_check_out(args: Datum) -> (r: Datum)
    requires
        crate::json::ordered(args@),
    ensures
        r@ == check_out_args(args@),
{
    if args.get("handoff_to").is_some() || args.get("to").is_some() {
        let ghost j = args@;
        let mut ms = no_members();
        add_member(&mut ms, "checkpoint", copy_or(&args, "checkpoint", Datum::Null));
        add_member(&mut ms, "mas_session", copy_or(&args, "mas_session", Datum::Null));
        add_member(&mut ms, "summary", copy_or(&args, "summary", str_value("")));
        add_member(&mut ms, "to", copy_or(&args, "handoff_to", str_value("")));
        assert(members(ms@) =~= seq![
            ("checkpoint"@, member_or(j, "checkpoint"@, Json::Null)),
            ("mas_session"@, member_or(j, "mas_session"@, Json::Null)),
            ("summary"@, member_or(j, "summary"@, Json::Str(""@))),
            ("to"@, member_or(j, "handoff_to"@, Json::Str(""@))),
        ]);
        let handed = set_member(args, "handoff", build(ms));
        set_member(handed, "reason", str_value("handed_off"))
    } else {
        args
    }
}

/// The text of an answer.
pub open spec fn shown(v: Json) -> Result<Seq<char>, Seq<char>> {
    match as_str(get(v, "text"@)) {
        Some(t) => Ok(t),
        None => Err("missing text"@),
    }
}

pub fn render_text(v: &Datum) -> (r: Result<String, String>)
    ensures
        outcome(r) == shown(v@),
{
    match get_str(v, "text") {
        Some(t) => Ok(copy(t.as_str())),
        None => Err(copy("missing text")),
    }
}

/// How many bytes an answer may have: four for each token, and at least a few.
pub open spec fn byte_budget(tokens: u64) -> nat {
    if tokens * 4 > u64::MAX {
        u64::MAX as nat
    } else if tokens * 4 < 32 {
        32
    } else {
        (tokens * 4) as nat
    }
}

/// An answer within the budget of a call.
pub open spec fn clipped(text: Seq<char>, tokens: u64) -> Seq<char> {
    if blen(text) > byte_budget(tokens) {
        cut_to(text, byte_budget(tokens)) + "\n…(truncated)\n"@
    } else {
        text
    }
}

pub open spec fn token_budget(j: Json) -> u64 {
    match as_u64(get(j, "token_budget"@)) {
        Some(n) => n,
        None => 1200,
    }
}

/// Cuts an answer down to the budget of its call.
pub fn clip(text: String, args: &Datum) -> (r: String)
    ensures
        r@ == clipped(text@, token_budget(args@)),
{
    let tokens: u64 = match get_u64(args, "token_budget") {
        Some(n) => n,
        None => 1200,
    };
    let bytes: u64 = if tokens > u64::MAX / 4 {
        u64::MAX
    } else if tokens * 4 < 32 {
        32
    } else {
        tokens * 4
    };
    assert(bytes == byte_budget(tokens));
    let have: usize = size(text.as_str());
    if have as u64 > bytes {
        let mut out = cut(text.as_str(), bytes as usize);
        out.append("\n…(truncated)\n");
        out
    } else {
        text
    }
}

/// The policy that a call asks to replay; the incumbent unless one is given.
pub open spec fn policy_given(j: Json) -> Json {
    if bool_or(j, "incumbent"@, false) {
        incumbent_doc()
    } else {
        match get(j, "policy"@) {
            Some(p) => p,
            None => incumbent_doc(),
        }
    }
}

pub fn choose_policy(args: &Datum) -> (r: Datum)
    ensures
        r@ == policy_given(args@),
{
    if flag_or(args, "incumbent", false) {
        incumbent_spec()
    } else {
        match args.get("policy") {
            Some(p) => p.copy(),
            None => incumbent_spec(),
        }
    }
}

/// An answer within its budget is not changed; one that is cut keeps a prefix of
/// itself that fits the budget.
pub proof fn law_clip_keeps_a_prefix(text: Seq<char>, tokens: u64)
    ensures
        blen(text) <= byte_budget(tokens) ==> clipped(text, tokens) == text,
        blen(text) > byte_budget(tokens) ==> {
            let kept = cut_to(text, byte_budget(tokens));
            clipped(text, tokens) == kept + "\n…(truncated)\n"@ && kept.is_prefix_of(text) && blen(
                kept,
            ) <= byte_budget(tokens)
        },
{
    crate::text::lemma_cut(text, byte_budget(tokens));
}

// ---------------------------------------------------------------------------
// Commands

/// What can be asked of the board and of the policies.
#[derive(Clone, Copy, PartialEq, Eq, Structural)]
pub enum Action {
    Help,
    Status,
    CheckIn,
    Update,
    CheckOut,
    RecordDecision,
    RecordOutcome,
    Replay,
    Advise,
    ListPolicies,
    Evaluate,
    Promote,
    Retire,
}

/// A command: what it asks for, its arguments, how its answer is shown, and the
/// policy that it names.
pub struct Command {
    pub action: Action,
    pub args: Datum,
    pub format: Option<String>,
    pub name: String,
    pub profile: String,
}

#[verifier::ext_equal]
pub struct CommandView {
    pub action: Action,
    pub args: Json,
    pub format: Option<Seq<char>>,
    pub name: Seq<char>,
    pub profile: Seq<char>,
}

impl View for Command {
    type V = CommandView;

    open spec fn view(&self) -> CommandView {
        CommandView {
            action: self.action,
            args: self.args@,
            format: opt_text(self.format),
            name: self.name@,
            profile: self.profile@,
        }
    }
}

pub open spec fn command_outcome(r: Result<Command, String>) -> Result<CommandView, Seq<char>> {
    match r {
        Ok(c) => Ok(c@),
        Err(e) => Err(e@),
    }
}

pub open spec fn help() -> Seq<char> {
    "wordkeep izakaya status [--agent ID] [--state checked_in|live_code|suspended|checked_out|stale] [--format json]\nwordkeep izakaya check-in --agent ID [--task TEXT] [--claim PATH] [--force] [--no-git]\nwordkeep izakaya update --agent ID --lease LEASE [--state live_code|suspended|checked_in] [--checkpoint REF]\nwordkeep izakaya check-out --agent ID --lease LEASE [--reason completed|handed_off|abandoned] [--handoff-to ID]\nwordkeep izakaya policy list\nwordkeep izakaya policy evaluate --spec FILE [--profile ID]\nwordkeep izakaya policy promote --spec FILE [--profile ID]\nwordkeep izakaya policy retire --id POLICY\n"@
}

pub fn help_text() -> (r: String)
    ensures
        r@ == help(),
{
    copy(
        "wordkeep izakaya status [--agent ID] [--state checked_in|live_code|suspended|checked_out|stale] [--format json]\nwordkeep izakaya check-in --agent ID [--task TEXT] [--claim PATH] [--force] [--no-git]\nwordkeep izakaya update --agent ID --lease LEASE [--state live_code|suspended|checked_in] [--checkpoint REF]\nwordkeep izakaya check-out --agent ID --lease LEASE [--reason completed|handed_off|abandoned] [--handoff-to ID]\nwordkeep izakaya policy list\nwordkeep izakaya policy evaluate --spec FILE [--profile ID]\nwordkeep izakaya policy promote --spec FILE [--profile ID]\nwordkeep izakaya policy retire --id POLICY\n",
    )
}

pub open spec fn plain_command(action: Action, args: Json) -> CommandView {
    CommandView {
        action,
        args,
        format: as_str(get(args, "format"@)),
        name: ""@,
        profile: str_or(args, "profile"@, "coordination"@),
    }
}

fn make_command(action: Action, args: Datum, name: String) -> (r: Command)
    ensures
        r@ == (CommandView { name: name@, ..plain_command(action, args@) }),
{
    let format = match get_str(&args, "format") {
        Some(s) => Some(copy(s.as_str())),
        None => None,
    };
    let profile = string_or(&args, "profile", "coordination");
    Command { action, args, format, name, profile }
}

/// The command on the board with a name.
pub open spec fn board_action(name: Seq<char>) -> Option<Action> {
    if name == "status"@ {
        Some(Action::Status)
    } else if name == "check-in"@ {
        Some(Action::CheckIn)
    } else if name == "update"@ {
        Some(Action::Update)
    } else if name == "check-out"@ {
        Some(Action::CheckOut)
    } else {
        None
    }
}

fn read_board_action(name: &str) -> (r: Option<Action>)
    ensures
        r == board_action(name@),
{
    if same(name, "status") {
        Some(Action::Status)
    } else if same(name, "check-in") {
        Some(Action::CheckIn)
    } else if same(name, "update") {
        Some(Action::Update)
    } else if same(name, "check-out") {
        Some(Action::CheckOut)
    } else {
        None
    }
}

/// A command on policies.
pub open spec fn policy_command(argv: Seq<Seq<char>>) -> Result<CommandView, Seq<char>> {
    if argv.len() == 0 {
        Err(help())
    } else if argv[0] == "list"@ {
        Ok(plain_command(Action::ListPolicies, Json::Object(Seq::empty())))
    } else if argv[0] == "evaluate"@ || argv[0] == "promote"@ {
        match flags(argv.skip(1)) {
            Err(e) => Err(e),
            Ok(args) => match as_str(get(args, "spec"@)) {
                None => Err("policy evaluate/promote requires --spec FILE"@),
                Some(spec) => Ok(
                    CommandView {
                        name: spec,
                        ..plain_command(
                            if argv[0] == "evaluate"@ {
                                Action::Evaluate
                            } else {
                                Action::Promote
                            },
                            args,
                        )
                    },
                ),
            },
        }
    } else if argv[0] == "retire"@ {
        match flags(argv.skip(1)) {
            Err(e) => Err(e),
            Ok(args) => match as_str(get(args, "id"@)) {
                None => Err("policy retire requires --id"@),
                Some(id) => Ok(CommandView { name: id, ..plain_command(Action::Retire, args) }),
            },
        }
    } else {
        Err("unknown policy command "@ + argv[0])
    }
}

/// The command that a command line gives.
pub open spec fn command(argv: Seq<Seq<char>>) -> Result<CommandView, Seq<char>> {
    if argv.len() == 0 || argv[0] == "--help"@ || argv[0] == "help"@ {
        Ok(plain_command(Action::Help, Json::Object(Seq::empty())))
    } else if argv[0] == "policy"@ {
        policy_command(argv.skip(1))
    } else {
        match board_action(argv[0]) {
            Some(action) => match flags(argv.skip(1)) {
                Err(e) => Err(e),
                Ok(args) => Ok(
                    plain_command(
                        action,
                        if action == Action::CheckOut {
                            check_out_args(args)
                        } else {
                            args
                        },
                    ),
                ),
            },
            None => Err("unknown izakaya command "@ + argv[0] + "\n"@ + help()),
        }
    }
}

fn skip_one(argv: &Vec<String>) -> (r: Vec<String>)
    requires
        argv@.len() > 0,
    ensures
        strs(r@) == strs(argv@).skip(1),
{
    let mut out: Vec<String> = Vec::new();
    for i in 1..argv.len()
        invariant
            out@.len() == i - 1,
            forall|k: int| 0 <= k < i - 1 ==> (#[trigger] out@[k])@ == argv@[k + 1]@,
    {
        out.push(copy(argv[i].as_str()));
    }
    assert(strs(out@) =~= strs(argv@).skip(1));
    out
}

fn no_args() -> (r: Datum)
    ensures
        r@ == Json::Object(Seq::empty()),
{
    object(no_members())
}

fn read_policy_command(argv: &Vec<String>) -> (r: Result<Command, String>)
    ensures
        command_outcome(r) == policy_command(strs(argv@)),
{
    let ghost av = strs(argv@);
    assert(av.len() == argv@.len());
    if argv.len() == 0 {
        return Err(help_text());
    }
    assert(av[0] == argv@[0]@);
    let first = argv[0].as_str();
    if same(first, "list") {
        return Ok(make_command(Action::ListPolicies, no_args(), copy("")));
    }
    if same(first, "evaluate") || same(first, "promote") {
        let args = match parse_flags(&skip_one(argv)) {
            Ok(a) => a,
            Err(e) => {
                return Err(e);
            },
        };
        let spec = match get_str(&args, "spec") {
            Some(s) => copy(s.as_str()),
            None => {
                return Err(copy("policy evaluate/promote requires --spec FILE"));
            },
        };
        let action = if same(first, "evaluate") {
            Action::Evaluate
        } else {
            Action::Promote
        };
        return Ok(make_command(action, args, spec));
    }
    if same(first, "retire") {
        let args = match parse_flags(&skip_one(argv)) {
            Ok(a) => a,
            Err(e) => {
                return Err(e);
            },
        };
        let id = match get_str(&args, "id") {
            Some(s) => copy(s.as_str()),
            None => {
                return Err(copy("policy retire requires --id"));
            },
        };
        return Ok(make_command(Action::Retire, args, id));
    }
    let mut e = copy("unknown policy command ");
    e.append(first);
    Err(e)
}

/// Reads a command line.
pub fn read_command(argv: &Vec<String>) -> (r: Result<Command, String>)
    ensures
        command_outcome(r) == command(strs(argv@)),
{
    let ghost av = strs(argv@);
    assert(av.len() == argv@.len());
    if argv.len() == 0 {
        return Ok(make_command(Action::Help, no_args(), copy("")));
    }
    assert(av[0] == argv@[0]@);
    let first = argv[0].as_str();
    if same(first, "--help") || same(first, "help") {
        return Ok(make_command(Action::Help, no_args(), copy("")));
    }
    if same(first, "policy") {
        return read_policy_command(&skip_one(argv));
    }
    match read_board_action(first) {
        Some(action) => {
            let args = match parse_flags(&skip_one(argv)) {
                Ok(a) => a,
                Err(e) => {
                    return Err(e);
                },
            };
            let args = if action == Action::CheckOut {
                complete_check_out(args)
            } else {
                args
            };
            Ok(make_command(action, args, copy("")))
        },
        None => {
            let mut e = copy("unknown izakaya command ");
            e.append(first);
            e.append("\n");
            e.append(help_text().as_str());
            Err(e)
        },
    }
}

/// An answer on the command line: as JSON where that is asked for, or else its
/// text.
pub open spec fn rendered(v: Json, format: Option<Seq<char>>) -> Result<Seq<char>, Seq<char>> {
    if format == Some("json"@) {
        Ok(json_pretty(serde_held(v)))
    } else {
        shown(v)
    }
}

pub fn render(v: &Datum, format: &Option<String>) -> (r: Result<String, String>)
    ensures
        outcome(r) == rendered(v@, opt_text(*format)),
{
    let json: bool = match format {
        Some(f) => same(f.as_str(), "json"),
        None => false,
    };
    if json {
        Ok(pretty(v))
    } else {
        render_text(v)
    }
}

/// The action of the tool with a name.
pub open spec fn tool_action(name: Seq<char>) -> Result<Action, Seq<char>> {
    if name == "izakaya_status"@ {
        Ok(Action::Status)
    } else if name == "izakaya_check_in"@ {
        Ok(Action::CheckIn)
    } else if name == "izakaya_update"@ {
        Ok(Action::Update)
    } else if name == "izakaya_check_out"@ {
        Ok(Action::CheckOut)
    } else if name == "izakaya_record_decision"@ {
        Ok(Action::RecordDecision)
    } else if name == "izakaya_record_outcome"@ {
        Ok(Action::RecordOutcome)
    } else if name == "izakaya_replay"@ {
        Ok(Action::Replay)
    } else if name == "izakaya_advise"@ {
        Ok(Action::Advise)
    } else {
        Err("unknown izakaya tool "@ + name)
    }
}

pub open spec fn action_outcome(r: Result<Action, String>) -> Result<Action, Seq<char>> {
    match r {
        Ok(a) => Ok(a),
        Err(e) => Err(e@),
    }
}

/// Finds what the tool with a name does.
pub fn read_tool(name: &str) -> (r: Result<Action, String>)
    ensures
        action_outcome(r) == tool_action(name@),
{
    if same(name, "izakaya_status") {
        Ok(Action::Status)
    } else if same(name, "izakaya_check_in") {
        Ok(Action::CheckIn)
    } else if same(name, "izakaya_update") {
        Ok(Action::Update)
    } else if same(name, "izakaya_check_out") {
        Ok(Action::CheckOut)
    } else if same(name, "izakaya_record_decision") {
        Ok(Action::RecordDecision)
    } else if same(name, "izakaya_record_outcome") {
        Ok(Action::RecordOutcome)
    } else if same(name, "izakaya_replay") {
        Ok(Action::Replay)
    } else if same(name, "izakaya_advise") {
        Ok(Action::Advise)
    } else {
        let mut e = copy("unknown izakaya tool ");
        e.append(name);
        Err(e)
    }
}

/// The answer of a tool: as JSON or as text, within the budget of the call.
pub open spec fn tool_answer(v: Json, args: Json) -> Seq<char> {
    clipped(
        if str_or(args, "format"@, "text"@) == "json"@ {
            json_pretty(serde_held(v))
        } else {
            str_or(v, "text"@, ""@)
        },
        token_budget(args),
    )
}

pub fn answer_tool(v: &Datum, args: &Datum) -> (r: String)
    ensures
        r@ == tool_answer(v@, args@),
{
    let text = if same(string_or(args, "format", "text").as_str(), "json") {
        pretty(v)
    } else {
        string_or(v, "text", "")
    };
    clip(text, args)
}

/// Every tool that is offered has an action, and no two have the same.
pub proof fn law_offered_tools_have_actions(i: int, j: int)
    requires
        0 <= i < j < crate::izakaya::tools::all_tools().len(),
    ensures
        tool_action(crate::izakaya::tools::all_tools()[i].name) is Ok,
        tool_action(crate::izakaya::tools::all_tools()[j].name) is Ok,
        tool_action(crate::izakaya::tools::all_tools()[i].name) != tool_action(
            crate::izakaya::tools::all_tools()[j].name,
        ),
{
    reveal_strlit("izakaya_status");
    reveal_strlit("izakaya_check_in");
    reveal_strlit("izakaya_update");
    reveal_strlit("izakaya_check_out");
    reveal_strlit("izakaya_record_decision");
    reveal_strlit("izakaya_record_outcome");
    reveal_strlit("izakaya_replay");
    reveal_strlit("izakaya_advise");
    assert("izakaya_status"@.len() == 14 && "izakaya_status"@[8] == 's');
    assert("izakaya_update"@.len() == 14 && "izakaya_update"@[8] == 'u');
    assert("izakaya_replay"@.len() == 14 && "izakaya_replay"@[8] == 'r');
    assert("izakaya_advise"@.len() == 14 && "izakaya_advise"@[8] == 'a');
    assert("izakaya_check_in"@.len() == 16);
    assert("izakaya_check_out"@.len() == 17);
    assert("izakaya_record_decision"@.len() == 23);
    assert("izakaya_record_outcome"@.len() == 22);
}

} // verus!

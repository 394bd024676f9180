//! A tool server: what each request is answered.
//!
//! Requests and answers are JSON-RPC values, one to a line. A request without an
//! id is a notification and gets no answer.
use vstd::prelude::*;
use crate::json::{
    add_member, array, build, get, no_members, record, str_or, str_value, string_or, Datum,
    Json,
};
use crate::text::{copy, outcome, same};

verus! {

/// A tool that can be called.
pub struct Tool {
    pub name: String,
    pub description: String,
    pub input_schema: Datum,
}

/// The values of a [`Tool`].
pub struct ToolView {
    pub name: Seq<char>,
    pub description: Seq<char>,
    pub input_schema: Json,
}

impl View for Tool {
    type V = ToolView;

    open spec fn view(&self) -> ToolView {
        ToolView {
            name: self.name@,
            description: self.description@,
            input_schema: self.input_schema@,
        }
    }
}

pub open spec fn tool_views(v: Seq<Tool>) -> Seq<ToolView> {
    Seq::new(v.len(), |i: int| v[i]@)
}

/// The tools of a server, and what it calls itself.
pub struct Server {
    pub tools: Vec<Tool>,
    pub server_name: String,
    pub server_version: String,
}

/// The values of a [`Server`].
pub struct ServerView {
    pub tools: Seq<ToolView>,
    pub server_name: Seq<char>,
    pub server_version: Seq<char>,
}

impl View for Server {
    type V = ServerView;

    open spec fn view(&self) -> ServerView {
        ServerView {
            tools: tool_views(self.tools@),
            server_name: self.server_name@,
            server_version: self.server_version@,
        }
    }
}

/// What a request leads to.
pub enum Step {
    /// A notification: nothing is answered.
    Quiet,
    /// An answer that is ready.
    Answer(Datum),
    /// A call of the tool at a position; its outcome makes the answer.
    Call { id: Datum, tool: usize, arguments: Datum },
}

/// The values of a [`Step`].
pub enum StepView {
    Quiet,
    Answer(Json),
    Call { id: Json, tool: nat, arguments: Json },
}

impl View for Step {
    type V = StepView;

    open spec fn view(&self) -> StepView {
        match *self {
            Step::Quiet => StepView::Quiet,
            Step::Answer(d) => StepView::Answer(d@),
            Step::Call { id, tool, arguments } => StepView::Call {
                id: id@,
                tool: tool as nat,
                arguments: arguments@,
            },
        }
    }
}

/// An answer with a result.
pub open spec fn result_of(id: Json, result: Json) -> Json {
    record(seq![("jsonrpc"@, Json::Str("2.0"@)), ("id"@, id), ("result"@, result)])
}

/// An answer with an error.
pub open spec fn error_of(id: Json, code: i64, message: Seq<char>) -> Json {
    record(
        seq![
            ("jsonrpc"@, Json::Str("2.0"@)),
            ("id"@, id),
            (
                "error"@,
                record(seq![("code"@, Json::NInt(code)), ("message"@, Json::Str(message))]),
            ),
        ],
    )
}

fn ok_result(id: Datum, result: Datum) -> (r: Datum)
    ensures
        r@ == result_of(id@, result@),
{
    let mut ms = no_members();
    let ghost iv = id@;
    let ghost rv = result@;
    add_member(&mut ms, "jsonrpc", str_value("2.0"));
    add_member(&mut ms, "id", id);
    add_member(&mut ms, "result", result);
    assert(crate::json::members(ms@) =~= seq![
        ("jsonrpc"@, Json::Str("2.0"@)),
        ("id"@, iv),
        ("result"@, rv),
    ]);
    build(ms)
}

fn err_response(id: Datum, code: i64, message: &str) -> (r: Datum)
    requires
        code < 0,
    ensures
        r@ == error_of(id@, code, message@),
{
    let ghost iv = id@;
    let mut es = no_members();
    add_member(&mut es, "code", Datum::NInt(code));
    add_member(&mut es, "message", str_value(message));
    assert(crate::json::members(es@) =~= seq![
        ("code"@, Json::NInt(code)),
        ("message"@, Json::Str(message@)),
    ]);
    let mut ms = no_members();
    add_member(&mut ms, "jsonrpc", str_value("2.0"));
    add_member(&mut ms, "id", id);
    add_member(&mut ms, "error", build(es));
    assert(crate::json::members(ms@) =~= seq![
        ("jsonrpc"@, Json::Str("2.0"@)),
        ("id"@, iv),
        (
            "error"@,
            record(seq![("code"@, Json::NInt(code)), ("message"@, Json::Str(message@))]),
        ),
    ]);
    build(ms)
}

/// What a client is told at the start. Its own protocol version is echoed.
pub open spec fn greeting(s: ServerView, params: Json) -> Json {
    record(
        seq![
            ("protocolVersion"@, Json::Str(str_or(params, "protocolVersion"@, "2025-06-18"@))),
            (
                "capabilities"@,
                record(seq![("tools"@, record(seq![("listChanged"@, Json::Bool(false))]))]),
            ),
            (
                "serverInfo"@,
                record(
                    seq![
                        ("name"@, Json::Str(s.server_name)),
                        ("version"@, Json::Str(s.server_version)),
                    ],
                ),
            ),
        ],
    )
}

/// A tool as it is listed.
pub open spec fn tool_json(t: ToolView) -> Json {
    record(
        seq![
            ("name"@, Json::Str(t.name)),
            ("description"@, Json::Str(t.description)),
            ("inputSchema"@, t.input_schema),
        ],
    )
}

pub open spec fn listing(tools: Seq<ToolView>) -> Json {
    record(seq![("tools"@, Json::Array(tools.map_values(|t: ToolView| tool_json(t))))])
}

pub open spec fn tool_from(tools: Seq<ToolView>, name: Seq<char>, k: int) -> Option<int>
    decreases tools.len() - k,
{
    if k < 0 || k >= tools.len() {
        None
    } else if tools[k].name == name {
        Some(k)
    } else {
        tool_from(tools, name, k + 1)
    }
}

/// What a call leads to.
pub open spec fn call_step(tools: Seq<ToolView>, params: Json, id: Json) -> StepView {
    let name = str_or(params, "name"@, ""@);
    match tool_from(tools, name, 0) {
        Some(k) => StepView::Call {
            id,
            tool: k as nat,
            arguments: match get(params, "arguments"@) {
                Some(a) => a,
                None => record(Seq::empty()),
            },
        },
        None => StepView::Answer(error_of(id, (-32602) as i64, "unknown tool: "@ + name)),
    }
}

/// What a request leads to.
pub open spec fn step_of(s: ServerView, req: Json) -> StepView {
    let method = str_or(req, "method"@, ""@);
    let params = match get(req, "params"@) {
        Some(p) => p,
        None => Json::Null,
    };
    match get(req, "id"@) {
        None => StepView::Quiet,
        Some(id) => if method == "initialize"@ {
            StepView::Answer(result_of(id, greeting(s, params)))
        } else if method == "tools/list"@ {
            StepView::Answer(result_of(id, listing(s.tools)))
        } else if method == "tools/call"@ {
            call_step(s.tools, params, id)
        } else if method == "ping"@ {
            StepView::Answer(result_of(id, record(Seq::empty())))
        } else {
            StepView::Answer(error_of(id, (-32601) as i64, "method not found: "@ + method))
        },
    }
}

/// What the outcome of a call is answered. A tool that fails is no protocol error.
pub open spec fn call_answer(id: Json, o: Result<Seq<char>, Seq<char>>) -> Json {
    let text = match o {
        Ok(t) => t,
        Err(e) => "error: "@ + e,
    };
    result_of(
        id,
        record(
            seq![
                (
                    "content"@,
                    Json::Array(
                        seq![
                            record(
                                seq![("type"@, Json::Str("text"@)), ("text"@, Json::Str(text))],
                            ),
                        ],
                    ),
                ),
                ("isError"@, Json::Bool(o is Err)),
            ],
        ),
    )
}

fn empty_object() -> (r: Datum)
    ensures
        r@ == record(Seq::empty()),
{
    let ms = no_members();
    build(ms)
}

fn find_tool(tools: &Vec<Tool>, name: &str) -> (r: Option<usize>)
    ensures
        crate::syntax::place(r) == tool_from(tool_views(tools@), name@, 0),
{
    for k in 0..tools.len()
        invariant
            tool_from(tool_views(tools@), name@, 0) == tool_from(
                tool_views(tools@),
                name@,
                k as int,
            ),
    {
        assert(tool_views(tools@)[k as int] == tools@[k as int]@);
        if same(tools[k].name.as_str(), name) {
            return Some(k);
        }
    }
    None
}

impl Server {
    fn handle_initialize(&self, params: &Datum) -> (r: Datum)
        ensures
            r@ == greeting(self@, params@),
    {
        let mut ls = no_members();
        add_member(&mut ls, "listChanged", Datum::Bool(false));
        assert(crate::json::members(ls@) =~= seq![("listChanged"@, Json::Bool(false))]);
        let mut cs = no_members();
        add_member(&mut cs, "tools", build(ls));
        assert(crate::json::members(cs@) =~= seq![
            ("tools"@, record(seq![("listChanged"@, Json::Bool(false))])),
        ]);
        let mut ss = no_members();
        add_member(&mut ss, "name", str_value(self.server_name.as_str()));
        add_member(&mut ss, "version", str_value(self.server_version.as_str()));
        assert(crate::json::members(ss@) =~= seq![
            ("name"@, Json::Str(self@.server_name)),
            ("version"@, Json::Str(self@.server_version)),
        ]);
        let pv = string_or(params, "protocolVersion", "2025-06-18");
        let mut ms = no_members();
        add_member(&mut ms, "protocolVersion", str_value(pv.as_str()));
        add_member(&mut ms, "capabilities", build(cs));
        add_member(&mut ms, "serverInfo", build(ss));
        assert(crate::json::members(ms@) =~= seq![
            ("protocolVersion"@, Json::Str(pv@)),
            (
                "capabilities"@,
                record(seq![("tools"@, record(seq![("listChanged"@, Json::Bool(false))]))]),
            ),
            (
                "serverInfo"@,
                record(
                    seq![
                        ("name"@, Json::Str(self@.server_name)),
                        ("version"@, Json::Str(self@.server_version)),
                    ],
                ),
            ),
        ]);
        build(ms)
    }

    fn handle_list(&self) -> (r: Datum)
        ensures
            r@ == listing(self@.tools),
    {
        let mut items: Vec<Datum> = Vec::new();
        for i in 0..self.tools.len()
            invariant
                items@.len() == i,
                forall|k: int|
                    0 <= k < i ==> (#[trigger] items@[k])@ == tool_json(self.tools@[k]@),
        {
            let t = &self.tools[i];
            let mut ms = no_members();
            add_member(&mut ms, "name", str_value(t.name.as_str()));
            add_member(&mut ms, "description", str_value(t.description.as_str()));
            add_member(&mut ms, "inputSchema", t.input_schema.copy());
            assert(crate::json::members(ms@) =~= seq![
                ("name"@, Json::Str(t@.name)),
                ("description"@, Json::Str(t@.description)),
                ("inputSchema"@, t@.input_schema),
            ]);
            items.push(build(ms));
        }
        assert(crate::json::views(items@) =~= self@.tools.map_values(
            |t: ToolView| tool_json(t),
        ));
        let mut ms = no_members();
        let list = array(items);
        let ghost lv = list@;
        add_member(&mut ms, "tools", list);
        assert(crate::json::members(ms@) =~= seq![("tools"@, lv)]);
        build(ms)
    }

    /// Decides what a request leads to.
    pub fn handle(&self, req: &Datum) -> (r: Step)
        ensures
            r@ == step_of(self@, req@),
    {
        let method = string_or(req, "method", "");
        let null = Datum::Null;
        let params: &Datum = match req.get("params") {
            Some(p) => p,
            None => &null,
        };
        let id: Datum = match req.get("id") {
            Some(id) => id.copy(),
            None => {
                return Step::Quiet;
            },
        };
        if same(method.as_str(), "initialize") {
            Step::Answer(ok_result(id, self.handle_initialize(params)))
        } else if same(method.as_str(), "tools/list") {
            Step::Answer(ok_result(id, self.handle_list()))
        } else if same(method.as_str(), "tools/call") {
            let name = string_or(params, "name", "");
            match find_tool(&self.tools, name.as_str()) {
                Some(k) => Step::Call {
                    id,
                    tool: k,
                    arguments: match params.get("arguments") {
                        Some(a) => a.copy(),
                        None => empty_object(),
                    },
                },
                None => {
                    let mut m = copy("unknown tool: ");
                    m.append(name.as_str());
                    Step::Answer(err_response(id, -32602, m.as_str()))
                },
            }
        } else if same(method.as_str(), "ping") {
            Step::Answer(ok_result(id, empty_object()))
        } else {
            let mut m = copy("method not found: ");
            m.append(method.as_str());
            Step::Answer(err_response(id, -32601, m.as_str()))
        }
    }
}

/// The answer to a call, given its outcome.
pub fn answer_call(id: Datum, o: &Result<String, String>) -> (r: Datum)
    ensures
        r@ == call_answer(id@, outcome(*o)),
{
    let (text, failed): (String, bool) = match o {
        Ok(t) => (copy(t.as_str()), false),
        Err(e) => {
            let mut m = copy("error: ");
            m.append(e.as_str());
            (m, true)
        },
    };
    let mut ts = no_members();
    add_member(&mut ts, "type", str_value("text"));
    add_member(&mut ts, "text", str_value(text.as_str()));
    let ghost part = seq![("type"@, Json::Str("text"@)), ("text"@, Json::Str(text@))];
    assert(crate::json::members(ts@) =~= part);
    let mut items: Vec<Datum> = Vec::new();
    items.push(build(ts));
    assert(crate::json::views(items@) =~= seq![record(part)]);
    let mut ms = no_members();
    add_member(&mut ms, "content", array(items));
    add_member(&mut ms, "isError", Datum::Bool(failed));
    assert(crate::json::members(ms@) =~= seq![
        ("content"@, Json::Array(seq![record(part)])),
        ("isError"@, Json::Bool(failed)),
    ]);
    ok_result(id, build(ms))
}

// ---------------------------------------------------------------------------
// Laws

/// A request with an id is always answered under that id, or is a call of a tool
/// that the server has; one without is not.
pub proof fn law_requests_are_answered(s: ServerView, req: Json)
    ensures
        match get(req, "id"@) {
            None => step_of(s, req) == StepView::Quiet,
            Some(id) => match step_of(s, req) {
                StepView::Quiet => false,
                StepView::Answer(a) => get(a, "id"@) == Some(id),
                StepView::Call { id: i, tool, arguments } => i == id && tool < s.tools.len()
                    && s.tools[tool as int].name == str_or(
                    match get(req, "params"@) {
                        Some(p) => p,
                        None => Json::Null,
                    },
                    "name"@,
                    ""@,
                ),
            },
        },
{
    if let Some(id) = get(req, "id"@) {
        let params = match get(req, "params"@) {
            Some(p) => p,
            None => Json::Null,
        };
        let method = str_or(req, "method"@, ""@);
        lemma_answers_carry_id(id, greeting(s, params));
        lemma_answers_carry_id(id, listing(s.tools));
        lemma_answers_carry_id(id, record(Seq::empty()));
        lemma_errors_carry_id(id, (-32601) as i64, "method not found: "@ + method);
        lemma_errors_carry_id(id, (-32602) as i64, "unknown tool: "@ + str_or(params, "name"@, ""@));
        lemma_tool_from(s.tools, str_or(params, "name"@, ""@), 0);
    }
}

/// The outcome of a call is answered under the id of the call.
pub proof fn law_call_answers_carry_the_id(id: Json, o: Result<Seq<char>, Seq<char>>)
    ensures
        get(call_answer(id, o), "id"@) == Some(id),
{
    let text = match o {
        Ok(t) => t,
        Err(e) => "error: "@ + e,
    };
    let body = record(
        seq![
            (
                "content"@,
                Json::Array(
                    seq![record(seq![("type"@, Json::Str("text"@)), ("text"@, Json::Str(text))])],
                ),
            ),
            ("isError"@, Json::Bool(o is Err)),
        ],
    );
    lemma_answers_carry_id(id, body);
}

proof fn lemma_answers_carry_id(id: Json, result: Json)
    ensures
        get(result_of(id, result), "id"@) == Some(id),
{
    let ms = seq![("jsonrpc"@, Json::Str("2.0"@)), ("id"@, id), ("result"@, result)];
    reveal_strlit("id");
    reveal_strlit("result");
    assert("id"@.len() == 2);
    assert("result"@.len() == 6);
    crate::json::lemma_record_get(ms, 1);
}

proof fn lemma_errors_carry_id(id: Json, code: i64, message: Seq<char>)
    ensures
        get(error_of(id, code, message), "id"@) == Some(id),
{
    let ms = seq![
        ("jsonrpc"@, Json::Str("2.0"@)),
        ("id"@, id),
        (
            "error"@,
            record(seq![("code"@, Json::NInt(code)), ("message"@, Json::Str(message))]),
        ),
    ];
    reveal_strlit("id");
    reveal_strlit("error");
    assert("id"@.len() == 2);
    assert("error"@.len() == 5);
    crate::json::lemma_record_get(ms, 1);
}

proof fn lemma_tool_from(tools: Seq<ToolView>, name: Seq<char>, k: int)
    requires
        0 <= k,
    ensures
        tool_from(tools, name, k) matches Some(p) ==> k <= p < tools.len() && tools[p].name == name,
    decreases tools.len() - k,
{
    if k < tools.len() && tools[k].name != name {
        lemma_tool_from(tools, name, k + 1);
    }
}

} // verus!

//! How requests are answered, how progress is told, which language a file is in, and which
//! names, paths and payloads are taken.
use vstd::prelude::*;
use crate::izakaya::model::{
    bounded, bounded_all, bounded_some, claim_from, may_move, payload_fault, secret, secret_item,
    secret_member, slug, slug_char, source_key, AgentState, MAX_ITEM, MAX_SYMBOLS,
};
use crate::json::{
    as_str, get, lemma_record_get, lemma_record_none, record, str_or, strings_at, Json,
};
use crate::lang::{extension, lang_of, last_dot, names_something, path_lang, Grammar, Lang};
use crate::laws::hunks::lemma_whole;
use crate::mcp::{
    call_answer, call_step, error_of, greeting, listing, result_of, step_of, tool_from, tool_json,
    ServerView, StepView, ToolView,
};
use crate::paths::{rel_path, tidy_path};
use crate::progress::{note_of, note_params, switched_on, token_in};
use crate::text::{
    among, blen, has_char, holds, is_char, lemma_split_concat, lowered, split_by, split_on,
    trimmed,
};

verus! {

// ---------------------------------------------------------------------------
// Requests

/// A result goes with the number of its request.
pub proof fn law_results_carry_their_id(
    id: Json,
    result: Json,
)
    ensures
        ({
            let b = result_of(id, result);
            &&& get(b, "jsonrpc"@) == Some(Json::Str("2.0"@))
            &&& get(b, "id"@) == Some(id)
            &&& get(b, "result"@) == Some(result)
        }),
{
    let ms = seq![("jsonrpc"@, Json::Str("2.0"@)), ("id"@, id), ("result"@, result)];
    reveal_strlit("jsonrpc");
    reveal_strlit("id");
    reveal_strlit("result");
    assert("jsonrpc"@.len() == 7);
    assert("id"@.len() == 2);
    assert("result"@.len() == 6);
    assert(ms[0].0 == "jsonrpc"@);
    assert(ms[1].0 == "id"@);
    assert(ms[2].0 == "result"@);
    lemma_record_get(ms, 0);
    lemma_record_get(ms, 1);
    lemma_record_get(ms, 2);
}

/// An error goes with the number of its request, and gives a code and a message.
pub proof fn law_errors_carry_their_id(id: Json, code: i64, message: Seq<char>)
    ensures
        ({
            let b = error_of(id, code, message);
            &&& get(b, "jsonrpc"@) == Some(Json::Str("2.0"@))
            &&& get(b, "id"@) == Some(id)
            &&& get(b, "result"@) is None
            &&& get(b, "error"@) matches Some(e) && get(e, "code"@) == Some(Json::NInt(code)) && get(
                e,
                "message"@,
            ) == Some(Json::Str(message))
        }),
{
    let inner = seq![("code"@, Json::NInt(code)), ("message"@, Json::Str(message))];
    let ms = seq![("jsonrpc"@, Json::Str("2.0"@)), ("id"@, id), ("error"@, record(inner))];
    reveal_strlit("jsonrpc");
    reveal_strlit("id");
    reveal_strlit("error");
    reveal_strlit("result");
    reveal_strlit("code");
    reveal_strlit("message");
    assert("jsonrpc"@.len() == 7);
    assert("id"@.len() == 2);
    assert("error"@.len() == 5);
    assert("result"@.len() == 6);
    assert("code"@.len() == 4);
    assert("message"@.len() == 7);
    assert("jsonrpc"@[0] == 'j');
    assert("message"@[0] == 'm');
    assert(ms[0].0 == "jsonrpc"@ && ms[1].0 == "id"@ && ms[2].0 == "error"@);
    assert(inner[0].0 == "code"@ && inner[1].0 == "message"@);
    lemma_record_get(ms, 0);
    lemma_record_get(ms, 1);
    lemma_record_get(ms, 2);
    lemma_record_get(inner, 0);
    lemma_record_get(inner, 1);
    lemma_record_none(ms, "result"@);
}

/// The first answer names the version that was asked for, what the server can do, and who it
/// is.
pub proof fn law_what_a_greeting_says(s: ServerView, params: Json)
    ensures
        ({
            let b = greeting(s, params);
            let version = str_or(params, "protocolVersion"@, "2025-06-18"@);
            &&& get(b, "protocolVersion"@) == Some(Json::Str(version))
            &&& get(b, "serverInfo"@) matches Some(i) && get(i, "name"@) == Some(
                Json::Str(s.server_name),
            ) && get(i, "version"@) == Some(Json::Str(s.server_version))
            &&& get(b, "capabilities"@) matches Some(c) && (get(c, "tools"@) matches Some(t) && get(
                t,
                "listChanged"@,
            ) == Some(Json::Bool(false)))
        }),
{
    let info = seq![("name"@, Json::Str(s.server_name)), ("version"@, Json::Str(s.server_version))];
    let tools = seq![("listChanged"@, Json::Bool(false))];
    let can = seq![("tools"@, record(tools))];
    let ms = seq![
        ("protocolVersion"@, Json::Str(str_or(params, "protocolVersion"@, "2025-06-18"@))),
        ("capabilities"@, record(can)),
        ("serverInfo"@, record(info)),
    ];
    reveal_strlit("protocolVersion");
    reveal_strlit("capabilities");
    reveal_strlit("serverInfo");
    reveal_strlit("name");
    reveal_strlit("version");
    reveal_strlit("tools");
    reveal_strlit("listChanged");
    assert("protocolVersion"@.len() == 15);
    assert("capabilities"@.len() == 12);
    assert("serverInfo"@.len() == 10);
    assert("name"@.len() == 4);
    assert("version"@.len() == 7);
    assert("tools"@.len() == 5);
    assert("listChanged"@.len() == 11);
    assert(ms[0].0 == "protocolVersion"@ && ms[1].0 == "capabilities"@ && ms[2].0 == "serverInfo"@);
    assert(info[0].0 == "name"@ && info[1].0 == "version"@);
    lemma_record_get(ms, 0);
    lemma_record_get(ms, 1);
    lemma_record_get(ms, 2);
    lemma_record_get(info, 0);
    lemma_record_get(info, 1);
    lemma_record_get(tools, 0);
    lemma_record_get(can, 0);
}

/// A tool is listed with its name, what it does, and what it takes.
pub proof fn law_what_is_listed_of_a_tool(
    t: ToolView,
)
    ensures
        ({
            let b = tool_json(t);
            &&& get(b, "name"@) == Some(Json::Str(t.name))
            &&& get(b, "description"@) == Some(Json::Str(t.description))
            &&& get(b, "inputSchema"@) == Some(t.input_schema)
        }),
{
    let ms = seq![
        ("name"@, Json::Str(t.name)),
        ("description"@, Json::Str(t.description)),
        ("inputSchema"@, t.input_schema),
    ];
    reveal_strlit("name");
    reveal_strlit("description");
    reveal_strlit("inputSchema");
    assert("name"@.len() == 4);
    assert("description"@.len() == 11);
    assert("inputSchema"@.len() == 11);
    assert("description"@[0] == 'd');
    assert("inputSchema"@[0] == 'i');
    assert(ms[0].0 == "name"@);
    assert(ms[1].0 == "description"@);
    assert(ms[2].0 == "inputSchema"@);
    lemma_record_get(ms, 0);
    lemma_record_get(ms, 1);
    lemma_record_get(ms, 2);
}

/// All tools are listed, in order.
pub proof fn law_all_tools_are_listed(tools: Seq<ToolView>)
    ensures
        get(listing(tools), "tools"@) matches Some(Json::Array(a)) && a.len() == tools.len()
            && forall|i: int| 0 <= i < tools.len() ==> #[trigger] a[i] == tool_json(tools[i]),
{
    lemma_record_get(
        seq![("tools"@, Json::Array(tools.map_values(|t: ToolView| tool_json(t))))],
        0,
    );
}

/// A tool is found by its name, the first of that name; where none has it, none is found.
pub proof fn law_tools_are_found_by_name(tools: Seq<ToolView>, name: Seq<char>, k: int, i: int)
    requires
        0 <= i <= k <= tools.len(),
        forall|m: int| 0 <= m < k ==> (#[trigger] tools[m]).name != name,
        k < tools.len() ==> tools[k].name == name,
    ensures
        k < tools.len() ==> tool_from(tools, name, i) == Some(k),
        k == tools.len() ==> tool_from(tools, name, i) is None,
    decreases k - i,
{
    if i < k {
        law_tools_are_found_by_name(tools, name, k, i + 1);
    }
}

/// What a request comes to: without a number nothing; else by its method.
pub proof fn law_what_a_request_comes_to(s: ServerView, req: Json)
    ensures
        ({
            let method = str_or(req, "method"@, ""@);
            let params = match get(req, "params"@) {
                Some(p) => p,
                None => Json::Null,
            };
            let r = step_of(s, req);
            &&& get(req, "id"@) is None ==> r == StepView::Quiet
            &&& get(req, "id"@) matches Some(id) ==> {
                &&& method == "initialize"@ ==> r == StepView::Answer(
                    result_of(id, greeting(s, params)),
                )
                &&& method == "tools/list"@ ==> r == StepView::Answer(
                    result_of(id, listing(s.tools)),
                )
                &&& method == "ping"@ ==> r == StepView::Answer(
                    result_of(id, record(Seq::empty())),
                )
                &&& method == "tools/call"@ ==> r == call_step(s.tools, params, id)
                &&& method != "initialize"@ && method != "tools/list"@ && method != "ping"@ && method
                    != "tools/call"@ ==> r == StepView::Answer(
                    error_of(id, (-32601) as i64, "method not found: "@ + method),
                )
            }
        }),
{
    reveal_strlit("initialize");
    reveal_strlit("tools/list");
    reveal_strlit("ping");
    reveal_strlit("tools/call");
    assert("initialize"@.len() == 10);
    assert("tools/list"@.len() == 10);
    assert("ping"@.len() == 4);
    assert("tools/call"@.len() == 10);
    assert("initialize"@[0] == 'i');
    assert("tools/list"@[0] == 't');
    assert("tools/list"@[6] == 'l');
    assert("tools/call"@[0] == 't');
    assert("tools/call"@[6] == 'c');
}

/// A call goes to the tool that is named, with the arguments given or none; where there is no
/// such tool, it is an error.
pub proof fn law_where_a_call_goes(tools: Seq<ToolView>, params: Json, id: Json, k: int)
    requires
        0 <= k <= tools.len(),
        forall|m: int| 0 <= m < k ==> (#[trigger] tools[m]).name != str_or(params, "name"@, ""@),
        k < tools.len() ==> tools[k].name == str_or(params, "name"@, ""@),
    ensures
        k < tools.len() ==> (call_step(tools, params, id) matches StepView::Call {
            id: i,
            tool,
            arguments,
        } && i == id && tool == k && (get(params, "arguments"@) matches Some(a) ==> arguments == a)
            && (get(params, "arguments"@) is None ==> arguments == record(Seq::empty()))),
        k == tools.len() ==> call_step(tools, params, id) == StepView::Answer(
            error_of(id, (-32602) as i64, "unknown tool: "@ + str_or(params, "name"@, ""@)),
        ),
{
    law_tools_are_found_by_name(tools, str_or(params, "name"@, ""@), k, 0);
}

/// The answer to a call is one piece of text; an error says so, and is marked.
pub proof fn law_what_a_call_answers(id: Json, o: Result<Seq<char>, Seq<char>>)
    ensures
        ({
            let text = match o {
                Ok(t) => t,
                Err(e) => "error: "@ + e,
            };
            &&& get(call_answer(id, o), "id"@) == Some(id)
            &&& get(call_answer(id, o), "result"@) matches Some(r) && get(r, "isError"@) == Some(
                Json::Bool(o is Err),
            ) && (get(r, "content"@) matches Some(Json::Array(a)) && a.len() == 1 && get(
                a[0],
                "type"@,
            ) == Some(Json::Str("text"@)) && get(a[0], "text"@) == Some(Json::Str(text)))
        }),
{
    let text = match o {
        Ok(t) => t,
        Err(e) => "error: "@ + e,
    };
    let part = seq![("type"@, Json::Str("text"@)), ("text"@, Json::Str(text))];
    let inner = seq![
        ("content"@, Json::Array(seq![record(part)])),
        ("isError"@, Json::Bool(o is Err)),
    ];
    reveal_strlit("type");
    reveal_strlit("text");
    reveal_strlit("content");
    reveal_strlit("isError");
    assert("type"@.len() == 4);
    assert("text"@.len() == 4);
    assert("content"@.len() == 7);
    assert("isError"@.len() == 7);
    assert("type"@[1] == 'y');
    assert("text"@[1] == 'e');
    assert("content"@[0] == 'c');
    assert("isError"@[0] == 'i');
    assert(part[0].0 == "type"@ && part[1].0 == "text"@);
    assert(inner[0].0 == "content"@ && inner[1].0 == "isError"@);
    lemma_record_get(part, 0);
    lemma_record_get(part, 1);
    lemma_record_get(inner, 0);
    lemma_record_get(inner, 1);
    law_results_carry_their_id(id, record(inner));
}

// ---------------------------------------------------------------------------
// Progress

/// A switch is on for these words and no others.
pub proof fn law_words_for_on(v: Seq<char>)
    ensures
        !switched_on(None),
        switched_on(Some(v)) <==> seq![
            "1"@,
            "true"@,
            "TRUE"@,
            "yes"@,
            "YES"@,
            "on"@,
            "ON"@,
        ].contains(v),
{
    let all = seq!["1"@, "true"@, "TRUE"@, "yes"@, "YES"@, "on"@, "ON"@];
    assert(all.len() == 7);
    assert(all[0] == "1"@ && all[1] == "true"@ && all[2] == "TRUE"@ && all[3] == "yes"@);
    assert(all[4] == "YES"@ && all[5] == "on"@ && all[6] == "ON"@);
    if all.contains(v) {
        let i = choose|i: int| 0 <= i < all.len() && all[i] == v;
        assert(i == 0 || i == 1 || i == 2 || i == 3 || i == 4 || i == 5 || i == 6);
    }
}

/// What a note on progress tells: whose it is and how far it is, the whole where it is known,
/// and a message where there is one.
pub proof fn law_what_a_note_on_progress_tells(
    token: Json,
    progress: u64,
    total: Option<u64>,
    message: Seq<char>,
)
    ensures
        ({
            let b = note_of(token, progress, total, message);
            let p = record(note_params(token, progress, total, message));
            &&& get(b, "jsonrpc"@) == Some(Json::Str("2.0"@))
            &&& get(b, "method"@) == Some(Json::Str("notifications/progress"@))
            &&& get(b, "params"@) == Some(p)
            &&& get(p, "progressToken"@) == Some(token)
            &&& get(p, "progress"@) == Some(Json::UInt(progress))
            &&& total matches Some(n) ==> get(p, "total"@) == Some(Json::UInt(n))
            &&& total is None ==> get(p, "total"@) is None
            &&& message.len() > 0 ==> get(p, "message"@) == Some(Json::Str(message))
            &&& message.len() == 0 ==> get(p, "message"@) is None
        }),
{
    let ps = note_params(token, progress, total, message);
    let ms = seq![
        ("jsonrpc"@, Json::Str("2.0"@)),
        ("method"@, Json::Str("notifications/progress"@)),
        ("params"@, record(ps)),
    ];
    reveal_strlit("jsonrpc");
    reveal_strlit("method");
    reveal_strlit("params");
    reveal_strlit("progressToken");
    reveal_strlit("progress");
    reveal_strlit("total");
    reveal_strlit("message");
    assert("jsonrpc"@.len() == 7);
    assert("method"@.len() == 6);
    assert("params"@.len() == 6);
    assert("progressToken"@.len() == 13);
    assert("progress"@.len() == 8);
    assert("total"@.len() == 5);
    assert("message"@.len() == 7);
    assert("jsonrpc"@[0] == 'j');
    assert("method"@[0] == 'm');
    assert("params"@[0] == 'p');
    assert("message"@[0] == 'm');
    assert(ms[0].0 == "jsonrpc"@ && ms[1].0 == "method"@ && ms[2].0 == "params"@);
    lemma_record_get(ms, 0);
    lemma_record_get(ms, 1);
    lemma_record_get(ms, 2);
    assert(ps[0].0 == "progressToken"@ && ps[1].0 == "progress"@);
    lemma_record_get(ps, 0);
    lemma_record_get(ps, 1);
    if total is Some {
        assert(ps[2].0 == "total"@);
        lemma_record_get(ps, 2);
        if message.len() > 0 {
            assert(ps[3].0 == "message"@);
            lemma_record_get(ps, 3);
        } else {
            lemma_record_none(ps, "message"@);
        }
    } else {
        lemma_record_none(ps, "total"@);
        if message.len() > 0 {
            assert(ps[2].0 == "message"@);
            lemma_record_get(ps, 2);
        } else {
            lemma_record_none(ps, "message"@);
        }
    }
}

/// Progress is told to who gave a token other than null.
pub proof fn law_who_is_told_of_progress(params: Json)
    ensures
        get(params, "_meta"@) is None ==> token_in(params) is None,
        get(params, "_meta"@) matches Some(m) ==> {
            let t = get(m, "progressToken"@);
            &&& t is Some && t != Some(Json::Null) ==> token_in(params) == t
            &&& t is None || t == Some(Json::Null) ==> token_in(params) is None
        },
{
}

// ---------------------------------------------------------------------------
// Languages

/// Which endings a language has.
pub open spec fn endings(l: Lang) -> Seq<Seq<char>> {
    match l {
        Lang::Cpp => seq!["h"@, "hpp"@, "hh"@, "cpp"@, "cc"@, "cxx"@],
        Lang::Rust => seq!["rs"@],
        Lang::Python => seq!["py"@, "pyi"@],
        Lang::Daslang => seq!["das"@],
        Lang::Glsl => seq![
            "glsl"@,
            "vert"@,
            "frag"@,
            "comp"@,
            "geom"@,
            "tesc"@,
            "tese"@,
            "vs"@,
            "fs"@,
        ],
        Lang::Ts => seq!["ts"@, "mts"@, "cts"@, "js"@, "mjs"@, "cjs"@],
        Lang::Tsx => seq!["tsx"@],
        Lang::Svelte => seq!["svelte"@],
        Lang::CSharp => seq!["cs"@],
    }
}

/// An ending is that of the language that has it, and of no other.
pub proof fn law_endings_of_languages(l: Lang, i: int)
    requires
        0 <= i < endings(l).len(),
    ensures
        lang_of(endings(l)[i]) == Some(l),
{
    reveal_strlit("h");
    reveal_strlit("hpp");
    reveal_strlit("hh");
    reveal_strlit("cpp");
    reveal_strlit("cc");
    reveal_strlit("cxx");
    reveal_strlit("rs");
    reveal_strlit("py");
    reveal_strlit("pyi");
    reveal_strlit("das");
    reveal_strlit("glsl");
    reveal_strlit("vert");
    reveal_strlit("frag");
    reveal_strlit("comp");
    reveal_strlit("geom");
    reveal_strlit("tesc");
    reveal_strlit("tese");
    reveal_strlit("vs");
    reveal_strlit("fs");
    reveal_strlit("ts");
    reveal_strlit("mts");
    reveal_strlit("cts");
    reveal_strlit("js");
    reveal_strlit("mjs");
    reveal_strlit("cjs");
    reveal_strlit("tsx");
    reveal_strlit("svelte");
    reveal_strlit("cs");
    assert("h"@.len() == 1);
    assert("hpp"@.len() == 3);
    assert("hh"@.len() == 2);
    assert("cpp"@.len() == 3);
    assert("cc"@.len() == 2);
    assert("cxx"@.len() == 3);
    assert("rs"@.len() == 2);
    assert("py"@.len() == 2);
    assert("pyi"@.len() == 3);
    assert("das"@.len() == 3);
    assert("glsl"@.len() == 4);
    assert("vert"@.len() == 4);
    assert("frag"@.len() == 4);
    assert("comp"@.len() == 4);
    assert("geom"@.len() == 4);
    assert("tesc"@.len() == 4);
    assert("tese"@.len() == 4);
    assert("vs"@.len() == 2);
    assert("fs"@.len() == 2);
    assert("ts"@.len() == 2);
    assert("mts"@.len() == 3);
    assert("cts"@.len() == 3);
    assert("js"@.len() == 2);
    assert("mjs"@.len() == 3);
    assert("cjs"@.len() == 3);
    assert("tsx"@.len() == 3);
    assert("svelte"@.len() == 6);
    assert("cs"@.len() == 2);
    assert("hpp"@[0] == 'h');
    assert("hh"@[0] == 'h');
    assert("cpp"@[0] == 'c');
    assert("cpp"@[1] == 'p');
    assert("cc"@[0] == 'c');
    assert("cc"@[1] == 'c');
    assert("cxx"@[0] == 'c');
    assert("cxx"@[1] == 'x');
    assert("rs"@[0] == 'r');
    assert("py"@[0] == 'p');
    assert("pyi"@[0] == 'p');
    assert("das"@[0] == 'd');
    assert("glsl"@[0] == 'g');
    assert("glsl"@[1] == 'l');
    assert("vert"@[0] == 'v');
    assert("frag"@[0] == 'f');
    assert("comp"@[0] == 'c');
    assert("geom"@[0] == 'g');
    assert("geom"@[1] == 'e');
    assert("tesc"@[0] == 't');
    assert("tesc"@[3] == 'c');
    assert("tese"@[0] == 't');
    assert("tese"@[3] == 'e');
    assert("vs"@[0] == 'v');
    assert("fs"@[0] == 'f');
    assert("ts"@[0] == 't');
    assert("mts"@[0] == 'm');
    assert("mts"@[1] == 't');
    assert("cts"@[0] == 'c');
    assert("cts"@[1] == 't');
    assert("js"@[0] == 'j');
    assert("mjs"@[0] == 'm');
    assert("mjs"@[1] == 'j');
    assert("cjs"@[0] == 'c');
    assert("cjs"@[1] == 'j');
    assert("tsx"@[0] == 't');
    assert("cs"@[0] == 'c');
    assert("cs"@[1] == 's');
    match l {
        Lang::Cpp => {
            assert(i == 0 || i == 1 || i == 2 || i == 3 || i == 4 || i == 5);
        },
        Lang::Python => {
            assert(i == 0 || i == 1);
        },
        Lang::Glsl => {
            assert(i == 0 || i == 1 || i == 2 || i == 3 || i == 4 || i == 5 || i == 6 || i == 7 || i
                == 8);
        },
        Lang::Ts => {
            assert(i == 0 || i == 1 || i == 2 || i == 3 || i == 4 || i == 5);
        },
        _ => {
            assert(i == 0);
        },
    }
}

/// What has a language has one of its endings.
pub proof fn law_languages_have_endings(e: Seq<char>)
    ensures
        lang_of(e) matches Some(l) ==> endings(l).contains(e),
{
    if let Some(l) = lang_of(e) {
        let v = endings(l);
        match l {
            Lang::Cpp => {
                assert(v.len() == 6);
                assert(v[0] == e || v[1] == e || v[2] == e || v[3] == e || v[4] == e || v[5] == e);
            },
            Lang::Python => {
                assert(v.len() == 2);
                assert(v[0] == e || v[1] == e);
            },
            Lang::Glsl => {
                assert(v.len() == 9);
                assert(v[0] == e || v[1] == e || v[2] == e || v[3] == e || v[4] == e || v[5] == e || v[6] == e || v[7] == e || v[8] == e);
            },
            Lang::Ts => {
                assert(v.len() == 6);
                assert(v[0] == e || v[1] == e || v[2] == e || v[3] == e || v[4] == e || v[5] == e);
            },
            _ => {
                assert(v[0] == e);
            },
        }
    }
}

proof fn lemma_last_dot(s: Seq<char>, n: nat, k: int)
    requires
        0 <= k < n <= s.len(),
        s[k] == '.',
        forall|i: int| k < i < n ==> s[i] != '.',
    ensures
        last_dot(s, n) == Some(k),
    decreases n,
{
    if k < n - 1 {
        lemma_last_dot(s, (n - 1) as nat, k);
    }
}

/// The language of a file is that of the ending behind the last dot of its name, in lower
/// case; the directories do not matter.
pub proof fn law_language_of_a_path(dir: Seq<char>, stem: Seq<char>, ending: Seq<char>)
    requires
        dir.len() > 0 ==> dir.last() == '/',
        stem.len() > 0,
        forall|i: int| 0 <= i < stem.len() ==> stem[i] != '/',
        forall|i: int| 0 <= i < ending.len() ==> ending[i] != '/' && ending[i] != '.',
        ending.len() > 0,
    ensures
        path_lang(dir + (stem + seq!['.'] + ending)) == lang_of(lowered(ending)),
{
    let name = stem + seq!['.'] + ending;
    let path = dir + name;
    let p = is_char('/');
    lemma_whole(name, p);
    lemma_split_concat(dir, name, p);
    let before = split_by(dir, p).drop_last();
    assert(split_by(path, p) =~= before.push(name));
    let f = names_something();
    before.lemma_filter_push(name, f);
    reveal_strlit(".");
    reveal_strlit("..");
    assert("."@.len() == 1 && ".."@.len() == 2);
    assert(name.len() >= 3);
    assert(f(name));
    let parts = split_on(path, '/').filter(f);
    assert(parts =~= before.filter(f).push(name));
    assert(parts.last() == name);
    lemma_last_dot(name, name.len(), stem.len() as int);
    assert(name.skip(stem.len() as int + 1) =~= ending);
}

/// A name without a dot, or with none but its first character, has no language.
pub proof fn law_names_without_a_language(name: Seq<char>)
    requires
        forall|i: int| 0 < i < name.len() ==> name[i] != '.',
    ensures
        extension(name) is None,
{
    lemma_no_dot(name, name.len());
}

proof fn lemma_no_dot(s: Seq<char>, n: nat)
    requires
        n <= s.len(),
        forall|i: int| 0 < i < s.len() ==> s[i] != '.',
    ensures
        last_dot(s, n) is None || last_dot(s, n) == Some(0int),
    decreases n,
{
    if n > 0 {
        lemma_no_dot(s, (n - 1) as nat);
    }
}

/// Which grammar a language is read with: each with its own, scripts of components as
/// TypeScript, and Daslang with none.
pub proof fn law_grammars_of_languages(l: Lang)
    ensures
        l.grammar() is None <==> l == Lang::Daslang,
        l.grammar() == Some(Grammar::TypeScript) <==> l == Lang::Ts || l == Lang::Svelte,
        l.grammar() == Some(Grammar::Cpp) <==> l == Lang::Cpp,
        l.grammar() == Some(Grammar::Rust) <==> l == Lang::Rust,
        l.grammar() == Some(Grammar::Python) <==> l == Lang::Python,
        l.grammar() == Some(Grammar::Glsl) <==> l == Lang::Glsl,
        l.grammar() == Some(Grammar::Tsx) <==> l == Lang::Tsx,
        l.grammar() == Some(Grammar::CSharp) <==> l == Lang::CSharp,
{
}

// ---------------------------------------------------------------------------
// Paths, names and payloads

/// A path is taken if and only if, tidied, something is left of it, it is relative, and it
/// does not climb.
pub proof fn law_paths_that_are_taken(raw: Seq<char>)
    ensures
        ({
            let p = tidy_path(raw);
            let drive = p.len() > 1 && p[1] == ':';
            let rooted = p.len() > 0 && p[0] == '/';
            let up = split_on(p, '/').contains(".."@);
            &&& rel_path(raw) is Ok <==> p.len() > 0 && !drive && !rooted && !up
            &&& rel_path(raw) matches Ok(q) ==> q == p
            &&& p.len() == 0 ==> rel_path(raw) == Err::<Seq<char>, Seq<char>>(
                "path must not be empty"@,
            )
            &&& drive || rooted ==> rel_path(raw) == Err::<Seq<char>, Seq<char>>(
                "path must be relative to the root: "@ + raw,
            )
            &&& p.len() > 0 && !drive && !rooted && up ==> rel_path(raw) == Err::<
                Seq<char>,
                Seq<char>,
            >("path must not hold `..`: "@ + raw)
        }),
{
    let p = tidy_path(raw);
    let parts = split_on(p, '/');
    if among(parts, ".."@) {
        let i = choose|i: int| 0 <= i < parts.len() && parts[i] == ".."@;
        assert(parts[i] == ".."@);
    }
}

/// Whether a character may stand in a name.
pub open spec fn plain(c: char) -> bool {
    ||| 'a' <= c <= 'z'
    ||| 'A' <= c <= 'Z'
    ||| '0' <= c <= '9'
    ||| c == '.'
    ||| c == '_'
    ||| c == '-'
}

/// A name is taken, without white space round it, if and only if it is short, holds plain
/// characters alone, and no two dots in a row.
pub proof fn law_names_that_are_taken(kind: Seq<char>, raw: Seq<char>)
    ensures
        ({
            let s = trimmed(raw);
            &&& slug(kind, raw) is Ok <==> s.len() > 0 && blen(s) <= 80 && !holds(s, ".."@) && (
            forall|i: int| 0 <= i < s.len() ==> plain(#[trigger] s[i]))
            &&& slug(kind, raw) matches Ok(t) ==> t == s
            &&& s.len() == 0 ==> slug(kind, raw) == Err::<Seq<char>, Seq<char>>(
                kind + " is required"@,
            )
        }),
{
    let s = trimmed(raw);
    if forall|i: int| 0 <= i < s.len() ==> plain(#[trigger] s[i]) {
        assert forall|i: int| 0 <= i < s.len() implies slug_char(#[trigger] s[i]) by {
            assert(plain(s[i]));
        }
        if has_char(s, '/') {
            let i = choose|i: int| 0 <= i < s.len() && s[i] == '/';
            assert(plain(s[i]));
        }
        if has_char(s, '\\') {
            let i = choose|i: int| 0 <= i < s.len() && s[i] == '\\';
            assert(plain(s[i]));
        }
    }
    if slug(kind, raw) is Ok {
        assert forall|i: int| 0 <= i < s.len() implies plain(#[trigger] s[i]) by {
            assert(slug_char(s[i]));
        }
    }
}

/// Who checked out can only check in; every other change of state is allowed.
pub proof fn law_changes_of_state(from: AgentState, to: AgentState)
    ensures
        may_move(from, to) <==> from != AgentState::CheckedOut || to == AgentState::CheckedIn,
{
}

proof fn lemma_secret_item(a: Seq<Json>, n: nat)
    requires
        n <= a.len(),
    ensures
        secret_item(a, n) <==> exists|i: int| 0 <= i < n && secret(#[trigger] a[i]),
    decreases n,
{
    if n > 0 {
        lemma_secret_item(a, (n - 1) as nat);
        if secret(a[n - 1]) {
            assert(0 <= n - 1 < n);
        }
    }
}

proof fn lemma_secret_member(ms: Seq<(Seq<char>, Json)>, n: nat)
    requires
        n <= ms.len(),
    ensures
        secret_member(ms, n) <==> exists|i: int| 0 <= i < n && secret((#[trigger] ms[i]).1),
    decreases n,
{
    if n > 0 {
        lemma_secret_member(ms, (n - 1) as nat);
        if secret(ms[n - 1].1) {
            assert(0 <= n - 1 < n);
        }
    }
}

/// What looks like a secret: a text that holds the beginning of a key, however deep it lies.
pub proof fn law_what_looks_like_a_secret(
    s: Seq<char>,
    a: Seq<Json>,
    ms: Seq<(Seq<char>, Json)>,
    b: bool,
    n: u64,
)
    ensures
        secret(Json::Str(s)) <==> holds(s, "-----BEGIN "@),
        secret(Json::Array(a)) <==> exists|i: int| 0 <= i < a.len() && secret(#[trigger] a[i]),
        secret(Json::Object(ms)) <==> exists|i: int|
            0 <= i < ms.len() && secret((#[trigger] ms[i]).1),
        !secret(Json::Null) && !secret(Json::Bool(b)) && !secret(Json::UInt(n)),
{
    lemma_secret_item(a, a.len());
    lemma_secret_member(ms, ms.len());
}

/// Whether a record holds a member that would carry source.
pub open spec fn carries(j: Json, key: Seq<char>) -> bool {
    get(j, key) is Some
}

/// A payload is taken if and only if it carries no source and nothing that looks like a
/// secret.
pub proof fn law_payloads_that_are_taken(j: Json)
    ensures
        payload_fault(j) is Ok <==> !secret(j) && !carries(j, "patch"@) && !carries(j, "diff"@)
            && !carries(j, "source"@) && !carries(j, "file_contents"@) && !carries(
            j,
            "contents"@,
        ),
        carries(j, "patch"@) ==> payload_fault(j) == Err::<(), Seq<char>>(
            "refusing to store "@ + "patch"@ + "; Izakaya keeps references, not source bodies"@,
        ),
        source_key(j) is None && secret(j) ==> payload_fault(j) == Err::<(), Seq<char>>(
            "refusing to store secret-looking material"@,
        ),
        source_key(j) matches Some(k) ==> carries(j, k) && payload_fault(j) == Err::<(), Seq<char>>(
            "refusing to store "@ + k + "; Izakaya keeps references, not source bodies"@,
        ),
{
}

/// Lists are cut to a number of items, each trimmed, cut to a size, and not empty.
pub proof fn law_lists_are_bounded(items: Seq<Seq<char>>, max_n: nat, max_len: nat, i: int)
    ensures
        bounded_all(items, max_n, max_len).len() <= max_n,
        0 <= i < bounded_all(items, max_n, max_len).len() ==> {
            let t = bounded_all(items, max_n, max_len)[i];
            t.len() > 0 && blen(t) <= max_len && exists|k: int|
                0 <= k < items.len() && t == bounded(#[trigger] items[k], max_len)
        },
{
    let f = bounded_some(max_len);
    let all = items.filter_map(f);
    let r = bounded_all(items, max_n, max_len);
    if 0 <= i < r.len() {
        assert(r[i] == all[i]);
        assert(all.contains(all[i]));
        items.lemma_filter_map_contains(f, all[i]);
        let k = choose|k: int| 0 <= k < items.len() && f(items[k]) == Some(all[i]);
        assert(r[i] == bounded(items[k], max_len));
        crate::izakaya::model::law_bound(items[k], max_len);
    }
}

/// A claim is read where it names a path: it is to edit unless it says to read.
pub proof fn law_claims_are_read(j: Json)
    ensures
        ({
            let path = as_str(get(j, "path"@));
            let named = path is Some && trimmed(path->Some_0).len() > 0;
            &&& claim_from(j) is Some <==> named
            &&& claim_from(j) matches Some(c) ==> c.path == bounded(
                trimmed(path->Some_0),
                MAX_ITEM as nat,
            ) && c.symbols == bounded_all(
                strings_at(j, "symbols"@),
                MAX_SYMBOLS as nat,
                MAX_ITEM as nat,
            ) && (as_str(get(j, "intent"@)) == Some("read"@) ==> c.intent == "read"@) && (as_str(
                get(j, "intent"@),
            ) != Some("read"@) ==> c.intent == "edit"@)
        }),
{
}

/// How much is kept: of claims, symbols and paths, and of a text.
pub proof fn law_limits_of_records()
    ensures
        crate::izakaya::model::MAX_SUMMARY == 2_000,
        crate::izakaya::model::MAX_CLAIMS == 64,
        crate::izakaya::model::MAX_SYMBOLS == 32,
        crate::izakaya::model::MAX_PATHS == 64,
        crate::izakaya::model::MAX_LIST == 16,
        crate::izakaya::model::MAX_ITEM == 240,
        crate::izakaya::model::SCHEMA_VERSION == 1,
{
}

} // verus!

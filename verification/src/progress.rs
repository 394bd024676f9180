//! Progress notes for long calls. A client asks for them with a token; they are
//! sent only where that is switched on.
use vstd::prelude::*;
use crate::json::{add_member, build, get, no_members, record, str_value, Datum, Json};
use crate::text::{copy, is_blank, opt_text, same};

verus! {

/// Whether a setting switches something on.
pub open spec fn switched_on(value: Option<Seq<char>>) -> bool {
    match value {
        Some(v) => v == "1"@ || v == "true"@ || v == "TRUE"@ || v == "yes"@ || v == "YES"@ || v
            == "on"@ || v == "ON"@,
        None => false,
    }
}

/// Whether progress notes are switched on, given the setting.
pub fn progress_enabled(value: &Option<String>) -> (r: bool)
    ensures
        r == switched_on(opt_text(*value)),
{
    match value {
        Some(s) => {
            let v = s.as_str();
            same(v, "1") || same(v, "true") || same(v, "TRUE") || same(v, "yes") || same(v, "YES")
                || same(v, "on") || same(v, "ON")
        },
        None => false,
    }
}

pub open spec fn opt_json(v: Option<Datum>) -> Option<Json> {
    match v {
        Some(d) => Some(d@),
        None => None,
    }
}

/// The token of the call that is being served.
pub struct Progress {
    pub enabled: bool,
    pub token: Option<Datum>,
}

impl Progress {
    /// Installs the token of a call; nothing where notes are off or the token is null.
    pub fn install(&mut self, token: Option<Datum>)
        ensures
            final(self).enabled == old(self).enabled,
            opt_json(final(self).token) == (match token {
                Some(t) => if old(self).enabled && t@ != Json::Null {
                    Some(t@)
                } else {
                    None
                },
                None => None,
            }),
    {
        self.token = match token {
            Some(t) => if self.enabled && !t.is_null() {
                Some(t)
            } else {
                None
            },
            None => None,
        };
    }

    /// Forgets the token.
    pub fn clear(&mut self)
        ensures
            final(self).enabled == old(self).enabled,
            final(self).token is None,
    {
        self.token = None;
    }

    /// The note that a step sends, if any.
    pub fn tick(&self, progress: u64, total: Option<u64>, message: &str) -> (r: Option<Datum>)
        ensures
            opt_json(r) == (match self.token {
                Some(t) => if self.enabled {
                    Some(note_of(t@, progress, total, message@))
                } else {
                    None
                },
                None => None,
            }),
    {
        match &self.token {
            Some(t) => if self.enabled {
                Some(make_note(t, progress, total, message))
            } else {
                None
            },
            None => None,
        }
    }
}

/// The parameters of a note.
pub open spec fn note_params(
    token: Json,
    progress: u64,
    total: Option<u64>,
    message: Seq<char>,
) -> Seq<(Seq<char>, Json)> {
    let a = seq![("progressToken"@, token), ("progress"@, Json::UInt(progress))];
    let b = match total {
        Some(n) => a.push(("total"@, Json::UInt(n))),
        None => a,
    };
    if message.len() > 0 {
        b.push(("message"@, Json::Str(message)))
    } else {
        b
    }
}

/// A note on how far a call has come.
pub open spec fn note_of(
    token: Json,
    progress: u64,
    total: Option<u64>,
    message: Seq<char>,
) -> Json {
    record(
        seq![
            ("jsonrpc"@, Json::Str("2.0"@)),
            ("method"@, Json::Str("notifications/progress"@)),
            ("params"@, record(note_params(token, progress, total, message))),
        ],
    )
}

fn make_note(token: &Datum, progress: u64, total: Option<u64>, message: &str) -> (r: Datum)
    ensures
        r@ == note_of(token@, progress, total, message@),
{
    let mut ps = no_members();
    add_member(&mut ps, "progressToken", token.copy());
    add_member(&mut ps, "progress", Datum::UInt(progress));
    if let Some(n) = total {
        add_member(&mut ps, "total", Datum::UInt(n));
    }
    if !is_blank(message) {
        add_member(&mut ps, "message", str_value(message));
    }
    assert(crate::json::members(ps@) =~= note_params(token@, progress, total, message@));
    let params = build(ps);
    let mut ms = no_members();
    add_member(&mut ms, "jsonrpc", str_value("2.0"));
    add_member(&mut ms, "method", str_value("notifications/progress"));
    add_member(&mut ms, "params", params);
    assert(crate::json::members(ms@) =~= seq![
        ("jsonrpc"@, Json::Str("2.0"@)),
        ("method"@, Json::Str("notifications/progress"@)),
        ("params"@, record(note_params(token@, progress, total, message@))),
    ]);
    build(ms)
}

/// The token in the parameters of a call.
pub open spec fn token_in(params: Json) -> Option<Json> {
    match get(params, "_meta"@) {
        Some(m) => match get(m, "progressToken"@) {
            Some(t) => if t == Json::Null {
                None
            } else {
                Some(t)
            },
            None => None,
        },
        None => None,
    }
}

pub fn token_from_call_params(params: &Datum) -> (r: Option<Datum>)
    ensures
        opt_json(r) == token_in(params@),
{
    match params.get("_meta") {
        Some(m) => match m.get("progressToken") {
            Some(t) => if t.is_null() {
                None
            } else {
                Some(t.copy())
            },
            None => None,
        },
        None => None,
    }
}

} // verus!

//! Shared sessions of several agents: a board of short entries, in rounds, until the
//! session is finalized.
use vstd::prelude::*;
use crate::args::{optional_str, string_array, text_at, texts_at, tidy_text, tidy_texts};
use crate::json::{
    add_member, array, as_bool, build, get, get_bool, get_items, get_str, get_u64, json_opt_str,
    json_strs, no_members, number_or, opt_str_value, record, str_or, str_value, string_or,
    strs_value, u64_or, Datum, Json,
};
use crate::smap::{ascending, at, entries_view, put, StrMap};
use crate::text::{
    capped, contains, contains_char, copy, copy_all, copy_opt, count_up, has_char, holds, is_blank,
    lex_lt, lower_ascii, lowered, opt_text, same, starts, starts_with, strs, to_chars, trim,
    trimmed, verdict,
};

pub mod closing;
pub mod posting;
pub mod reading;

verus! {

/// Rounds of a session that sets no other number.
pub const DEFAULT_MAX_ROUNDS: u64 = 3;

/// Tokens of an entry where nothing else is configured.
pub const DEFAULT_ENTRY_TOKENS: u64 = 400;

/// What others see of a session.
pub struct SessionSnapshot {
    pub status: String,
    pub round: u64,
    pub max_rounds: u64,
    pub rounds_remaining: u64,
    pub open_questions: usize,
    pub entries: usize,
    pub result: Option<String>,
}

/// The values of a [`SessionSnapshot`].
pub struct SnapshotView {
    pub status: Seq<char>,
    pub round: u64,
    pub max_rounds: u64,
    pub rounds_remaining: u64,
    pub open_questions: nat,
    pub entries: nat,
    pub result: Option<Seq<char>>,
}

impl View for SessionSnapshot {
    type V = SnapshotView;

    open spec fn view(&self) -> SnapshotView {
        SnapshotView {
            status: self.status@,
            round: self.round,
            max_rounds: self.max_rounds,
            rounds_remaining: self.rounds_remaining,
            open_questions: self.open_questions as nat,
            entries: self.entries as nat,
            result: opt_text(self.result),
        }
    }
}

/// An entry on the board.
pub struct Entry {
    pub id: u64,
    pub round: u64,
    pub role: String,
    pub kind: String,
    pub ts: u64,
    pub summary: String,
    pub claims: Vec<String>,
    pub decisions: Vec<String>,
    pub open_questions: Vec<String>,
    pub anchors: Vec<String>,
    pub commands: Vec<String>,
    pub constraints: Vec<String>,
    pub handoff_to: Option<String>,
    pub note_ref: Option<String>,
    pub tags: Vec<String>,
    pub approved: Option<bool>,
}

/// The values of an [`Entry`].
pub struct EntryView {
    pub id: u64,
    pub round: u64,
    pub role: Seq<char>,
    pub kind: Seq<char>,
    pub ts: u64,
    pub summary: Seq<char>,
    pub claims: Seq<Seq<char>>,
    pub decisions: Seq<Seq<char>>,
    pub open_questions: Seq<Seq<char>>,
    pub anchors: Seq<Seq<char>>,
    pub commands: Seq<Seq<char>>,
    pub constraints: Seq<Seq<char>>,
    pub handoff_to: Option<Seq<char>>,
    pub note_ref: Option<Seq<char>>,
    pub tags: Seq<Seq<char>>,
    pub approved: Option<bool>,
}

impl View for Entry {
    type V = EntryView;

    open spec fn view(&self) -> EntryView {
        EntryView {
            id: self.id,
            round: self.round,
            role: self.role@,
            kind: self.kind@,
            ts: self.ts,
            summary: self.summary@,
            claims: strs(self.claims@),
            decisions: strs(self.decisions@),
            open_questions: strs(self.open_questions@),
            anchors: strs(self.anchors@),
            commands: strs(self.commands@),
            constraints: strs(self.constraints@),
            handoff_to: opt_text(self.handoff_to),
            note_ref: opt_text(self.note_ref),
            tags: strs(self.tags@),
            approved: self.approved,
        }
    }
}

pub open spec fn entry_views(v: Seq<Entry>) -> Seq<EntryView> {
    Seq::new(v.len(), |i: int| v[i]@)
}

impl Entry {
    pub fn copy(&self) -> (r: Entry)
        ensures
            r@ == self@,
    {
        Entry {
            id: self.id,
            round: self.round,
            role: copy(self.role.as_str()),
            kind: copy(self.kind.as_str()),
            ts: self.ts,
            summary: copy(self.summary.as_str()),
            claims: copy_all(&self.claims),
            decisions: copy_all(&self.decisions),
            open_questions: copy_all(&self.open_questions),
            anchors: copy_all(&self.anchors),
            commands: copy_all(&self.commands),
            constraints: copy_all(&self.constraints),
            handoff_to: copy_opt(&self.handoff_to),
            note_ref: copy_opt(&self.note_ref),
            tags: copy_all(&self.tags),
            approved: self.approved,
        }
    }
}

/// A session with its entries.
pub struct Session {
    pub session: String,
    pub created: u64,
    pub updated: u64,
    pub round: u64,
    pub max_rounds: u64,
    pub status: String,
    pub entries: Vec<Entry>,
    pub result: Option<String>,
    pub next_id: u64,
}

/// The values of a [`Session`].
pub struct SessionView {
    pub session: Seq<char>,
    pub created: u64,
    pub updated: u64,
    pub round: u64,
    pub max_rounds: u64,
    pub status: Seq<char>,
    pub entries: Seq<EntryView>,
    pub result: Option<Seq<char>>,
    pub next_id: u64,
}

impl View for Session {
    type V = SessionView;

    open spec fn view(&self) -> SessionView {
        SessionView {
            session: self.session@,
            created: self.created,
            updated: self.updated,
            round: self.round,
            max_rounds: self.max_rounds,
            status: self.status@,
            entries: entry_views(self.entries@),
            result: opt_text(self.result),
            next_id: self.next_id,
        }
    }
}

pub fn copy_entries(v: &Vec<Entry>) -> (r: Vec<Entry>)
    ensures
        entry_views(r@) == entry_views(v@),
{
    let mut out: Vec<Entry> = Vec::new();
    for i in 0..v.len()
        invariant
            out@.len() == i,
            forall|k: int| 0 <= k < i ==> (#[trigger] out@[k])@ == v@[k]@,
    {
        out.push(v[i].copy());
    }
    assert(entry_views(out@) =~= entry_views(v@));
    out
}

impl Session {
    pub fn copy(&self) -> (r: Session)
        ensures
            r@ == self@,
    {
        Session {
            session: copy(self.session.as_str()),
            created: self.created,
            updated: self.updated,
            round: self.round,
            max_rounds: self.max_rounds,
            status: copy(self.status.as_str()),
            entries: copy_entries(&self.entries),
            result: copy_opt(&self.result),
            next_id: self.next_id,
        }
    }
}

/// Whether two texts are the same but for the case of ASCII letters.
pub open spec fn same_word(a: Seq<char>, b: Seq<char>) -> bool {
    lowered(a) == lowered(b)
}

pub fn is_same_word(a: &str, b: &str) -> (r: bool)
    ensures
        r == same_word(a@, b@),
{
    let x = lower_ascii(a);
    let y = lower_ascii(b);
    same(x.as_str(), y.as_str())
}

// ---------------------------------------------------------------------------
// Names

/// Characters of a session name.
pub open spec fn slug_char(c: char) -> bool {
    crate::text::plain_char(c) || c == '.'
}

/// Whether a name can name a session, and why not.
pub open spec fn session_verdict(session: Seq<char>) -> Result<(), Seq<char>> {
    let s = trimmed(session);
    if s.len() == 0 {
        Err("session is required"@)
    } else if has_char(s, '/') || has_char(s, '\\') || holds(s, ".."@) {
        Err("session must be a slug (no /, \\, or ..)"@)
    } else if exists|i: int| 0 <= i < s.len() && !slug_char(#[trigger] s[i]) {
        Err("session must match [A-Za-z0-9._-]"@)
    } else {
        Ok(())
    }
}

pub fn validate_session_id(session: &str) -> (r: Result<(), String>)
    ensures
        verdict(r) == session_verdict(session@),
{
    let s = trim(session);
    if is_blank(s.as_str()) {
        return Err(copy("session is required"));
    }
    if contains_char(s.as_str(), '/') || contains_char(s.as_str(), '\\') || contains(
        s.as_str(),
        "..",
    ) {
        return Err(copy("session must be a slug (no /, \\, or ..)"));
    }
    let v = to_chars(s.as_str());
    for i in 0..v.len()
        invariant
            v@ == s@,
            s@ == trimmed(session@),
            s@.len() > 0,
            !has_char(s@, '/') && !has_char(s@, '\\') && !holds(s@, ".."@),
            forall|k: int| 0 <= k < i ==> slug_char(#[trigger] s@[k]),
    {
        let c: char = v[i];
        if !crate::text::is_plain_char(c) && c != '.' {
            assert(!slug_char(s@[i as int]));
            return Err(copy("session must match [A-Za-z0-9._-]"));
        }
    }
    Ok(())
}

// ---------------------------------------------------------------------------
// Storage

pub open spec fn json_opt_bool(b: Option<bool>) -> Json {
    match b {
        Some(x) => Json::Bool(x),
        None => Json::Null,
    }
}

fn opt_bool_value(b: Option<bool>) -> (r: Datum)
    ensures
        r@ == json_opt_bool(b),
{
    match b {
        Some(x) => Datum::Bool(x),
        None => Datum::Null,
    }
}

pub open spec fn entry_head(e: EntryView) -> Seq<(Seq<char>, Json)> {
    seq![
        ("id"@, Json::UInt(e.id)),
        ("round"@, Json::UInt(e.round)),
        ("role"@, Json::Str(e.role)),
        ("kind"@, Json::Str(e.kind)),
        ("ts"@, Json::UInt(e.ts)),
        ("summary"@, Json::Str(e.summary)),
        ("claims"@, json_strs(e.claims)),
        ("decisions"@, json_strs(e.decisions)),
    ]
}

pub open spec fn entry_tail(e: EntryView) -> Seq<(Seq<char>, Json)> {
    seq![
        ("open_questions"@, json_strs(e.open_questions)),
        ("anchors"@, json_strs(e.anchors)),
        ("commands"@, json_strs(e.commands)),
        ("constraints"@, json_strs(e.constraints)),
        ("handoff_to"@, json_opt_str(e.handoff_to)),
        ("note_ref"@, json_opt_str(e.note_ref)),
        ("tags"@, json_strs(e.tags)),
        ("approved"@, json_opt_bool(e.approved)),
    ]
}

/// An entry as it is stored.
pub open spec fn entry_json(e: EntryView) -> Json {
    record(entry_head(e) + entry_tail(e))
}

fn head_members(e: &Entry) -> (ms: Vec<(String, Datum)>)
    ensures
        crate::json::members(ms@) == entry_head(e@),
{
    let mut ms = no_members();
    add_member(&mut ms, "id", Datum::UInt(e.id));
    add_member(&mut ms, "round", Datum::UInt(e.round));
    add_member(&mut ms, "role", str_value(e.role.as_str()));
    add_member(&mut ms, "kind", str_value(e.kind.as_str()));
    add_member(&mut ms, "ts", Datum::UInt(e.ts));
    add_member(&mut ms, "summary", str_value(e.summary.as_str()));
    add_member(&mut ms, "claims", strs_value(&e.claims));
    add_member(&mut ms, "decisions", strs_value(&e.decisions));
    assert(crate::json::members(ms@) =~= entry_head(e@));
    ms
}

fn add_tail(ms: &mut Vec<(String, Datum)>, e: &Entry)
    ensures
        crate::json::members(final(ms)@) == crate::json::members(old(ms)@) + entry_tail(e@),
{
    let ghost before = crate::json::members(ms@);
    add_member(ms, "open_questions", strs_value(&e.open_questions));
    add_member(ms, "anchors", strs_value(&e.anchors));
    add_member(ms, "commands", strs_value(&e.commands));
    add_member(ms, "constraints", strs_value(&e.constraints));
    add_member(ms, "handoff_to", opt_str_value(&e.handoff_to));
    add_member(ms, "note_ref", opt_str_value(&e.note_ref));
    add_member(ms, "tags", strs_value(&e.tags));
    add_member(ms, "approved", opt_bool_value(e.approved));
    assert(crate::json::members(ms@) =~= before + entry_tail(e@));
}

pub fn entry_to_value(e: &Entry) -> (r: Datum)
    ensures
        r@ == entry_json(e@),
{
    let mut ms = head_members(e);
    add_tail(&mut ms, e);
    build(ms)
}

/// A stored entry; nothing where it has no id or no role.
pub open spec fn entry_of(v: Json) -> Option<EntryView> {
    match (get(v, "id"@), get(v, "role"@)) {
        (Some(Json::UInt(id)), Some(Json::Str(role))) => Some(
            EntryView {
                id,
                round: u64_or(v, "round"@, 1),
                role,
                kind: str_or(v, "kind"@, "note"@),
                ts: u64_or(v, "ts"@, 0),
                summary: str_or(v, "summary"@, ""@),
                claims: texts_at(v, "claims"@),
                decisions: texts_at(v, "decisions"@),
                open_questions: texts_at(v, "open_questions"@),
                anchors: texts_at(v, "anchors"@),
                commands: texts_at(v, "commands"@),
                constraints: texts_at(v, "constraints"@),
                handoff_to: text_at(v, "handoff_to"@),
                note_ref: text_at(v, "note_ref"@),
                tags: texts_at(v, "tags"@),
                approved: as_bool(get(v, "approved"@)),
            },
        ),
        _ => None,
    }
}

pub open spec fn opt_entry(e: Option<Entry>) -> Option<EntryView> {
    match e {
        Some(x) => Some(x@),
        None => None,
    }
}

pub fn entry_from_value(v: &Datum) -> (r: Option<Entry>)
    ensures
        opt_entry(r) == entry_of(v@),
{
    let id: u64 = match get_u64(v, "id") {
        Some(n) => n,
        None => {
            return None;
        },
    };
    let role: String = match get_str(v, "role") {
        Some(s) => copy(s.as_str()),
        None => {
            return None;
        },
    };
    Some(
        Entry {
            id,
            round: number_or(v, "round", 1),
            role,
            kind: string_or(v, "kind", "note"),
            ts: number_or(v, "ts", 0),
            summary: string_or(v, "summary", ""),
            claims: string_array(v, "claims"),
            decisions: string_array(v, "decisions"),
            open_questions: string_array(v, "open_questions"),
            anchors: string_array(v, "anchors"),
            commands: string_array(v, "commands"),
            constraints: string_array(v, "constraints"),
            handoff_to: optional_str(v, "handoff_to"),
            note_ref: optional_str(v, "note_ref"),
            tags: string_array(v, "tags"),
            approved: get_bool(v, "approved"),
        },
    )
}

pub open spec fn session_head(workspace: Seq<char>, s: SessionView) -> Seq<(Seq<char>, Json)> {
    seq![
        ("version"@, Json::UInt(2)),
        ("workspace_id"@, Json::Str(workspace)),
        ("session"@, Json::Str(s.session)),
        ("created"@, Json::UInt(s.created)),
        ("updated"@, Json::UInt(s.updated)),
        ("round"@, Json::UInt(s.round)),
    ]
}

pub open spec fn session_tail(s: SessionView) -> Seq<(Seq<char>, Json)> {
    seq![
        ("max_rounds"@, Json::UInt(s.max_rounds)),
        ("status"@, Json::Str(s.status)),
        ("entries"@, Json::Array(s.entries.map_values(|e: EntryView| entry_json(e)))),
        ("result"@, json_opt_str(s.result)),
        ("next_id"@, Json::UInt(s.next_id)),
    ]
}

/// A session as it is stored.
pub open spec fn session_json(workspace: Seq<char>, s: SessionView) -> Json {
    record(session_head(workspace, s) + session_tail(s))
}

fn session_head_members(workspace: &str, s: &Session) -> (ms: Vec<(String, Datum)>)
    ensures
        crate::json::members(ms@) == session_head(workspace@, s@),
{
    let mut ms = no_members();
    add_member(&mut ms, "version", Datum::UInt(2));
    add_member(&mut ms, "workspace_id", str_value(workspace));
    add_member(&mut ms, "session", str_value(s.session.as_str()));
    add_member(&mut ms, "created", Datum::UInt(s.created));
    add_member(&mut ms, "updated", Datum::UInt(s.updated));
    add_member(&mut ms, "round", Datum::UInt(s.round));
    assert(crate::json::members(ms@) =~= session_head(workspace@, s@));
    ms
}

fn entries_value(v: &Vec<Entry>) -> (r: Datum)
    ensures
        r@ == Json::Array(entry_views(v@).map_values(|e: EntryView| entry_json(e))),
{
    let mut items: Vec<Datum> = Vec::new();
    for i in 0..v.len()
        invariant
            items@.len() == i,
            forall|k: int| 0 <= k < i ==> (#[trigger] items@[k])@ == entry_json(v@[k]@),
    {
        items.push(entry_to_value(&v[i]));
    }
    assert(crate::json::views(items@) =~= entry_views(v@).map_values(
        |e: EntryView| entry_json(e),
    ));
    array(items)
}

pub fn session_to_value(workspace: &str, s: &Session) -> (r: Datum)
    ensures
        r@ == session_json(workspace@, s@),
{
    let mut ms = session_head_members(workspace, s);
    add_member(&mut ms, "max_rounds", Datum::UInt(s.max_rounds));
    add_member(&mut ms, "status", str_value(s.status.as_str()));
    add_member(&mut ms, "entries", entries_value(&s.entries));
    add_member(&mut ms, "result", opt_str_value(&s.result));
    add_member(&mut ms, "next_id", Datum::UInt(s.next_id));
    assert(crate::json::members(ms@) =~= session_head(workspace@, s@) + session_tail(s@));
    build(ms)
}

pub open spec fn read_entry() -> spec_fn(Json) -> Option<EntryView> {
    |j: Json| entry_of(j)
}

pub open spec fn entries_of(v: Json) -> Seq<EntryView> {
    match get(v, "entries"@) {
        Some(Json::Array(items)) => items.filter_map(read_entry()),
        _ => Seq::empty(),
    }
}

/// The greatest id among the first `n` entries.
pub open spec fn greatest_id(v: Seq<EntryView>, n: nat) -> u64
    decreases n,
{
    if n == 0 {
        0
    } else {
        let rest = greatest_id(v, (n - 1) as nat);
        if v[n - 1].id > rest {
            v[n - 1].id
        } else {
            rest
        }
    }
}

/// A stored session; nothing where it has no name. Where the next id is not stored
/// it follows the greatest one, as far as that fits.
pub open spec fn session_of(v: Json) -> Option<SessionView> {
    match get(v, "session"@) {
        Some(Json::Str(session)) => Some(
            SessionView {
                session,
                created: u64_or(v, "created"@, 0),
                updated: u64_or(v, "updated"@, 0),
                round: u64_or(v, "round"@, 1),
                max_rounds: u64_or(v, "max_rounds"@, DEFAULT_MAX_ROUNDS),
                status: str_or(v, "status"@, "active"@),
                entries: entries_of(v),
                result: crate::json::as_str(get(v, "result"@)),
                next_id: u64_or(
                    v,
                    "next_id"@,
                    capped(greatest_id(entries_of(v), entries_of(v).len()) as nat + 1),
                ),
            },
        ),
        _ => None,
    }
}

pub open spec fn opt_session(s: Option<Session>) -> Option<SessionView> {
    match s {
        Some(x) => Some(x@),
        None => None,
    }
}

fn read_entries(v: &Datum) -> (r: Vec<Entry>)
    ensures
        entry_views(r@) == entries_of(v@),
{
    let mut out: Vec<Entry> = Vec::new();
    assert(entry_views(out@) =~= Seq::<EntryView>::empty());
    if let Some(items) = get_items(v, "entries") {
        let ghost all = crate::json::views(items@);
        assert(all.take(0).filter_map(read_entry()) =~= Seq::<EntryView>::empty());
        for i in 0..items.len()
            invariant
                all == crate::json::views(items@),
                entry_views(out@) == all.take(i as int).filter_map(read_entry()),
        {
            proof {
                all.lemma_filter_map_take_succ(read_entry(), i as int);
            }
            assert(all[i as int] == items@[i as int]@);
            let ghost before = out@;
            if let Some(e) = entry_from_value(&items[i]) {
                let ghost ev = e@;
                out.push(e);
                assert(entry_views(out@) =~= entry_views(before) + seq![ev]);
            } else {
                assert(entry_views(out@) =~= entry_views(before) + Seq::<EntryView>::empty());
            }
        }
        assert(all.take(all.len() as int) =~= all);
    }
    out
}

fn find_greatest(v: &Vec<Entry>) -> (r: u64)
    ensures
        r == greatest_id(entry_views(v@), v@.len()),
{
    let mut n: u64 = 0;
    for i in 0..v.len()
        invariant
            n == greatest_id(entry_views(v@), i as nat),
    {
        assert(entry_views(v@)[i as int] == v@[i as int]@);
        if v[i].id > n {
            n = v[i].id;
        }
    }
    n
}

pub fn session_from_value(v: &Datum) -> (r: Option<Session>)
    ensures
        opt_session(r) == session_of(v@),
{
    let session: String = match get_str(v, "session") {
        Some(s) => copy(s.as_str()),
        None => {
            return None;
        },
    };
    let entries = read_entries(v);
    assert(entries_of(v@).len() == entries@.len());
    let next: u64 = count_up(find_greatest(&entries), 1);
    let result: Option<String> = match get_str(v, "result") {
        Some(s) => Some(copy(s.as_str())),
        None => None,
    };
    Some(
        Session {
            session,
            created: number_or(v, "created", 0),
            updated: number_or(v, "updated", 0),
            round: number_or(v, "round", 1),
            max_rounds: number_or(v, "max_rounds", DEFAULT_MAX_ROUNDS),
            status: string_or(v, "status", "active"),
            entries,
            result,
            next_id: number_or(v, "next_id", next),
        },
    )
}

// ---------------------------------------------------------------------------
// Sessions in memory

/// Sessions kept in memory, by workspace and name.
pub struct SessionCache {
    pub sessions: StrMap<Session>,
}

impl View for SessionCache {
    type V = Seq<(Seq<char>, SessionView)>;

    open spec fn view(&self) -> Seq<(Seq<char>, SessionView)> {
        self.sessions@
    }
}

/// What a session is kept under.
pub open spec fn cache_key(workspace: Seq<char>, session: Seq<char>) -> Seq<char> {
    workspace + "::"@ + session
}

fn make_key(workspace: &str, session: &str) -> (r: String)
    ensures
        r@ == cache_key(workspace@, session@),
{
    let mut k = copy(workspace);
    k.append("::");
    k.append(session);
    k
}

/// Entries that stay when a session, or all of a workspace, is dropped.
pub open spec fn spared(key: Seq<char>, whole: bool) -> spec_fn((Seq<char>, SessionView)) -> bool {
    |e: (Seq<char>, SessionView)|
        if whole {
            !starts(e.0, key)
        } else {
            e.0 != key
        }
}

impl SessionCache {
    pub open spec fn wf(&self) -> bool {
        self.sessions.wf()
    }

    pub fn new() -> (r: SessionCache)
        ensures
            r.wf(),
            r@ == Seq::<(Seq<char>, SessionView)>::empty(),
    {
        SessionCache { sessions: StrMap::new() }
    }

    /// Keeps a session.
    pub fn keep(&mut self, workspace: &str, s: &Session)
        requires
            old(self).wf(),
        ensures
            final(self).wf(),
            final(self)@ == put(old(self)@, cache_key(workspace@, s@.session), s@),
    {
        let k = make_key(workspace, s.session.as_str());
        self.sessions.insert(k.as_str(), s.copy());
    }

    fn drop_entries(&mut self, key: &str, whole: bool)
        requires
            old(self).wf(),
        ensures
            final(self).wf(),
            final(self)@ == old(self)@.filter(spared(key@, whole)),
    {
        let ghost all = self@;
        let ghost keep = spared(key@, whole);
        let mut out: Vec<(String, Session)> = Vec::new();
        proof {
            reveal(Seq::filter);
            assert(all.take(0) =~= Seq::<(Seq<char>, SessionView)>::empty());
            assert(entries_view(out@) =~= all.take(0).filter(keep));
        }
        for i in 0..self.sessions.entries.len()
            invariant
                self@ == all,
                keep == spared(key@, whole),
                ascending(all),
                entries_view(out@) == all.take(i as int).filter(keep),
                ascending(entries_view(out@)),
                forall|k: int, j: int|
                    0 <= k < out@.len() && i <= j < all.len() ==> lex_lt(
                        (#[trigger] entries_view(out@)[k]).0,
                        (#[trigger] all[j]).0,
                    ),
        {
            proof {
                assert(all.take(i + 1) =~= all.take(i as int).push(all[i as int]));
                all.take(i as int).lemma_filter_push(all[i as int], keep);
            }
            let e = &self.sessions.entries[i];
            assert(all[i as int] == (e.0@, e.1@));
            let go: bool = if whole {
                starts_with(e.0.as_str(), key)
            } else {
                same(e.0.as_str(), key)
            };
            if !go {
                let ghost before = entries_view(out@);
                out.push((copy(e.0.as_str()), e.1.copy()));
                assert(entries_view(out@) =~= before.push(all[i as int]));
                assert forall|a: int, b: int| 0 <= a < b < out@.len() implies lex_lt(
                    (#[trigger] entries_view(out@)[a]).0,
                    (#[trigger] entries_view(out@)[b]).0,
                ) by {
                    assert(before[a] == entries_view(out@)[a]);
                    if b < before.len() {
                        assert(before[b] == entries_view(out@)[b]);
                    }
                }
                assert forall|a: int, j: int| 0 <= a < out@.len() && i + 1 <= j < all.len() implies lex_lt(
                    (#[trigger] entries_view(out@)[a]).0,
                    (#[trigger] all[j]).0,
                ) by {
                    if a < before.len() {
                        assert(before[a] == entries_view(out@)[a]);
                    } else {
                        assert(lex_lt(all[i as int].0, all[j].0));
                    }
                }
            }
        }
        assert(all.take(all.len() as int) =~= all);
        self.sessions = StrMap { entries: out };
    }
}

/// Drops a session from memory. A name that names no session drops nothing.
pub fn evict_session_cache(cache: &mut SessionCache, workspace: &str, session: &str)
    requires
        old(cache).wf(),
    ensures
        final(cache).wf(),
        final(cache)@ == (if session_verdict(session@) is Ok {
            old(cache)@.filter(spared(cache_key(workspace@, session@), false))
        } else {
            old(cache)@
        }),
{
    if validate_session_id(session).is_err() {
        return;
    }
    let k = make_key(workspace, session);
    cache.drop_entries(k.as_str(), false);
}

/// Drops all sessions of a workspace from memory.
pub fn evict_workspace_session_cache(cache: &mut SessionCache, workspace: &str)
    requires
        old(cache).wf(),
    ensures
        final(cache).wf(),
        final(cache)@ == old(cache)@.filter(spared(workspace@ + "::"@, true)),
{
    let mut p = copy(workspace);
    p.append("::");
    cache.drop_entries(p.as_str(), true);
}

/// What is stored under the name of a session.
pub enum Stored {
    Absent,
    /// It cannot be read: why.
    Failed(String),
    Value(Datum),
}

/// The values of a [`Stored`].
pub enum StoredView {
    Absent,
    Failed(Seq<char>),
    Value(Json),
}

impl View for Stored {
    type V = StoredView;

    open spec fn view(&self) -> StoredView {
        match *self {
            Stored::Absent => StoredView::Absent,
            Stored::Failed(e) => StoredView::Failed(e@),
            Stored::Value(d) => StoredView::Value(d@),
        }
    }
}

/// A session from memory, or from where it is stored. `path` names that place.
pub open spec fn loaded(
    cache: Seq<(Seq<char>, SessionView)>,
    workspace: Seq<char>,
    session: Seq<char>,
    stored: StoredView,
    path: Seq<char>,
) -> Result<Option<SessionView>, Seq<char>> {
    match session_verdict(session) {
        Err(e) => Err(e),
        Ok(_) => match at(cache, cache_key(workspace, session)) {
            Some(s) => Ok(Some(s)),
            None => match stored {
                StoredView::Absent => Ok(None),
                StoredView::Failed(e) => Err(e),
                StoredView::Value(v) => match session_of(v) {
                    Some(s) => Ok(Some(s)),
                    None => Err("invalid session file "@ + path),
                },
            },
        },
    }
}

pub open spec fn load_outcome(r: Result<Option<Session>, String>) -> Result<
    Option<SessionView>,
    Seq<char>,
> {
    match r {
        Ok(s) => Ok(opt_session(s)),
        Err(e) => Err(e@),
    }
}

pub fn load_session(
    cache: &SessionCache,
    workspace: &str,
    session: &str,
    stored: &Stored,
    path: &str,
) -> (r: Result<Option<Session>, String>)
    ensures
        load_outcome(r) == loaded(cache@, workspace@, session@, stored@, path@),
{
    if let Err(e) = validate_session_id(session) {
        return Err(e);
    }
    let k = make_key(workspace, session);
    if let Some(s) = cache.sessions.get(k.as_str()) {
        return Ok(Some(s.copy()));
    }
    match stored {
        Stored::Absent => Ok(None),
        Stored::Failed(e) => Err(copy(e.as_str())),
        Stored::Value(v) => match session_from_value(v) {
            Some(s) => Ok(Some(s)),
            None => {
                let mut e = copy("invalid session file ");
                e.append(path);
                Err(e)
            },
        },
    }
}

pub open spec fn at_least_one(n: u64) -> u64 {
    if n > 1 {
        n
    } else {
        1
    }
}

/// A session that begins now.
pub open spec fn new_session(session: Seq<char>, max_rounds: Option<u64>, now: u64) -> SessionView {
    SessionView {
        session,
        created: now,
        updated: now,
        round: 1,
        max_rounds: match max_rounds {
            Some(n) => at_least_one(n),
            None => DEFAULT_MAX_ROUNDS,
        },
        status: "active"@,
        entries: Seq::empty(),
        result: None,
        next_id: 1,
    }
}

/// A session that is there, or a new one. A session from memory keeps its rounds.
pub open spec fn opened(
    cache: Seq<(Seq<char>, SessionView)>,
    workspace: Seq<char>,
    session: Seq<char>,
    stored: StoredView,
    path: Seq<char>,
    max_rounds: Option<u64>,
    now: u64,
) -> Result<SessionView, Seq<char>> {
    match loaded(cache, workspace, session, stored, path) {
        Err(e) => Err(e),
        Ok(None) => Ok(new_session(session, max_rounds, now)),
        Ok(Some(s)) => if at(cache, cache_key(workspace, session)) is Some {
            Ok(s)
        } else {
            Ok(
                SessionView {
                    max_rounds: match max_rounds {
                        Some(n) => at_least_one(n),
                        None => s.max_rounds,
                    },
                    ..s
                },
            )
        },
    }
}

pub open spec fn open_outcome(r: Result<Session, String>) -> Result<SessionView, Seq<char>> {
    match r {
        Ok(s) => Ok(s@),
        Err(e) => Err(e@),
    }
}

pub fn get_or_create_session(
    cache: &SessionCache,
    workspace: &str,
    session: &str,
    stored: &Stored,
    path: &str,
    max_rounds: Option<u64>,
    now: u64,
) -> (r: Result<Session, String>)
    ensures
        open_outcome(r) == opened(
            cache@,
            workspace@,
            session@,
            stored@,
            path@,
            max_rounds,
            now,
        ),
{
    let s = match load_session(cache, workspace, session, stored, path) {
        Err(e) => {
            return Err(e);
        },
        Ok(s) => s,
    };
    match s {
        Some(s) => {
            let k = make_key(workspace, session);
            if cache.sessions.get(k.as_str()).is_some() {
                return Ok(s);
            }
            let mut s = s;
            if let Some(n) = max_rounds {
                s.max_rounds = if n > 1 {
                    n
                } else {
                    1
                };
            }
            Ok(s)
        },
        None => {
            let entries: Vec<Entry> = Vec::new();
            assert(entry_views(entries@) =~= Seq::<EntryView>::empty());
            Ok(
                Session {
                    session: copy(session),
                    created: now,
                    updated: now,
                    round: 1,
                    max_rounds: match max_rounds {
                        Some(n) => if n > 1 {
                            n
                        } else {
                            1
                        },
                        None => DEFAULT_MAX_ROUNDS,
                    },
                    status: copy("active"),
                    entries,
                    result: None,
                    next_id: 1,
                },
            )
        },
    }
}

/// Opens a session and keeps it in memory; the document that stores it.
pub fn get_or_create_session_for_test(
    cache: &mut SessionCache,
    workspace: &str,
    session: &str,
    stored: &Stored,
    path: &str,
    now: u64,
) -> (r: Result<Datum, String>)
    requires
        old(cache).wf(),
    ensures
        final(cache).wf(),
        match opened(old(cache)@, workspace@, session@, stored@, path@, None, now) {
            Err(e) => r matches Err(x) && x@ == e && final(cache)@ == old(cache)@,
            Ok(s) => r matches Ok(d) && d@ == session_json(workspace@, s) && final(cache)@ == put(
                old(cache)@,
                cache_key(workspace@, s.session),
                s,
            ),
        },
{
    match get_or_create_session(cache, workspace, session, stored, path, None, now) {
        Err(e) => Err(e),
        Ok(s) => {
            let doc = session_to_value(workspace, &s);
            cache.keep(workspace, &s);
            Ok(doc)
        },
    }
}

/// Whether a session is there and not finalized, and why not.
pub open spec fn open_verdict(
    session: Seq<char>,
    s: Result<Option<SessionView>, Seq<char>>,
) -> Result<(), Seq<char>> {
    match s {
        Err(e) => Err(e),
        Ok(None) => Err("session "@ + session + " not found"@),
        Ok(Some(s)) => if s.status == "final"@ {
            Err("session "@ + session + " is finalized"@)
        } else {
            Ok(())
        },
    }
}

pub fn session_error(session: &str, what: &str) -> (r: String)
    ensures
        r@ == "session "@ + session@ + what@,
{
    let mut e = copy("session ");
    e.append(session);
    e.append(what);
    e
}

pub fn require_open_session(
    cache: &SessionCache,
    workspace: &str,
    session: &str,
    stored: &Stored,
    path: &str,
) -> (r: Result<(), String>)
    ensures
        verdict(r) == open_verdict(
            session@,
            loaded(cache@, workspace@, session@, stored@, path@),
        ),
{
    match load_session(cache, workspace, session, stored, path) {
        Err(e) => Err(e),
        Ok(None) => Err(session_error(session, " not found")),
        Ok(Some(s)) => if same(s.status.as_str(), "final") {
            Err(session_error(session, " is finalized"))
        } else {
            Ok(())
        },
    }
}

/// The last of the first `n` entries that a critic made.
pub open spec fn last_critic(v: Seq<EntryView>, n: nat) -> Option<int>
    decreases n,
{
    if n == 0 || n > v.len() {
        None
    } else if same_word(v[n - 1].role, "critic"@) {
        Some(n - 1)
    } else {
        last_critic(v, (n - 1) as nat)
    }
}

pub fn find_last_critic(v: &Vec<Entry>) -> (r: Option<usize>)
    ensures
        crate::syntax::place(r) == last_critic(entry_views(v@), v@.len()),
        r matches Some(k) ==> k < v@.len(),
{
    let mut n: usize = v.len();
    let ghost all = entry_views(v@);
    while n > 0
        invariant
            all == entry_views(v@),
            n <= v@.len(),
            last_critic(all, v@.len()) == last_critic(all, n as nat),
        decreases n,
    {
        assert(all[n - 1] == v@[n - 1]@);
        if is_same_word(v[n - 1].role.as_str(), "critic") {
            return Some(n - 1);
        }
        n = n - 1;
    }
    None
}

/// The questions that are open: those of the last critic, else of the last entry.
pub open spec fn open_count(v: Seq<EntryView>) -> nat {
    match last_critic(v, v.len()) {
        Some(k) => v[k].open_questions.len(),
        None => if v.len() > 0 {
            v.last().open_questions.len()
        } else {
            0
        },
    }
}

pub open spec fn rounds_left(s: SessionView) -> u64 {
    if s.max_rounds >= s.round {
        (s.max_rounds - s.round) as u64
    } else {
        0
    }
}

pub open spec fn snapshot_of(s: SessionView) -> SnapshotView {
    SnapshotView {
        status: s.status,
        round: s.round,
        max_rounds: s.max_rounds,
        rounds_remaining: rounds_left(s),
        open_questions: open_count(s.entries),
        entries: s.entries.len(),
        result: s.result,
    }
}

pub fn snapshot(s: &Session) -> (r: SessionSnapshot)
    ensures
        r@ == snapshot_of(s@),
{
    let n: usize = s.entries.len();
    assert(s@.entries.len() == n);
    let open: usize = match find_last_critic(&s.entries) {
        Some(k) => {
            assert(s@.entries[k as int] == s.entries@[k as int]@);
            s.entries[k].open_questions.len()
        },
        None => if n > 0 {
            assert(s@.entries.last() == s.entries@[n - 1]@);
            s.entries[n - 1].open_questions.len()
        } else {
            0
        },
    };
    SessionSnapshot {
        status: copy(s.status.as_str()),
        round: s.round,
        max_rounds: s.max_rounds,
        rounds_remaining: if s.max_rounds >= s.round {
            s.max_rounds - s.round
        } else {
            0
        },
        open_questions: open,
        entries: n,
        result: copy_opt(&s.result),
    }
}

/// What others see of a session, if it is there.
pub fn session_snapshot(
    cache: &SessionCache,
    workspace: &str,
    session: &str,
    stored: &Stored,
    path: &str,
) -> (r: Result<Option<SessionSnapshot>, String>)
    ensures
        match loaded(cache@, workspace@, session@, stored@, path@) {
            Err(e) => r matches Err(x) && x@ == e,
            Ok(None) => r matches Ok(o) && o is None,
            Ok(Some(s)) => r matches Ok(o) && o is Some && o->Some_0@ == snapshot_of(s),
        },
{
    match load_session(cache, workspace, session, stored, path) {
        Err(e) => Err(e),
        Ok(None) => Ok(None),
        Ok(Some(s)) => Ok(Some(snapshot(&s))),
    }
}

// ---------------------------------------------------------------------------
// Laws

/// A session that was dropped from memory is not found there, and every other
/// session still is.
pub proof fn law_evicted_session_is_gone(
    cache: Seq<(Seq<char>, SessionView)>,
    key: Seq<char>,
    other: Seq<char>,
)
    ensures
        at(cache.filter(spared(key, false)), key) is None,
        other != key ==> at(cache.filter(spared(key, false)), other) == at(cache, other),
{
    lemma_filter_at(cache, spared(key, false), key, false);
    if other != key {
        lemma_filter_at(cache, spared(key, false), other, true);
    }
}

/// Dropping a workspace leaves no session of it in memory, and leaves those of other
/// workspaces.
pub proof fn law_evicted_workspace_is_gone(
    cache: Seq<(Seq<char>, SessionView)>,
    prefix: Seq<char>,
    key: Seq<char>,
)
    ensures
        starts(key, prefix) ==> at(cache.filter(spared(prefix, true)), key) is None,
        !starts(key, prefix) ==> at(cache.filter(spared(prefix, true)), key) == at(cache, key),
{
    lemma_filter_at(cache, spared(prefix, true), key, !starts(key, prefix));
}

/// Filtering by name keeps or drops what is found under a name.
proof fn lemma_filter_at(
    cache: Seq<(Seq<char>, SessionView)>,
    keep: spec_fn((Seq<char>, SessionView)) -> bool,
    key: Seq<char>,
    stays: bool,
)
    requires
        forall|v: SessionView| #[trigger] keep((key, v)) == stays,
    ensures
        at(cache.filter(keep), key) == (if stays {
            at(cache, key)
        } else {
            None
        }),
    decreases cache.len(),
{
    let e = Seq::<(Seq<char>, SessionView)>::empty();
    reveal(Seq::filter);
    if cache.len() == 0 {
        assert(cache.filter(keep) =~= e);
    } else {
        let rest = cache.drop_first();
        lemma_filter_at(rest, keep, key, stays);
        let one = seq![cache[0]];
        assert(cache =~= one + rest);
        Seq::filter_distributes_over_add(one, rest, keep);
        assert(one.drop_last() =~= e);
        assert(e.filter(keep) =~= e);
        let f = cache.filter(keep);
        if keep(cache[0]) {
            assert(one.filter(keep) =~= one);
            assert(f =~= one + rest.filter(keep));
            assert(f.drop_first() =~= rest.filter(keep));
            assert(f[0] == cache[0]);
            if cache[0].0 == key {
                assert(cache[0] == (key, cache[0].1));
                assert(keep((key, cache[0].1)));
            }
        } else {
            assert(one.filter(keep) =~= e);
            assert(f =~= rest.filter(keep));
            if cache[0].0 == key {
                assert(cache[0] == (key, cache[0].1));
                assert(!keep((key, cache[0].1)));
            }
        }
    }
}

/// An entry whose texts carry no white space around them.
pub open spec fn tidy_entry(e: EntryView) -> bool {
    &&& tidy_texts(e.claims)
    &&& tidy_texts(e.decisions)
    &&& tidy_texts(e.open_questions)
    &&& tidy_texts(e.anchors)
    &&& tidy_texts(e.commands)
    &&& tidy_texts(e.constraints)
    &&& tidy_texts(e.tags)
    &&& e.handoff_to matches Some(h) ==> tidy_text(h)
    &&& e.note_ref matches Some(n) ==> tidy_text(n)
}

/// An entry comes back from the store as it went in.
pub proof fn law_entry_round_trip(e: EntryView)
    requires
        tidy_entry(e),
    ensures
        entry_of(entry_json(e)) == Some(e),
{
    let ms = entry_head(e) + entry_tail(e);
    let j = entry_json(e);
    lemma_entry_keys();
    assert forall|a: int, b: int| 0 <= a < b < ms.len() implies (#[trigger] ms[a]).0
        != (#[trigger] ms[b]).0 by {
        assert(ms[a].0 == entry_keys()[a]);
        assert(ms[b].0 == entry_keys()[b]);
    }
    assert forall|i: int| 0 <= i < 16 implies get(j, (#[trigger] ms[i]).0) == Some(ms[i].1) by {
        crate::json::lemma_record_get(ms, i);
    }
    assert(get(j, ms[0].0) == Some(ms[0].1));
    assert(get(j, ms[1].0) == Some(ms[1].1));
    assert(get(j, ms[2].0) == Some(ms[2].1));
    assert(get(j, ms[3].0) == Some(ms[3].1));
    assert(get(j, ms[4].0) == Some(ms[4].1));
    assert(get(j, ms[5].0) == Some(ms[5].1));
    assert(get(j, ms[6].0) == Some(ms[6].1));
    assert(get(j, ms[7].0) == Some(ms[7].1));
    assert(get(j, ms[8].0) == Some(ms[8].1));
    assert(get(j, ms[9].0) == Some(ms[9].1));
    assert(get(j, ms[10].0) == Some(ms[10].1));
    assert(get(j, ms[11].0) == Some(ms[11].1));
    assert(get(j, ms[12].0) == Some(ms[12].1));
    assert(get(j, ms[13].0) == Some(ms[13].1));
    assert(get(j, ms[14].0) == Some(ms[14].1));
    assert(get(j, ms[15].0) == Some(ms[15].1));
    crate::runs::lemma_list_back(j, "claims"@, e.claims);
    crate::runs::lemma_list_back(j, "decisions"@, e.decisions);
    crate::runs::lemma_list_back(j, "open_questions"@, e.open_questions);
    crate::runs::lemma_list_back(j, "anchors"@, e.anchors);
    crate::runs::lemma_list_back(j, "commands"@, e.commands);
    crate::runs::lemma_list_back(j, "constraints"@, e.constraints);
    crate::runs::lemma_list_back(j, "tags"@, e.tags);
}

pub open spec fn entry_keys() -> Seq<Seq<char>> {
    seq![
        "id"@,
        "round"@,
        "role"@,
        "kind"@,
        "ts"@,
        "summary"@,
        "claims"@,
        "decisions"@,
        "open_questions"@,
        "anchors"@,
        "commands"@,
        "constraints"@,
        "handoff_to"@,
        "note_ref"@,
        "tags"@,
        "approved"@,
    ]
}

proof fn lemma_entry_keys()
    ensures
        forall|i: int, j: int|
            0 <= i < j < entry_keys().len() ==> (#[trigger] entry_keys()[i]) != (
            #[trigger] entry_keys()[j]),
{
    reveal_strlit("id");
    reveal_strlit("round");
    reveal_strlit("role");
    reveal_strlit("kind");
    reveal_strlit("ts");
    reveal_strlit("summary");
    reveal_strlit("claims");
    reveal_strlit("decisions");
    reveal_strlit("open_questions");
    reveal_strlit("anchors");
    reveal_strlit("commands");
    reveal_strlit("constraints");
    reveal_strlit("handoff_to");
    reveal_strlit("note_ref");
    reveal_strlit("tags");
    reveal_strlit("approved");
    assert("id"@.len() == 2 && "id"@[0] == 'i');
    assert("round"@.len() == 5);
    assert("role"@.len() == 4 && "role"@[0] == 'r');
    assert("kind"@.len() == 4 && "kind"@[0] == 'k');
    assert("ts"@.len() == 2 && "ts"@[0] == 't');
    assert("summary"@.len() == 7 && "summary"@[0] == 's');
    assert("claims"@.len() == 6);
    assert("decisions"@.len() == 9);
    assert("open_questions"@.len() == 14);
    assert("anchors"@.len() == 7 && "anchors"@[0] == 'a');
    assert("commands"@.len() == 8 && "commands"@[0] == 'c');
    assert("constraints"@.len() == 11);
    assert("handoff_to"@.len() == 10);
    assert("note_ref"@.len() == 8 && "note_ref"@[0] == 'n');
    assert("tags"@.len() == 4 && "tags"@[0] == 't');
    assert("approved"@.len() == 8 && "approved"@[0] == 'a');
}

/// A session whose entries are tidy comes back from the store as it went in.
pub proof fn law_session_round_trip(workspace: Seq<char>, s: SessionView)
    requires
        forall|i: int| 0 <= i < s.entries.len() ==> tidy_entry(#[trigger] s.entries[i]),
    ensures
        session_of(session_json(workspace, s)) == Some(s),
{
    let ms = session_head(workspace, s) + session_tail(s);
    let j = session_json(workspace, s);
    lemma_session_keys();
    assert forall|a: int, b: int| 0 <= a < b < ms.len() implies (#[trigger] ms[a]).0
        != (#[trigger] ms[b]).0 by {
        assert(ms[a].0 == session_keys()[a]);
        assert(ms[b].0 == session_keys()[b]);
    }
    assert forall|i: int| 0 <= i < 11 implies get(j, (#[trigger] ms[i]).0) == Some(ms[i].1) by {
        crate::json::lemma_record_get(ms, i);
    }
    assert(get(j, ms[2].0) == Some(ms[2].1));
    assert(get(j, ms[3].0) == Some(ms[3].1));
    assert(get(j, ms[4].0) == Some(ms[4].1));
    assert(get(j, ms[5].0) == Some(ms[5].1));
    assert(get(j, ms[6].0) == Some(ms[6].1));
    assert(get(j, ms[7].0) == Some(ms[7].1));
    assert(get(j, ms[8].0) == Some(ms[8].1));
    assert(get(j, ms[9].0) == Some(ms[9].1));
    assert(get(j, ms[10].0) == Some(ms[10].1));
    lemma_entries_back(s.entries);
}

proof fn lemma_entries_back(v: Seq<EntryView>)
    requires
        forall|i: int| 0 <= i < v.len() ==> tidy_entry(#[trigger] v[i]),
    ensures
        v.map_values(|e: EntryView| entry_json(e)).filter_map(read_entry()) == v,
    decreases v.len(),
{
    let all = v.map_values(|e: EntryView| entry_json(e));
    if v.len() == 0 {
        assert(all.take(0) =~= all);
        assert(all.filter_map(read_entry()) =~= v);
    } else {
        let n = v.len() - 1;
        let front = v.drop_last();
        assert forall|i: int| 0 <= i < front.len() implies tidy_entry(#[trigger] front[i]) by {
            assert(front[i] == v[i]);
        }
        lemma_entries_back(front);
        all.lemma_filter_map_take_succ(read_entry(), n);
        assert(all.take(n) =~= front.map_values(|e: EntryView| entry_json(e)));
        assert(all.take(n + 1) =~= all);
        assert(tidy_entry(v[n]));
        law_entry_round_trip(v[n]);
        assert(all[n] == entry_json(v[n]));
        assert(all.filter_map(read_entry()) =~= front + seq![v[n]]);
        assert(v =~= front.push(v[n]));
    }
}

pub open spec fn session_keys() -> Seq<Seq<char>> {
    seq![
        "version"@,
        "workspace_id"@,
        "session"@,
        "created"@,
        "updated"@,
        "round"@,
        "max_rounds"@,
        "status"@,
        "entries"@,
        "result"@,
        "next_id"@,
    ]
}

proof fn lemma_session_keys()
    ensures
        forall|i: int, j: int|
            0 <= i < j < session_keys().len() ==> (#[trigger] session_keys()[i]) != (
            #[trigger] session_keys()[j]),
{
    reveal_strlit("version");
    reveal_strlit("workspace_id");
    reveal_strlit("session");
    reveal_strlit("created");
    reveal_strlit("updated");
    reveal_strlit("round");
    reveal_strlit("max_rounds");
    reveal_strlit("status");
    reveal_strlit("entries");
    reveal_strlit("result");
    reveal_strlit("next_id");
    assert("version"@.len() == 7 && "version"@[0] == 'v');
    assert("workspace_id"@.len() == 12);
    assert("session"@.len() == 7 && "session"@[0] == 's');
    assert("created"@.len() == 7 && "created"@[0] == 'c');
    assert("updated"@.len() == 7 && "updated"@[0] == 'u');
    assert("round"@.len() == 5);
    assert("max_rounds"@.len() == 10);
    assert("status"@.len() == 6 && "status"@[0] == 's');
    assert("entries"@.len() == 7 && "entries"@[0] == 'e');
    assert("result"@.len() == 6 && "result"@[0] == 'r');
    assert("next_id"@.len() == 7 && "next_id"@[0] == 'n');
}

} // verus!

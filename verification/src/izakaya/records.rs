//! What the journal and its projection are made of: agents, handoffs, notes,
//! policies, and their JSON forms.
use vstd::prelude::*;
use crate::izakaya::model::{claim_from, claim_json, claim_views, Claim, ClaimView};
use crate::json::{
    add_member, array, as_array, as_str, as_u64, double_at, flag_or, get, get_items, get_str,
    get_strings, get_u64, json_opt_str, json_opt_u64, json_strs, no_members, number_or, object,
    opt_str_value, opt_u64_value, read_double, str_or as text_or, str_value, string_or, strings_at,
    strs_value, u64_or, views, Datum, Json,
};
use crate::text::{copy, copy_all, copy_opt, is_blank, opt_text, strs};

verus! {

// ---------------------------------------------------------------------------
// Reading members of stored objects

/// A member that is a string and not empty.
pub open spec fn some_str(j: Json, key: Seq<char>) -> Option<Seq<char>> {
    match as_str(get(j, key)) {
        Some(s) => if s.len() > 0 {
            Some(s)
        } else {
            None
        },
        None => None,
    }
}

pub fn opt_str(v: &Datum, key: &str) -> (r: Option<String>)
    ensures
        opt_text(r) == some_str(v@, key@),
{
    match get_str(v, key) {
        Some(s) => if is_blank(s.as_str()) {
            None
        } else {
            Some(copy(s.as_str()))
        },
        None => None,
    }
}

pub fn str_or(v: &Datum, key: &str) -> (r: String)
    ensures
        r@ == text_or(v@, key@, ""@),
{
    string_or(v, key, "")
}

pub fn u(v: &Datum, key: &str) -> (r: u64)
    ensures
        r == u64_or(v@, key@, 0),
{
    number_or(v, key, 0)
}

/// The claims that a list of values describes.
pub open spec fn claims_in(items: Seq<Json>) -> Seq<ClaimView> {
    items.filter_map(|j: Json| claim_from(j))
}

/// The claims at member `claims`.
pub open spec fn claims_at(j: Json) -> Seq<ClaimView> {
    match as_array(get(j, "claims"@)) {
        Some(a) => claims_in(a),
        None => Seq::empty(),
    }
}

pub fn claims_of(v: &Datum) -> (r: Vec<Claim>)
    ensures
        claim_views(r@) == claims_at(v@),
{
    let mut out: Vec<Claim> = Vec::new();
    assert(claim_views(out@) =~= Seq::<ClaimView>::empty());
    match get_items(v, "claims") {
        None => {},
        Some(items) => {
            let ghost f = |j: Json| claim_from(j);
            let ghost all = views(items@);
            assert(claim_views(out@) =~= all.take(0).filter_map(f));
            for i in 0..items.len()
                invariant
                    all == views(items@),
                    f == (|j: Json| claim_from(j)),
                    claim_views(out@) == all.take(i as int).filter_map(f),
            {
                proof {
                    all.lemma_filter_map_take_succ(f, i as int);
                }
                let ghost before = out@;
                if let Some(c) = Claim::from_value(&items[i]) {
                    out.push(c);
                    assert(claim_views(out@) =~= claim_views(before).push(c@));
                    assert(claim_views(out@) =~= all.take(i as int).filter_map(f) + seq![c@]);
                } else {
                    assert(claim_views(out@) =~= all.take(i as int).filter_map(f) + Seq::<
                        ClaimView,
                    >::empty());
                }
            }
            assert(all.take(all.len() as int) =~= all);
        },
    }
    out
}

/// Claims as a JSON list.
pub open spec fn claims_json(cs: Seq<ClaimView>) -> Json {
    Json::Array(Seq::new(cs.len(), |i: int| claim_json(cs[i])))
}

pub fn claims_value(cs: &Vec<Claim>) -> (r: Datum)
    ensures
        r@ == claims_json(claim_views(cs@)),
{
    let mut out: Vec<Datum> = Vec::new();
    for i in 0..cs.len()
        invariant
            out@.len() == i,
            forall|j: int| 0 <= j < i ==> (#[trigger] out@[j])@ == claim_json(cs@[j]@),
    {
        out.push(cs[i].to_value());
    }
    let r = array(out);
    assert(r@->Array_0 =~= claims_json(claim_views(cs@))->Array_0);
    r
}

pub fn copy_claims(cs: &Vec<Claim>) -> (r: Vec<Claim>)
    ensures
        claim_views(r@) == claim_views(cs@),
{
    let mut out: Vec<Claim> = Vec::new();
    for i in 0..cs.len()
        invariant
            out@.len() == i,
            forall|j: int| 0 <= j < i ==> (#[trigger] out@[j])@ == cs@[j]@,
    {
        out.push(cs[i].copy());
    }
    assert(claim_views(out@) =~= claim_views(cs@));
    out
}

// ---------------------------------------------------------------------------
// Agents

pub struct Agent {
    pub agent_id: String,
    pub lease_id: String,
    pub revision: u64,
    pub state: String,
    pub role: String,
    pub task: String,
    pub summary: String,
    pub mas_session: Option<String>,
    pub checked_in_at: u64,
    pub last_seen_at: u64,
    pub expires_at: u64,
    pub ttl_secs: u64,
    pub workspace_id: String,
    pub worktree: String,
    pub branch: String,
    pub base_oid: String,
    pub head_oid: String,
    pub dirty_paths: Vec<String>,
    pub claims: Vec<Claim>,
    pub blockers: Vec<String>,
    pub checkpoint: Option<String>,
    pub checkout_reason: Option<String>,
}

/// The values of an [`Agent`].
pub struct AgentRecord {
    pub agent_id: Seq<char>,
    pub lease_id: Seq<char>,
    pub revision: u64,
    pub state: Seq<char>,
    pub role: Seq<char>,
    pub task: Seq<char>,
    pub summary: Seq<char>,
    pub mas_session: Option<Seq<char>>,
    pub checked_in_at: u64,
    pub last_seen_at: u64,
    pub expires_at: u64,
    pub ttl_secs: u64,
    pub workspace_id: Seq<char>,
    pub worktree: Seq<char>,
    pub branch: Seq<char>,
    pub base_oid: Seq<char>,
    pub head_oid: Seq<char>,
    pub dirty_paths: Seq<Seq<char>>,
    pub claims: Seq<ClaimView>,
    pub blockers: Seq<Seq<char>>,
    pub checkpoint: Option<Seq<char>>,
    pub checkout_reason: Option<Seq<char>>,
}

impl View for Agent {
    type V = AgentRecord;

    open spec fn view(&self) -> AgentRecord {
        AgentRecord {
            agent_id: self.agent_id@,
            lease_id: self.lease_id@,
            revision: self.revision,
            state: self.state@,
            role: self.role@,
            task: self.task@,
            summary: self.summary@,
            mas_session: opt_text(self.mas_session),
            checked_in_at: self.checked_in_at,
            last_seen_at: self.last_seen_at,
            expires_at: self.expires_at,
            ttl_secs: self.ttl_secs,
            workspace_id: self.workspace_id@,
            worktree: self.worktree@,
            branch: self.branch@,
            base_oid: self.base_oid@,
            head_oid: self.head_oid@,
            dirty_paths: strs(self.dirty_paths@),
            claims: claim_views(self.claims@),
            blockers: strs(self.blockers@),
            checkpoint: opt_text(self.checkpoint),
            checkout_reason: opt_text(self.checkout_reason),
        }
    }
}

/// An agent as a JSON object.
pub open spec fn agent_json(a: AgentRecord) -> Json {
    Json::Object(
        seq![
            ("agent_id"@, Json::Str(a.agent_id)),
            ("base_oid"@, Json::Str(a.base_oid)),
            ("blockers"@, json_strs(a.blockers)),
            ("branch"@, Json::Str(a.branch)),
            ("checked_in_at"@, Json::UInt(a.checked_in_at)),
            ("checkout_reason"@, json_opt_str(a.checkout_reason)),
            ("checkpoint"@, json_opt_str(a.checkpoint)),
            ("claims"@, claims_json(a.claims)),
            ("dirty_paths"@, json_strs(a.dirty_paths)),
            ("expires_at"@, Json::UInt(a.expires_at)),
            ("head_oid"@, Json::Str(a.head_oid)),
            ("last_seen_at"@, Json::UInt(a.last_seen_at)),
            ("lease_id"@, Json::Str(a.lease_id)),
            ("mas_session"@, json_opt_str(a.mas_session)),
            ("revision"@, Json::UInt(a.revision)),
            ("role"@, Json::Str(a.role)),
            ("state"@, Json::Str(a.state)),
            ("summary"@, Json::Str(a.summary)),
            ("task"@, Json::Str(a.task)),
            ("ttl_secs"@, Json::UInt(a.ttl_secs)),
            ("workspace_id"@, Json::Str(a.workspace_id)),
            ("worktree"@, Json::Str(a.worktree)),
        ],
    )
}

/// The agent that a JSON value describes; it needs an id.
pub open spec fn agent_from(j: Json) -> Option<AgentRecord> {
    match as_str(get(j, "agent_id"@)) {
        None => None,
        Some(id) => Some(
            AgentRecord {
                agent_id: id,
                lease_id: text_or(j, "lease_id"@, ""@),
                revision: u64_or(j, "revision"@, 0),
                state: text_or(j, "state"@, ""@),
                role: text_or(j, "role"@, ""@),
                task: text_or(j, "task"@, ""@),
                summary: text_or(j, "summary"@, ""@),
                mas_session: some_str(j, "mas_session"@),
                checked_in_at: u64_or(j, "checked_in_at"@, 0),
                last_seen_at: u64_or(j, "last_seen_at"@, 0),
                expires_at: u64_or(j, "expires_at"@, 0),
                ttl_secs: u64_or(j, "ttl_secs"@, 0),
                workspace_id: text_or(j, "workspace_id"@, ""@),
                worktree: text_or(j, "worktree"@, ""@),
                branch: text_or(j, "branch"@, ""@),
                base_oid: text_or(j, "base_oid"@, ""@),
                head_oid: text_or(j, "head_oid"@, ""@),
                dirty_paths: strings_at(j, "dirty_paths"@),
                claims: claims_at(j),
                blockers: strings_at(j, "blockers"@),
                checkpoint: some_str(j, "checkpoint"@),
                checkout_reason: some_str(j, "checkout_reason"@),
            },
        ),
    }
}

impl Agent {
    pub fn to_value(&self) -> (r: Datum)
        ensures
            r@ == agent_json(self@),
    {
        let mut ms = no_members();
        add_member(&mut ms, "agent_id", str_value(self.agent_id.as_str()));
        add_member(&mut ms, "base_oid", str_value(self.base_oid.as_str()));
        add_member(&mut ms, "blockers", strs_value(&self.blockers));
        add_member(&mut ms, "branch", str_value(self.branch.as_str()));
        add_member(&mut ms, "checked_in_at", Datum::UInt(self.checked_in_at));
        add_member(&mut ms, "checkout_reason", opt_str_value(&self.checkout_reason));
        add_member(&mut ms, "checkpoint", opt_str_value(&self.checkpoint));
        add_member(&mut ms, "claims", claims_value(&self.claims));
        add_member(&mut ms, "dirty_paths", strs_value(&self.dirty_paths));
        add_member(&mut ms, "expires_at", Datum::UInt(self.expires_at));
        add_member(&mut ms, "head_oid", str_value(self.head_oid.as_str()));
        add_member(&mut ms, "last_seen_at", Datum::UInt(self.last_seen_at));
        add_member(&mut ms, "lease_id", str_value(self.lease_id.as_str()));
        add_member(&mut ms, "mas_session", opt_str_value(&self.mas_session));
        add_member(&mut ms, "revision", Datum::UInt(self.revision));
        add_member(&mut ms, "role", str_value(self.role.as_str()));
        add_member(&mut ms, "state", str_value(self.state.as_str()));
        add_member(&mut ms, "summary", str_value(self.summary.as_str()));
        add_member(&mut ms, "task", str_value(self.task.as_str()));
        add_member(&mut ms, "ttl_secs", Datum::UInt(self.ttl_secs));
        add_member(&mut ms, "workspace_id", str_value(self.workspace_id.as_str()));
        add_member(&mut ms, "worktree", str_value(self.worktree.as_str()));
        let r = object(ms);
        assert(r@->Object_0 =~= agent_json(self@)->Object_0);
        r
    }

    pub fn from_value(v: &Datum) -> (r: Option<Self>)
        ensures
            match r {
                Some(a) => agent_from(v@) == Some(a@),
                None => agent_from(v@) is None,
            },
    {
        let agent_id = match get_str(v, "agent_id") {
            Some(s) => copy(s.as_str()),
            None => {
                return None;
            },
        };
        Some(
            Agent {
                agent_id,
                lease_id: str_or(v, "lease_id"),
                revision: u(v, "revision"),
                state: str_or(v, "state"),
                role: str_or(v, "role"),
                task: str_or(v, "task"),
                summary: str_or(v, "summary"),
                mas_session: opt_str(v, "mas_session"),
                checked_in_at: u(v, "checked_in_at"),
                last_seen_at: u(v, "last_seen_at"),
                expires_at: u(v, "expires_at"),
                ttl_secs: u(v, "ttl_secs"),
                workspace_id: str_or(v, "workspace_id"),
                worktree: str_or(v, "worktree"),
                branch: str_or(v, "branch"),
                base_oid: str_or(v, "base_oid"),
                head_oid: str_or(v, "head_oid"),
                dirty_paths: get_strings(v, "dirty_paths"),
                claims: claims_of(v),
                blockers: get_strings(v, "blockers"),
                checkpoint: opt_str(v, "checkpoint"),
                checkout_reason: opt_str(v, "checkout_reason"),
            },
        )
    }

    pub fn copy(&self) -> (r: Agent)
        ensures
            r@ == self@,
    {
        Agent {
            agent_id: copy(self.agent_id.as_str()),
            lease_id: copy(self.lease_id.as_str()),
            revision: self.revision,
            state: copy(self.state.as_str()),
            role: copy(self.role.as_str()),
            task: copy(self.task.as_str()),
            summary: copy(self.summary.as_str()),
            mas_session: copy_opt(&self.mas_session),
            checked_in_at: self.checked_in_at,
            last_seen_at: self.last_seen_at,
            expires_at: self.expires_at,
            ttl_secs: self.ttl_secs,
            workspace_id: copy(self.workspace_id.as_str()),
            worktree: copy(self.worktree.as_str()),
            branch: copy(self.branch.as_str()),
            base_oid: copy(self.base_oid.as_str()),
            head_oid: copy(self.head_oid.as_str()),
            dirty_paths: copy_all(&self.dirty_paths),
            claims: copy_claims(&self.claims),
            blockers: copy_all(&self.blockers),
            checkpoint: copy_opt(&self.checkpoint),
            checkout_reason: copy_opt(&self.checkout_reason),
        }
    }
}

// ---------------------------------------------------------------------------
// Handoffs, notes, policies

pub struct Handoff {
    pub id: String,
    pub from: String,
    pub to: String,
    pub status: String,
    pub summary: String,
    pub mas_session: Option<String>,
    pub mas_entry_id: Option<u64>,
    pub note_ref: Option<String>,
    pub run_ids: Vec<String>,
    pub artifacts: Vec<String>,
    pub checkpoint: Option<String>,
    pub anchors: Vec<String>,
    pub commands: Vec<String>,
    pub constraints: Vec<String>,
    pub created_seq: u64,
    pub created_at: u64,
    pub accepted_by: Option<String>,
}

/// The values of a [`Handoff`].
pub struct HandoffView {
    pub id: Seq<char>,
    pub from: Seq<char>,
    pub to: Seq<char>,
    pub status: Seq<char>,
    pub summary: Seq<char>,
    pub mas_session: Option<Seq<char>>,
    pub mas_entry_id: Option<u64>,
    pub note_ref: Option<Seq<char>>,
    pub run_ids: Seq<Seq<char>>,
    pub artifacts: Seq<Seq<char>>,
    pub checkpoint: Option<Seq<char>>,
    pub anchors: Seq<Seq<char>>,
    pub commands: Seq<Seq<char>>,
    pub constraints: Seq<Seq<char>>,
    pub created_seq: u64,
    pub created_at: u64,
    pub accepted_by: Option<Seq<char>>,
}

impl View for Handoff {
    type V = HandoffView;

    open spec fn view(&self) -> HandoffView {
        HandoffView {
            id: self.id@,
            from: self.from@,
            to: self.to@,
            status: self.status@,
            summary: self.summary@,
            mas_session: opt_text(self.mas_session),
            mas_entry_id: self.mas_entry_id,
            note_ref: opt_text(self.note_ref),
            run_ids: strs(self.run_ids@),
            artifacts: strs(self.artifacts@),
            checkpoint: opt_text(self.checkpoint),
            anchors: strs(self.anchors@),
            commands: strs(self.commands@),
            constraints: strs(self.constraints@),
            created_seq: self.created_seq,
            created_at: self.created_at,
            accepted_by: opt_text(self.accepted_by),
        }
    }
}

pub open spec fn handoff_views(v: Seq<Handoff>) -> Seq<HandoffView> {
    Seq::new(v.len(), |i: int| v[i]@)
}

/// A handoff as a JSON object.
pub open spec fn handoff_json(h: HandoffView) -> Json {
    Json::Object(
        seq![
            ("accepted_by"@, json_opt_str(h.accepted_by)),
            ("anchors"@, json_strs(h.anchors)),
            ("artifacts"@, json_strs(h.artifacts)),
            ("checkpoint"@, json_opt_str(h.checkpoint)),
            ("commands"@, json_strs(h.commands)),
            ("constraints"@, json_strs(h.constraints)),
            ("created_at"@, Json::UInt(h.created_at)),
            ("created_seq"@, Json::UInt(h.created_seq)),
            ("from"@, Json::Str(h.from)),
            ("id"@, Json::Str(h.id)),
            ("mas_entry_id"@, json_opt_u64(h.mas_entry_id)),
            ("mas_session"@, json_opt_str(h.mas_session)),
            ("note_ref"@, json_opt_str(h.note_ref)),
            ("run_ids"@, json_strs(h.run_ids)),
            ("status"@, Json::Str(h.status)),
            ("summary"@, Json::Str(h.summary)),
            ("to"@, Json::Str(h.to)),
        ],
    )
}

/// The handoff that a JSON value describes; it needs an id, and one without a
/// status is on offer.
pub open spec fn handoff_from(j: Json) -> Option<HandoffView> {
    match as_str(get(j, "id"@)) {
        None => None,
        Some(id) => Some(
            HandoffView {
                id,
                from: text_or(j, "from"@, ""@),
                to: text_or(j, "to"@, ""@),
                status: if text_or(j, "status"@, ""@).len() == 0 {
                    "offered"@
                } else {
                    text_or(j, "status"@, ""@)
                },
                summary: text_or(j, "summary"@, ""@),
                mas_session: some_str(j, "mas_session"@),
                mas_entry_id: as_u64(get(j, "mas_entry_id"@)),
                note_ref: some_str(j, "note_ref"@),
                run_ids: strings_at(j, "run_ids"@),
                artifacts: strings_at(j, "artifacts"@),
                checkpoint: some_str(j, "checkpoint"@),
                anchors: strings_at(j, "anchors"@),
                commands: strings_at(j, "commands"@),
                constraints: strings_at(j, "constraints"@),
                created_seq: u64_or(j, "created_seq"@, 0),
                created_at: u64_or(j, "created_at"@, 0),
                accepted_by: some_str(j, "accepted_by"@),
            },
        ),
    }
}

impl Handoff {
    pub fn to_value(&self) -> (r: Datum)
        ensures
            r@ == handoff_json(self@),
    {
        let mut ms = no_members();
        add_member(&mut ms, "accepted_by", opt_str_value(&self.accepted_by));
        add_member(&mut ms, "anchors", strs_value(&self.anchors));
        add_member(&mut ms, "artifacts", strs_value(&self.artifacts));
        add_member(&mut ms, "checkpoint", opt_str_value(&self.checkpoint));
        add_member(&mut ms, "commands", strs_value(&self.commands));
        add_member(&mut ms, "constraints", strs_value(&self.constraints));
        add_member(&mut ms, "created_at", Datum::UInt(self.created_at));
        add_member(&mut ms, "created_seq", Datum::UInt(self.created_seq));
        add_member(&mut ms, "from", str_value(self.from.as_str()));
        add_member(&mut ms, "id", str_value(self.id.as_str()));
        add_member(&mut ms, "mas_entry_id", opt_u64_value(self.mas_entry_id));
        add_member(&mut ms, "mas_session", opt_str_value(&self.mas_session));
        add_member(&mut ms, "note_ref", opt_str_value(&self.note_ref));
        add_member(&mut ms, "run_ids", strs_value(&self.run_ids));
        add_member(&mut ms, "status", str_value(self.status.as_str()));
        add_member(&mut ms, "summary", str_value(self.summary.as_str()));
        add_member(&mut ms, "to", str_value(self.to.as_str()));
        let r = object(ms);
        assert(r@->Object_0 =~= handoff_json(self@)->Object_0);
        r
    }

    pub fn from_value(v: &Datum) -> (r: Option<Self>)
        ensures
            match r {
                Some(h) => handoff_from(v@) == Some(h@),
                None => handoff_from(v@) is None,
            },
    {
        let id = match get_str(v, "id") {
            Some(s) => copy(s.as_str()),
            None => {
                return None;
            },
        };
        let stored = str_or(v, "status");
        let status = if is_blank(stored.as_str()) {
            copy("offered")
        } else {
            stored
        };
        Some(
            Handoff {
                id,
                from: str_or(v, "from"),
                to: str_or(v, "to"),
                status,
                summary: str_or(v, "summary"),
                mas_session: opt_str(v, "mas_session"),
                mas_entry_id: get_u64(v, "mas_entry_id"),
                note_ref: opt_str(v, "note_ref"),
                run_ids: get_strings(v, "run_ids"),
                artifacts: get_strings(v, "artifacts"),
                checkpoint: opt_str(v, "checkpoint"),
                anchors: get_strings(v, "anchors"),
                commands: get_strings(v, "commands"),
                constraints: get_strings(v, "constraints"),
                created_seq: u(v, "created_seq"),
                created_at: u(v, "created_at"),
                accepted_by: opt_str(v, "accepted_by"),
            },
        )
    }

    pub fn copy(&self) -> (r: Handoff)
        ensures
            r@ == self@,
    {
        Handoff {
            id: copy(self.id.as_str()),
            from: copy(self.from.as_str()),
            to: copy(self.to.as_str()),
            status: copy(self.status.as_str()),
            summary: copy(self.summary.as_str()),
            mas_session: copy_opt(&self.mas_session),
            mas_entry_id: self.mas_entry_id,
            note_ref: copy_opt(&self.note_ref),
            run_ids: copy_all(&self.run_ids),
            artifacts: copy_all(&self.artifacts),
            checkpoint: copy_opt(&self.checkpoint),
            anchors: copy_all(&self.anchors),
            commands: copy_all(&self.commands),
            constraints: copy_all(&self.constraints),
            created_seq: self.created_seq,
            created_at: self.created_at,
            accepted_by: copy_opt(&self.accepted_by),
        }
    }
}

pub struct Note {
    pub seq: u64,
    pub from: String,
    pub to: String,
    pub body: String,
    pub acked: bool,
}

/// The values of a [`Note`].
pub struct NoteView {
    pub seq: u64,
    pub from: Seq<char>,
    pub to: Seq<char>,
    pub body: Seq<char>,
    pub acked: bool,
}

impl View for Note {
    type V = NoteView;

    open spec fn view(&self) -> NoteView {
        NoteView {
            seq: self.seq,
            from: self.from@,
            to: self.to@,
            body: self.body@,
            acked: self.acked,
        }
    }
}

pub open spec fn note_views(v: Seq<Note>) -> Seq<NoteView> {
    Seq::new(v.len(), |i: int| v[i]@)
}

pub open spec fn note_json(n: NoteView) -> Json {
    Json::Object(
        seq![
            ("acked"@, Json::Bool(n.acked)),
            ("body"@, Json::Str(n.body)),
            ("from"@, Json::Str(n.from)),
            ("seq"@, Json::UInt(n.seq)),
            ("to"@, Json::Str(n.to)),
        ],
    )
}

pub open spec fn note_from(j: Json) -> NoteView {
    NoteView {
        seq: u64_or(j, "seq"@, 0),
        from: text_or(j, "from"@, ""@),
        to: text_or(j, "to"@, ""@),
        body: text_or(j, "body"@, ""@),
        acked: crate::json::bool_or(j, "acked"@, false),
    }
}

impl Note {
    pub fn to_value(&self) -> (r: Datum)
        ensures
            r@ == note_json(self@),
    {
        let mut ms = no_members();
        add_member(&mut ms, "acked", Datum::Bool(self.acked));
        add_member(&mut ms, "body", str_value(self.body.as_str()));
        add_member(&mut ms, "from", str_value(self.from.as_str()));
        add_member(&mut ms, "seq", Datum::UInt(self.seq));
        add_member(&mut ms, "to", str_value(self.to.as_str()));
        let r = object(ms);
        assert(r@->Object_0 =~= note_json(self@)->Object_0);
        r
    }

    pub fn from_value(v: &Datum) -> (r: Note)
        ensures
            r@ == note_from(v@),
    {
        Note {
            seq: u(v, "seq"),
            from: str_or(v, "from"),
            to: str_or(v, "to"),
            body: str_or(v, "body"),
            acked: flag_or(v, "acked", false),
        }
    }

    pub fn copy(&self) -> (r: Note)
        ensures
            r@ == self@,
    {
        Note {
            seq: self.seq,
            from: copy(self.from.as_str()),
            to: copy(self.to.as_str()),
            body: copy(self.body.as_str()),
            acked: self.acked,
        }
    }
}

/// A promoted policy. `support` is the double that its evaluation gave.
pub struct PolicyRec {
    pub id: String,
    pub status: String,
    pub support: Datum,
    pub report_hash: String,
    pub profile: String,
    pub spec_doc: Datum,
}

/// The values of a [`PolicyRec`].
pub struct PolicyView {
    pub id: Seq<char>,
    pub status: Seq<char>,
    pub support: Json,
    pub report_hash: Seq<char>,
    pub profile: Seq<char>,
    pub spec_doc: Json,
}

impl View for PolicyRec {
    type V = PolicyView;

    open spec fn view(&self) -> PolicyView {
        PolicyView {
            id: self.id@,
            status: self.status@,
            support: self.support@,
            report_hash: self.report_hash@,
            profile: self.profile@,
            spec_doc: self.spec_doc@,
        }
    }
}

pub open spec fn policy_views(v: Seq<PolicyRec>) -> Seq<PolicyView> {
    Seq::new(v.len(), |i: int| v[i]@)
}

/// The number at member `support` as a double, or zero.
pub open spec fn support_at(j: Json) -> Json {
    double_at(j, "support"@, "0.0"@)
}

pub fn support_of(v: &Datum) -> (r: Datum)
    ensures
        r@ == support_at(v@),
{
    read_double(v, "support", "0.0")
}

/// The value at a member, or null.
pub open spec fn member_or_null(j: Json, key: Seq<char>) -> Json {
    match get(j, key) {
        Some(v) => v,
        None => Json::Null,
    }
}

pub fn member_copy(v: &Datum, key: &str) -> (r: Datum)
    ensures
        r@ == member_or_null(v@, key@),
{
    match v.get(key) {
        Some(x) => x.copy(),
        None => Datum::Null,
    }
}

pub open spec fn policy_json(p: PolicyView) -> Json {
    Json::Object(
        seq![
            ("id"@, Json::Str(p.id)),
            ("profile"@, Json::Str(p.profile)),
            ("report_hash"@, Json::Str(p.report_hash)),
            ("spec"@, p.spec_doc),
            ("status"@, Json::Str(p.status)),
            ("support"@, p.support),
        ],
    )
}

pub open spec fn policy_from(j: Json) -> Option<PolicyView> {
    match as_str(get(j, "id"@)) {
        None => None,
        Some(id) => Some(
            PolicyView {
                id,
                status: text_or(j, "status"@, ""@),
                support: support_at(j),
                report_hash: text_or(j, "report_hash"@, ""@),
                profile: text_or(j, "profile"@, ""@),
                spec_doc: member_or_null(j, "spec"@),
            },
        ),
    }
}

impl PolicyRec {
    pub fn to_value(&self) -> (r: Datum)
        ensures
            r@ == policy_json(self@),
    {
        let mut ms = no_members();
        add_member(&mut ms, "id", str_value(self.id.as_str()));
        add_member(&mut ms, "profile", str_value(self.profile.as_str()));
        add_member(&mut ms, "report_hash", str_value(self.report_hash.as_str()));
        add_member(&mut ms, "spec", self.spec_doc.copy());
        add_member(&mut ms, "status", str_value(self.status.as_str()));
        add_member(&mut ms, "support", self.support.copy());
        let r = object(ms);
        assert(r@->Object_0 =~= policy_json(self@)->Object_0);
        r
    }

    pub fn from_value(v: &Datum) -> (r: Option<Self>)
        ensures
            match r {
                Some(p) => policy_from(v@) == Some(p@),
                None => policy_from(v@) is None,
            },
    {
        let id = match get_str(v, "id") {
            Some(s) => copy(s.as_str()),
            None => {
                return None;
            },
        };
        Some(
            PolicyRec {
                id,
                status: str_or(v, "status"),
                support: support_of(v),
                report_hash: str_or(v, "report_hash"),
                profile: str_or(v, "profile"),
                spec_doc: member_copy(v, "spec"),
            },
        )
    }

    pub fn copy(&self) -> (r: PolicyRec)
        ensures
            r@ == self@,
    {
        PolicyRec {
            id: copy(self.id.as_str()),
            status: copy(self.status.as_str()),
            support: self.support.copy(),
            report_hash: copy(self.report_hash.as_str()),
            profile: copy(self.profile.as_str()),
            spec_doc: self.spec_doc.copy(),
        }
    }
}

/// The answer that was given under an idempotency key.
pub struct IdemHit {
    pub seq: u64,
    pub result: String,
}

/// The values of an [`IdemHit`].
pub struct HitView {
    pub seq: u64,
    pub result: Seq<char>,
}

impl View for IdemHit {
    type V = HitView;

    open spec fn view(&self) -> HitView {
        HitView { seq: self.seq, result: self.result@ }
    }
}

} // verus!

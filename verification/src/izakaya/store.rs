//! The journal of events and the projection that is folded from it.
//!
//! The journal is the source of truth. A stored projection is a cache: it is
//! used only while its sequence matches the one rebuilt from the journal.
use vstd::prelude::*;
use crate::izakaya::model::{
    bound, bounded, claim_views, head, state_name, AgentState, ClaimView, MAX_ITEM, MAX_PATHS,
    SCHEMA_VERSION,
};
pub use crate::izakaya::records::{Agent, Handoff, IdemHit, Note, PolicyRec};
use crate::izakaya::records::{
    agent_from, agent_json, claims_at, claims_of, handoff_from, handoff_json, handoff_views,
    member_copy, member_or_null, note_from, note_json, note_views, opt_str, policy_from,
    policy_json, policy_views, some_str, str_or, support_at, support_of, u, AgentRecord,
    HandoffView, HitView, NoteView, PolicyView,
};
use crate::json::{
    add_member, array, as_array, as_str, as_u64, bool_or, flag_or, get, get_items, get_str,
    get_strings, get_u64, json_opt_str, json_parsed, no_members, object, opt_str_value, parse,
    str_or as text_or, str_value, strings_at, u64_or, views, Datum, Json,
};
use crate::smap::{at, lemma_at_put, put, StrMap};
use crate::text::{
    copy, copy_opt, dec, decimal, decode, decoded, find_from, hex, hex_of, is_blank, join, joined,
    lowercase, nonempty, opt_text, replace_char, replaced, same, split_char, split_on, strs,
    to_chars, to_lower, trim, trimmed,
};

verus! {

pub const MAX_IDEMPOTENCY: usize = 256;

pub const MAX_MESSAGES: usize = 64;

pub const MAX_HANDOFFS: usize = 256;

// ---------------------------------------------------------------------------
// Events

pub struct Event {
    pub v: u64,
    pub seq: u64,
    pub id: String,
    pub idempotency_key: Option<String>,
    pub ts: u64,
    pub kind: String,
    pub agent_id: String,
    pub lease_id: String,
    pub result: String,
    pub body: Datum,
}

/// The values of an [`Event`].
pub struct EventView {
    pub v: u64,
    pub seq: u64,
    pub id: Seq<char>,
    pub idempotency_key: Option<Seq<char>>,
    pub ts: u64,
    pub kind: Seq<char>,
    pub agent_id: Seq<char>,
    pub lease_id: Seq<char>,
    pub result: Seq<char>,
    pub body: Json,
}

impl View for Event {
    type V = EventView;

    open spec fn view(&self) -> EventView {
        EventView {
            v: self.v,
            seq: self.seq,
            id: self.id@,
            idempotency_key: opt_text(self.idempotency_key),
            ts: self.ts,
            kind: self.kind@,
            agent_id: self.agent_id@,
            lease_id: self.lease_id@,
            result: self.result@,
            body: self.body@,
        }
    }
}

pub open spec fn event_views(v: Seq<Event>) -> Seq<EventView> {
    Seq::new(v.len(), |i: int| v[i]@)
}

/// An event as a JSON object.
pub open spec fn event_json(e: EventView) -> Json {
    Json::Object(
        seq![
            ("agent_id"@, Json::Str(e.agent_id)),
            ("body"@, e.body),
            ("id"@, Json::Str(e.id)),
            ("idempotency_key"@, json_opt_str(e.idempotency_key)),
            ("kind"@, Json::Str(e.kind)),
            ("lease_id"@, Json::Str(e.lease_id)),
            ("result"@, Json::Str(e.result)),
            ("seq"@, Json::UInt(e.seq)),
            ("ts"@, Json::UInt(e.ts)),
            ("v"@, Json::UInt(e.v)),
        ],
    )
}

/// The event that a JSON value describes, unless its version is too new.
pub open spec fn event_from(j: Json) -> Result<EventView, Seq<char>> {
    let version = u64_or(j, "v"@, SCHEMA_VERSION);
    if version > SCHEMA_VERSION {
        Err("unsupported event version "@ + dec(version as nat))
    } else {
        Ok(
            EventView {
                v: version,
                seq: u64_or(j, "seq"@, 0),
                id: text_or(j, "id"@, ""@),
                idempotency_key: some_str(j, "idempotency_key"@),
                ts: u64_or(j, "ts"@, 0),
                kind: text_or(j, "kind"@, "malformed"@),
                agent_id: text_or(j, "agent_id"@, ""@),
                lease_id: text_or(j, "lease_id"@, ""@),
                result: text_or(j, "result"@, ""@),
                body: member_or_null(j, "body"@),
            },
        )
    }
}

impl Event {
    pub fn to_value(&self) -> (r: Datum)
        ensures
            r@ == event_json(self@),
    {
        let mut ms = no_members();
        add_member(&mut ms, "agent_id", str_value(self.agent_id.as_str()));
        add_member(&mut ms, "body", self.body.copy());
        add_member(&mut ms, "id", str_value(self.id.as_str()));
        add_member(&mut ms, "idempotency_key", opt_str_value(&self.idempotency_key));
        add_member(&mut ms, "kind", str_value(self.kind.as_str()));
        add_member(&mut ms, "lease_id", str_value(self.lease_id.as_str()));
        add_member(&mut ms, "result", str_value(self.result.as_str()));
        add_member(&mut ms, "seq", Datum::UInt(self.seq));
        add_member(&mut ms, "ts", Datum::UInt(self.ts));
        add_member(&mut ms, "v", Datum::UInt(self.v));
        let r = object(ms);
        assert(r@->Object_0 =~= event_json(self@)->Object_0);
        r
    }

    pub fn from_value(v: &Datum) -> (r: Result<Self, String>)
        ensures
            match (r, event_from(v@)) {
                (Ok(a), Ok(b)) => a@ == b,
                (Err(a), Err(b)) => a@ == b,
                _ => false,
            },
    {
        let version: u64 = crate::json::number_or(v, "v", SCHEMA_VERSION);
        if version > SCHEMA_VERSION {
            let mut e = copy("unsupported event version ");
            e.append(decimal(version).as_str());
            return Err(e);
        }
        Ok(
            Event {
                v: version,
                seq: u(v, "seq"),
                id: str_or(v, "id"),
                idempotency_key: opt_str(v, "idempotency_key"),
                ts: u(v, "ts"),
                kind: crate::json::string_or(v, "kind", "malformed"),
                agent_id: str_or(v, "agent_id"),
                lease_id: str_or(v, "lease_id"),
                result: str_or(v, "result"),
                body: member_copy(v, "body"),
            },
        )
    }

    pub fn copy(&self) -> (r: Event)
        ensures
            r@ == self@,
    {
        Event {
            v: self.v,
            seq: self.seq,
            id: copy(self.id.as_str()),
            idempotency_key: copy_opt(&self.idempotency_key),
            ts: self.ts,
            kind: copy(self.kind.as_str()),
            agent_id: copy(self.agent_id.as_str()),
            lease_id: copy(self.lease_id.as_str()),
            result: copy(self.result.as_str()),
            body: self.body.copy(),
        }
    }
}

// ---------------------------------------------------------------------------
// The projection

pub struct Projection {
    pub version: u64,
    pub coordination_id: String,
    pub seq: u64,
    pub updated_at: u64,
    pub agents: StrMap<Agent>,
    pub handoffs: Vec<Handoff>,
    pub messages: Vec<Note>,
    pub policies: Vec<PolicyRec>,
    pub active_policy: Option<String>,
    pub malformed: u64,
    pub idempotency: StrMap<IdemHit>,
}

/// The values of a [`Projection`].
pub struct ProjectionView {
    pub version: u64,
    pub coordination_id: Seq<char>,
    pub seq: u64,
    pub updated_at: u64,
    pub agents: Seq<(Seq<char>, AgentRecord)>,
    pub handoffs: Seq<HandoffView>,
    pub messages: Seq<NoteView>,
    pub policies: Seq<PolicyView>,
    pub active_policy: Option<Seq<char>>,
    pub malformed: int,
    pub idempotency: Seq<(Seq<char>, HitView)>,
}

impl View for Projection {
    type V = ProjectionView;

    open spec fn view(&self) -> ProjectionView {
        ProjectionView {
            version: self.version,
            coordination_id: self.coordination_id@,
            seq: self.seq,
            updated_at: self.updated_at,
            agents: self.agents@,
            handoffs: handoff_views(self.handoffs@),
            messages: note_views(self.messages@),
            policies: policy_views(self.policies@),
            active_policy: opt_text(self.active_policy),
            malformed: self.malformed as int,
            idempotency: self.idempotency@,
        }
    }
}

pub open spec fn no_projection(coordination_id: Seq<char>) -> ProjectionView {
    ProjectionView {
        version: SCHEMA_VERSION,
        coordination_id,
        seq: 0,
        updated_at: 0,
        agents: Seq::empty(),
        handoffs: Seq::empty(),
        messages: Seq::empty(),
        policies: Seq::empty(),
        active_policy: None,
        malformed: 0,
        idempotency: Seq::empty(),
    }
}

pub open spec fn hit_json(key: Seq<char>, h: HitView) -> Json {
    Json::Object(
        seq![
            ("key"@, Json::Str(key)),
            ("result"@, Json::Str(h.result)),
            ("seq"@, Json::UInt(h.seq)),
        ],
    )
}

/// A projection as a JSON object.
pub open spec fn projection_json(p: ProjectionView) -> Json {
    Json::Object(
        seq![
            ("active_policy"@, json_opt_str(p.active_policy)),
            ("agents"@, Json::Array(Seq::new(p.agents.len(), |i: int| agent_json(p.agents[i].1)))),
            ("coordination_id"@, Json::Str(p.coordination_id)),
            (
                "handoffs"@,
                Json::Array(Seq::new(p.handoffs.len(), |i: int| handoff_json(p.handoffs[i]))),
            ),
            (
                "idempotency"@,
                Json::Array(
                    Seq::new(
                        p.idempotency.len(),
                        |i: int| hit_json(p.idempotency[i].0, p.idempotency[i].1),
                    ),
                ),
            ),
            ("malformed"@, Json::UInt(p.malformed as u64)),
            (
                "messages"@,
                Json::Array(Seq::new(p.messages.len(), |i: int| note_json(p.messages[i]))),
            ),
            (
                "policies"@,
                Json::Array(Seq::new(p.policies.len(), |i: int| policy_json(p.policies[i]))),
            ),
            ("seq"@, Json::UInt(p.seq)),
            ("updated_at"@, Json::UInt(p.updated_at)),
            ("version"@, Json::UInt(p.version)),
        ],
    )
}

/// The list at a member, or an empty one.
pub open spec fn list_at(j: Json, key: Seq<char>) -> Seq<Json> {
    match as_array(get(j, key)) {
        Some(a) => a,
        None => Seq::empty(),
    }
}

/// The agents that a list describes, each under its id; a later one replaces an
/// earlier one.
pub open spec fn agents_from(items: Seq<Json>) -> Seq<(Seq<char>, AgentRecord)>
    decreases items.len(),
{
    if items.len() == 0 {
        Seq::empty()
    } else {
        let rest = agents_from(items.drop_last());
        match agent_from(items.last()) {
            Some(a) => put(rest, a.agent_id, a),
            None => rest,
        }
    }
}

/// The stored answers that a list describes.
pub open spec fn hits_from(items: Seq<Json>) -> Seq<(Seq<char>, HitView)>
    decreases items.len(),
{
    if items.len() == 0 {
        Seq::empty()
    } else {
        let rest = hits_from(items.drop_last());
        match as_str(get(items.last(), "key"@)) {
            Some(k) => put(
                rest,
                k,
                HitView {
                    seq: u64_or(items.last(), "seq"@, 0),
                    result: text_or(items.last(), "result"@, ""@),
                },
            ),
            None => rest,
        }
    }
}

/// The projection that a JSON value describes. A version that is missing, zero
/// or too new is refused; other members that are missing count as empty.
pub open spec fn projection_from(j: Json) -> Option<ProjectionView> {
    let version = u64_or(j, "version"@, 0);
    if version == 0 || version > SCHEMA_VERSION {
        None
    } else {
        Some(
            ProjectionView {
                version,
                coordination_id: text_or(j, "coordination_id"@, ""@),
                seq: u64_or(j, "seq"@, 0),
                updated_at: u64_or(j, "updated_at"@, 0),
                agents: agents_from(list_at(j, "agents"@)),
                handoffs: list_at(j, "handoffs"@).filter_map(|h: Json| handoff_from(h)),
                messages: list_at(j, "messages"@).map_values(|m: Json| note_from(m)),
                policies: list_at(j, "policies"@).filter_map(|p: Json| policy_from(p)),
                active_policy: some_str(j, "active_policy"@),
                malformed: u64_or(j, "malformed"@, 0) as int,
                idempotency: hits_from(list_at(j, "idempotency"@)),
            },
        )
    }
}

fn read_agents(v: &Datum) -> (r: StrMap<Agent>)
    ensures
        r@ == agents_from(list_at(v@, "agents"@)),
        r.wf(),
{
    let mut out: StrMap<Agent> = StrMap::new();
    if let Some(items) = get_items(v, "agents") {
        let ghost all = views(items@);
        assert(all.take(0) =~= Seq::<Json>::empty());
        for i in 0..items.len()
            invariant
                all == views(items@),
                out.wf(),
                out@ == agents_from(all.take(i as int)),
        {
            assert(all.take(i + 1).drop_last() =~= all.take(i as int));
            if let Some(a) = Agent::from_value(&items[i]) {
                let key = copy(a.agent_id.as_str());
                out.insert(key.as_str(), a);
            }
        }
        assert(all.take(all.len() as int) =~= all);
    }
    out
}

fn read_hits(v: &Datum) -> (r: StrMap<IdemHit>)
    ensures
        r@ == hits_from(list_at(v@, "idempotency"@)),
        r.wf(),
{
    let mut out: StrMap<IdemHit> = StrMap::new();
    if let Some(items) = get_items(v, "idempotency") {
        let ghost all = views(items@);
        assert(all.take(0) =~= Seq::<Json>::empty());
        for i in 0..items.len()
            invariant
                all == views(items@),
                out.wf(),
                out@ == hits_from(all.take(i as int)),
        {
            assert(all.take(i + 1).drop_last() =~= all.take(i as int));
            if let Some(k) = get_str(&items[i], "key") {
                out.insert(
                    k.as_str(),
                    IdemHit { seq: u(&items[i], "seq"), result: str_or(&items[i], "result") },
                );
            }
        }
        assert(all.take(all.len() as int) =~= all);
    }
    out
}

fn read_handoffs(v: &Datum) -> (r: Vec<Handoff>)
    ensures
        handoff_views(r@) == list_at(v@, "handoffs"@).filter_map(|h: Json| handoff_from(h)),
{
    let mut out: Vec<Handoff> = Vec::new();
    let ghost f = |h: Json| handoff_from(h);
    assert(handoff_views(out@) =~= Seq::<Json>::empty().filter_map(f));
    if let Some(items) = get_items(v, "handoffs") {
        let ghost all = views(items@);
        assert(all.take(0) =~= Seq::<Json>::empty());
        for i in 0..items.len()
            invariant
                all == views(items@),
                f == (|h: Json| handoff_from(h)),
                handoff_views(out@) == all.take(i as int).filter_map(f),
        {
            proof {
                all.lemma_filter_map_take_succ(f, i as int);
            }
            let ghost before = all.take(i as int).filter_map(f);
            let ghost prev = out@;
            if let Some(h) = Handoff::from_value(&items[i]) {
                out.push(h);
                assert(handoff_views(out@) =~= handoff_views(prev).push(h@));
                assert(handoff_views(out@) =~= before + seq![h@]);
            } else {
                assert(handoff_views(out@) =~= before + Seq::<HandoffView>::empty());
            }
        }
        assert(all.take(all.len() as int) =~= all);
    }
    out
}

fn read_policies(v: &Datum) -> (r: Vec<PolicyRec>)
    ensures
        policy_views(r@) == list_at(v@, "policies"@).filter_map(|p: Json| policy_from(p)),
{
    let mut out: Vec<PolicyRec> = Vec::new();
    let ghost f = |p: Json| policy_from(p);
    assert(policy_views(out@) =~= Seq::<Json>::empty().filter_map(f));
    if let Some(items) = get_items(v, "policies") {
        let ghost all = views(items@);
        assert(all.take(0) =~= Seq::<Json>::empty());
        for i in 0..items.len()
            invariant
                all == views(items@),
                f == (|p: Json| policy_from(p)),
                policy_views(out@) == all.take(i as int).filter_map(f),
        {
            proof {
                all.lemma_filter_map_take_succ(f, i as int);
            }
            let ghost before = all.take(i as int).filter_map(f);
            let ghost prev = out@;
            if let Some(p) = PolicyRec::from_value(&items[i]) {
                out.push(p);
                assert(policy_views(out@) =~= policy_views(prev).push(p@));
                assert(policy_views(out@) =~= before + seq![p@]);
            } else {
                assert(policy_views(out@) =~= before + Seq::<PolicyView>::empty());
            }
        }
        assert(all.take(all.len() as int) =~= all);
    }
    out
}

fn read_messages(v: &Datum) -> (r: Vec<Note>)
    ensures
        note_views(r@) == list_at(v@, "messages"@).map_values(|m: Json| note_from(m)),
{
    let mut out: Vec<Note> = Vec::new();
    if let Some(items) = get_items(v, "messages") {
        for i in 0..items.len()
            invariant
                out@.len() == i,
                forall|j: int| 0 <= j < i ==> (#[trigger] out@[j])@ == note_from(items@[j]@),
        {
            out.push(Note::from_value(&items[i]));
        }
    }
    assert(note_views(out@) =~= list_at(v@, "messages"@).map_values(|m: Json| note_from(m)));
    out
}

impl Projection {
    /// Both maps have their keys in order.
    pub open spec fn wf(&self) -> bool {
        self.agents.wf() && self.idempotency.wf()
    }

    pub fn empty(coordination_id: String) -> (r: Self)
        ensures
            r@ == no_projection(coordination_id@),
            r.wf(),
    {
        let r = Projection {
            version: SCHEMA_VERSION,
            coordination_id,
            seq: 0,
            updated_at: 0,
            agents: StrMap::new(),
            handoffs: Vec::new(),
            messages: Vec::new(),
            policies: Vec::new(),
            active_policy: None,
            malformed: 0,
            idempotency: StrMap::new(),
        };
        assert(handoff_views(r.handoffs@) =~= Seq::<HandoffView>::empty());
        assert(note_views(r.messages@) =~= Seq::<NoteView>::empty());
        assert(policy_views(r.policies@) =~= Seq::<PolicyView>::empty());
        r
    }

    pub fn to_value(&self) -> (r: Datum)
        ensures
            r@ == projection_json(self@),
    {
        let mut agents: Vec<Datum> = Vec::new();
        for i in 0..self.agents.entries.len()
            invariant
                agents@.len() == i,
                forall|j: int|
                    0 <= j < i ==> (#[trigger] agents@[j])@ == agent_json(self.agents@[j].1),
        {
            agents.push(self.agents.entries[i].1.to_value());
        }
        let mut handoffs: Vec<Datum> = Vec::new();
        for i in 0..self.handoffs.len()
            invariant
                handoffs@.len() == i,
                forall|j: int|
                    0 <= j < i ==> (#[trigger] handoffs@[j])@ == handoff_json(self@.handoffs[j]),
        {
            handoffs.push(self.handoffs[i].to_value());
        }
        let mut hits: Vec<Datum> = Vec::new();
        for i in 0..self.idempotency.entries.len()
            invariant
                hits@.len() == i,
                forall|j: int|
                    0 <= j < i ==> (#[trigger] hits@[j])@ == hit_json(
                        self.idempotency@[j].0,
                        self.idempotency@[j].1,
                    ),
        {
            let mut ms = no_members();
            add_member(&mut ms, "key", str_value(self.idempotency.entries[i].0.as_str()));
            add_member(&mut ms, "result", str_value(self.idempotency.entries[i].1.result.as_str()));
            add_member(&mut ms, "seq", Datum::UInt(self.idempotency.entries[i].1.seq));
            let h = object(ms);
            assert(h@->Object_0 =~= hit_json(
                self.idempotency@[i as int].0,
                self.idempotency@[i as int].1,
            )->Object_0);
            hits.push(h);
        }
        let mut messages: Vec<Datum> = Vec::new();
        for i in 0..self.messages.len()
            invariant
                messages@.len() == i,
                forall|j: int|
                    0 <= j < i ==> (#[trigger] messages@[j])@ == note_json(self@.messages[j]),
        {
            messages.push(self.messages[i].to_value());
        }
        let mut policies: Vec<Datum> = Vec::new();
        for i in 0..self.policies.len()
            invariant
                policies@.len() == i,
                forall|j: int|
                    0 <= j < i ==> (#[trigger] policies@[j])@ == policy_json(self@.policies[j]),
        {
            policies.push(self.policies[i].to_value());
        }
        let mut ms = no_members();
        add_member(&mut ms, "active_policy", opt_str_value(&self.active_policy));
        add_member(&mut ms, "agents", array(agents));
        add_member(&mut ms, "coordination_id", str_value(self.coordination_id.as_str()));
        add_member(&mut ms, "handoffs", array(handoffs));
        add_member(&mut ms, "idempotency", array(hits));
        add_member(&mut ms, "malformed", Datum::UInt(self.malformed));
        add_member(&mut ms, "messages", array(messages));
        add_member(&mut ms, "policies", array(policies));
        add_member(&mut ms, "seq", Datum::UInt(self.seq));
        add_member(&mut ms, "updated_at", Datum::UInt(self.updated_at));
        add_member(&mut ms, "version", Datum::UInt(self.version));
        let r = object(ms);
        proof {
            let want = projection_json(self@)->Object_0;
            assert(views(agents@) =~= want[1].1->Array_0);
            assert(views(handoffs@) =~= want[3].1->Array_0);
            assert(views(hits@) =~= want[4].1->Array_0);
            assert(views(messages@) =~= want[6].1->Array_0);
            assert(views(policies@) =~= want[7].1->Array_0);
            assert(r@->Object_0 =~= want);
        }
        r
    }

    pub fn from_value(v: &Datum) -> (r: Option<Self>)
        ensures
            match r {
                Some(p) => projection_from(v@) == Some(p@) && p.wf(),
                None => projection_from(v@) is None,
            },
    {
        let version: u64 = u(v, "version");
        if version == 0 || version > SCHEMA_VERSION {
            return None;
        }
        Some(
            Projection {
                version,
                coordination_id: str_or(v, "coordination_id"),
                seq: u(v, "seq"),
                updated_at: u(v, "updated_at"),
                agents: read_agents(v),
                handoffs: read_handoffs(v),
                messages: read_messages(v),
                policies: read_policies(v),
                active_policy: opt_str(v, "active_policy"),
                malformed: u(v, "malformed"),
                idempotency: read_hits(v),
            },
        )
    }
}


// ---------------------------------------------------------------------------
// Applying events

/// Whether an offered handoff with a given id is open.
pub open spec fn is_offer(h: HandoffView, id: Seq<char>) -> bool {
    h.id == id && h.status == "offered"@
}

/// The position of the first open offer with a given id among the first `n`.
pub open spec fn offer_at(hs: Seq<HandoffView>, id: Seq<char>, from: int) -> Option<int>
    decreases hs.len() - from,
{
    if from < 0 || from >= hs.len() {
        None
    } else if is_offer(hs[from], id) {
        Some(from)
    } else {
        offer_at(hs, id, from + 1)
    }
}

/// The handoffs after an agent took up the offer named `id`, if there is one.
pub open spec fn taken_up(
    hs: Seq<HandoffView>,
    id: Option<Seq<char>>,
    agent_id: Seq<char>,
) -> Seq<HandoffView> {
    match id {
        None => hs,
        Some(id) => match offer_at(hs, id, 0) {
            None => hs,
            Some(i) => hs.update(
                i,
                HandoffView { status: "accepted"@, accepted_by: Some(agent_id), ..hs[i] },
            ),
        },
    }
}

/// The agent that a check-in describes.
pub open spec fn agent_checked_in(e: EventView) -> AgentRecord {
    AgentRecord {
        agent_id: e.agent_id,
        lease_id: e.lease_id,
        revision: if u64_or(e.body, "revision"@, 0) > 1 {
            u64_or(e.body, "revision"@, 0)
        } else {
            1
        },
        state: text_or(e.body, "state"@, ""@),
        role: text_or(e.body, "role"@, ""@),
        task: text_or(e.body, "task"@, ""@),
        summary: text_or(e.body, "summary"@, ""@),
        mas_session: some_str(e.body, "mas_session"@),
        checked_in_at: u64_or(e.body, "checked_in_at"@, 0),
        last_seen_at: e.ts,
        expires_at: u64_or(e.body, "expires_at"@, 0),
        ttl_secs: u64_or(e.body, "ttl_secs"@, 0),
        workspace_id: text_or(e.body, "workspace_id"@, ""@),
        worktree: text_or(e.body, "worktree"@, ""@),
        branch: text_or(e.body, "branch"@, ""@),
        base_oid: text_or(e.body, "base_oid"@, ""@),
        head_oid: text_or(e.body, "head_oid"@, ""@),
        dirty_paths: strings_at(e.body, "dirty_paths"@),
        claims: claims_at(e.body),
        blockers: strings_at(e.body, "blockers"@),
        checkpoint: some_str(e.body, "checkpoint"@),
        checkout_reason: None,
    }
}

pub open spec fn after_check_in(p: ProjectionView, e: EventView) -> ProjectionView {
    ProjectionView {
        handoffs: taken_up(p.handoffs, some_str(e.body, "accept_handoff"@), e.agent_id),
        agents: put(p.agents, e.agent_id, agent_checked_in(e)),
        ..p
    }
}

/// The agent after an update: what the update names is replaced, the rest stays.
pub open spec fn agent_updated(a: AgentRecord, e: EventView) -> AgentRecord {
    let b = e.body;
    AgentRecord {
        lease_id: e.lease_id,
        revision: u64_or(b, "revision"@, 0),
        last_seen_at: e.ts,
        expires_at: u64_or(b, "expires_at"@, 0),
        state: match some_str(b, "state"@) {
            Some(s) => s,
            None => a.state,
        },
        summary: if get(b, "summary"@) is Some {
            text_or(b, "summary"@, ""@)
        } else {
            a.summary
        },
        role: if get(b, "role"@) is Some {
            text_or(b, "role"@, ""@)
        } else {
            a.role
        },
        task: if get(b, "task"@) is Some {
            text_or(b, "task"@, ""@)
        } else {
            a.task
        },
        mas_session: if get(b, "mas_session"@) is Some {
            some_str(b, "mas_session"@)
        } else {
            a.mas_session
        },
        claims: if bool_or(b, "replace_claims"@, false) {
            claims_at(b)
        } else {
            a.claims
        },
        blockers: if bool_or(b, "replace_blockers"@, false) {
            strings_at(b, "blockers"@)
        } else {
            a.blockers
        },
        dirty_paths: if bool_or(b, "replace_dirty"@, false) {
            strings_at(b, "dirty_paths"@)
        } else {
            a.dirty_paths
        },
        checkpoint: if get(b, "checkpoint"@) is Some {
            some_str(b, "checkpoint"@)
        } else {
            a.checkpoint
        },
        branch: match some_str(b, "branch"@) {
            Some(s) => s,
            None => a.branch,
        },
        base_oid: match some_str(b, "base_oid"@) {
            Some(s) => s,
            None => a.base_oid,
        },
        head_oid: match some_str(b, "head_oid"@) {
            Some(s) => s,
            None => a.head_oid,
        },
        ..a
    }
}

/// A list with one item added behind, and its first item dropped where it
/// already held `max`.
pub open spec fn pushed<T>(s: Seq<T>, x: T, max: nat) -> Seq<T> {
    if s.len() >= max && s.len() > 0 {
        s.drop_first().push(x)
    } else {
        s.push(x)
    }
}

pub open spec fn new_note(e: EventView, note: Json) -> NoteView {
    NoteView {
        seq: e.seq,
        from: e.agent_id,
        to: text_or(note, "to"@, ""@),
        body: text_or(note, "body"@, ""@),
        acked: false,
    }
}

/// Whether a list of numbers holds `seq`.
pub open spec fn names_seq(acks: Seq<Json>, seq: u64) -> bool {
    exists|i: int| 0 <= i < acks.len() && as_u64(Some(#[trigger] acks[i])) == Some(seq)
}

/// The message, acknowledged if its number is named by its addressee or it is
/// addressed to nobody in particular.
pub open spec fn acknowledged(m: NoteView, acks: Seq<Json>, agent_id: Seq<char>) -> NoteView {
    NoteView {
        acked: m.acked || (names_seq(acks, m.seq) && (m.to == agent_id || m.to.len() == 0)),
        ..m
    }
}

pub open spec fn all_acknowledged(
    ms: Seq<NoteView>,
    acks: Seq<Json>,
    agent_id: Seq<char>,
) -> Seq<NoteView> {
    Seq::new(ms.len(), |i: int| acknowledged(ms[i], acks, agent_id))
}

pub open spec fn after_update(p: ProjectionView, e: EventView) -> ProjectionView {
    match at(p.agents, e.agent_id) {
        None => p,
        Some(a) => {
            let noted = match get(e.body, "note"@) {
                None => p.messages,
                Some(Json::Null) => p.messages,
                Some(n) => pushed(p.messages, new_note(e, n), MAX_MESSAGES as nat),
            };
            ProjectionView {
                agents: put(p.agents, e.agent_id, agent_updated(a, e)),
                messages: all_acknowledged(noted, list_at(e.body, "ack_seqs"@), e.agent_id),
                ..p
            }
        },
    }
}

/// The agent after checking out: it holds no claims.
pub open spec fn agent_checked_out(a: AgentRecord, e: EventView) -> AgentRecord {
    AgentRecord {
        state: state_name(AgentState::CheckedOut),
        revision: u64_or(e.body, "revision"@, 0),
        last_seen_at: e.ts,
        claims: Seq::empty(),
        checkout_reason: some_str(e.body, "reason"@),
        ..a
    }
}

pub open spec fn new_handoff(e: EventView, h: Json) -> HandoffView {
    HandoffView {
        id: text_or(h, "id"@, ""@),
        from: e.agent_id,
        to: text_or(h, "to"@, ""@),
        status: "offered"@,
        summary: text_or(h, "summary"@, ""@),
        mas_session: some_str(h, "mas_session"@),
        mas_entry_id: as_u64(get(h, "mas_entry_id"@)),
        note_ref: some_str(h, "note_ref"@),
        run_ids: strings_at(h, "run_ids"@),
        artifacts: strings_at(h, "artifacts"@),
        checkpoint: some_str(h, "checkpoint"@),
        anchors: strings_at(h, "anchors"@),
        commands: strings_at(h, "commands"@),
        constraints: strings_at(h, "constraints"@),
        created_seq: e.seq,
        created_at: e.ts,
        accepted_by: None,
    }
}

pub open spec fn after_check_out(p: ProjectionView, e: EventView) -> ProjectionView {
    match at(p.agents, e.agent_id) {
        None => p,
        Some(a) => ProjectionView {
            agents: put(p.agents, e.agent_id, agent_checked_out(a, e)),
            handoffs: match get(e.body, "handoff"@) {
                Some(h) => pushed(p.handoffs, new_handoff(e, h), MAX_HANDOFFS as nat),
                None => p.handoffs,
            },
            ..p
        },
    }
}

/// The policy, retired if it was active.
pub open spec fn stood_down(p: PolicyView) -> PolicyView {
    if p.status == "active"@ {
        PolicyView { status: "retired"@, ..p }
    } else {
        p
    }
}

pub open spec fn new_policy(e: EventView) -> PolicyView {
    PolicyView {
        id: text_or(e.body, "id"@, ""@),
        status: "active"@,
        support: support_at(e.body),
        report_hash: text_or(e.body, "report_hash"@, ""@),
        profile: text_or(e.body, "profile"@, ""@),
        spec_doc: member_or_null(e.body, "spec"@),
    }
}

pub open spec fn after_promote(p: ProjectionView, e: EventView) -> ProjectionView {
    let id = text_or(e.body, "id"@, ""@);
    if id.len() == 0 {
        p
    } else {
        ProjectionView {
            policies: Seq::new(p.policies.len(), |i: int| stood_down(p.policies[i])).push(
                new_policy(e),
            ),
            active_policy: Some(id),
            ..p
        }
    }
}

/// The policy, retired if it has the given id.
pub open spec fn retired(p: PolicyView, id: Seq<char>) -> PolicyView {
    if p.id == id {
        PolicyView { status: "retired"@, ..p }
    } else {
        p
    }
}

pub open spec fn after_retire(p: ProjectionView, e: EventView) -> ProjectionView {
    let id = text_or(e.body, "id"@, ""@);
    ProjectionView {
        policies: Seq::new(p.policies.len(), |i: int| retired(p.policies[i], id)),
        active_policy: if p.active_policy == Some(id) {
            None
        } else {
            p.active_policy
        },
        ..p
    }
}

/// The position of the first entry with the least sequence among the first `n`.
pub open spec fn oldest(s: Seq<(Seq<char>, HitView)>, n: nat) -> int
    decreases n,
{
    if n <= 1 {
        0
    } else {
        let m = oldest(s, (n - 1) as nat);
        if s[n - 1].1.seq < s[m].1.seq {
            n - 1
        } else {
            m
        }
    }
}

/// The stored answers without the oldest ones, so that at most the allowed
/// number is kept.
pub open spec fn evicted(s: Seq<(Seq<char>, HitView)>) -> Seq<(Seq<char>, HitView)>
    decreases s.len(),
{
    if s.len() <= MAX_IDEMPOTENCY || !(0 <= oldest(s, s.len()) < s.len()) {
        s
    } else {
        evicted(s.remove(oldest(s, s.len())))
    }
}

/// The stored answers after an event.
pub open spec fn remembered(
    s: Seq<(Seq<char>, HitView)>,
    e: EventView,
) -> Seq<(Seq<char>, HitView)> {
    match e.idempotency_key {
        None => s,
        Some(k) => evicted(put(s, k, HitView { seq: e.seq, result: e.result })),
    }
}

/// Whether events of a kind are counted as malformed: those that say so, and those of
/// a kind that is not known.
pub open spec fn miscounted(kind: Seq<char>) -> bool {
    !(kind == "check_in"@ || kind == "update"@ || kind == "check_out"@ || kind
        == "policy_promote"@ || kind == "policy_retire"@ || kind == "decision"@ || kind
        == "outcome"@)
}

/// What an event of a known kind does, apart from the counters.
pub open spec fn dispatched(p: ProjectionView, e: EventView) -> ProjectionView {
    if e.kind == "check_in"@ {
        after_check_in(p, e)
    } else if e.kind == "update"@ {
        after_update(p, e)
    } else if e.kind == "check_out"@ {
        after_check_out(p, e)
    } else if e.kind == "policy_promote"@ {
        after_promote(p, e)
    } else if e.kind == "policy_retire"@ {
        after_retire(p, e)
    } else if e.kind == "decision"@ || e.kind == "outcome"@ {
        p
    } else {
        ProjectionView { malformed: p.malformed + 1, ..p }
    }
}

/// The projection after an event. A malformed event is only counted.
pub open spec fn applied(p: ProjectionView, e: EventView) -> ProjectionView {
    if e.kind == "malformed"@ {
        ProjectionView { malformed: p.malformed + 1, ..p }
    } else {
        let q = dispatched(
            ProjectionView {
                seq: if e.seq > 0 {
                    e.seq
                } else {
                    p.seq
                },
                updated_at: e.ts,
                ..p
            },
            e,
        );
        ProjectionView { idempotency: remembered(q.idempotency, e), ..q }
    }
}

/// The projection after a journal.
pub open spec fn folded(events: Seq<EventView>, coordination_id: Seq<char>) -> ProjectionView
    decreases events.len(),
{
    if events.len() == 0 {
        no_projection(coordination_id)
    } else {
        applied(folded(events.drop_last(), coordination_id), events.last())
    }
}

fn apply_check_in(proj: &mut Projection, event: &Event)
    requires
        old(proj).wf(),
    ensures
        final(proj)@ == after_check_in(old(proj)@, event@),
        final(proj).wf(),
        final(proj).malformed == old(proj).malformed,
{
    let ghost before = proj@;
    let body = &event.body;
    let stored: u64 = u(body, "revision");
    let agent = Agent {
        agent_id: copy(event.agent_id.as_str()),
        lease_id: copy(event.lease_id.as_str()),
        revision: if stored > 1 {
            stored
        } else {
            1
        },
        state: str_or(body, "state"),
        role: str_or(body, "role"),
        task: str_or(body, "task"),
        summary: str_or(body, "summary"),
        mas_session: opt_str(body, "mas_session"),
        checked_in_at: u(body, "checked_in_at"),
        last_seen_at: event.ts,
        expires_at: u(body, "expires_at"),
        ttl_secs: u(body, "ttl_secs"),
        workspace_id: str_or(body, "workspace_id"),
        worktree: str_or(body, "worktree"),
        branch: str_or(body, "branch"),
        base_oid: str_or(body, "base_oid"),
        head_oid: str_or(body, "head_oid"),
        dirty_paths: get_strings(body, "dirty_paths"),
        claims: claims_of(body),
        blockers: get_strings(body, "blockers"),
        checkpoint: opt_str(body, "checkpoint"),
        checkout_reason: None,
    };
    if let Some(id) = opt_str(body, "accept_handoff") {
        let mut i: usize = 0;
        let ghost hs = handoff_views(proj.handoffs@);
        while i < proj.handoffs.len() && !(same(proj.handoffs[i].id.as_str(), id.as_str()) && same(
            proj.handoffs[i].status.as_str(),
            "offered",
        ))
            invariant
                i <= proj.handoffs@.len(),
                hs == handoff_views(proj.handoffs@),
                offer_at(hs, id@, 0) == offer_at(hs, id@, i as int),
            decreases proj.handoffs@.len() - i,
        {
            assert(hs[i as int] == proj.handoffs@[i as int]@);
            i += 1;
        }
        if i < proj.handoffs.len() {
            let mut h = proj.handoffs[i].copy();
            h.status = copy("accepted");
            h.accepted_by = Some(copy(event.agent_id.as_str()));
            proj.handoffs.set(i, h);
            assert(handoff_views(proj.handoffs@) =~= hs.update(
                i as int,
                HandoffView {
                    status: "accepted"@,
                    accepted_by: Some(event.agent_id@),
                    ..hs[i as int]
                },
            ));
        }
    }
    assert(handoff_views(proj.handoffs@) == taken_up(
        before.handoffs,
        some_str(event.body@, "accept_handoff"@),
        event.agent_id@,
    ));
    proj.agents.insert(event.agent_id.as_str(), agent);
}

fn update_agent(a: &Agent, event: &Event) -> (r: Agent)
    ensures
        r@ == agent_updated(a@, event@),
{
    let body = &event.body;
    let mut r = a.copy();
    r.lease_id = copy(event.lease_id.as_str());
    r.revision = u(body, "revision");
    r.last_seen_at = event.ts;
    r.expires_at = u(body, "expires_at");
    if let Some(s) = opt_str(body, "state") {
        r.state = s;
    }
    if body.get("summary").is_some() {
        r.summary = str_or(body, "summary");
    }
    if body.get("role").is_some() {
        r.role = str_or(body, "role");
    }
    if body.get("task").is_some() {
        r.task = str_or(body, "task");
    }
    if body.get("mas_session").is_some() {
        r.mas_session = opt_str(body, "mas_session");
    }
    if flag_or(body, "replace_claims", false) {
        r.claims = claims_of(body);
    }
    if flag_or(body, "replace_blockers", false) {
        r.blockers = get_strings(body, "blockers");
    }
    if flag_or(body, "replace_dirty", false) {
        r.dirty_paths = get_strings(body, "dirty_paths");
    }
    if body.get("checkpoint").is_some() {
        r.checkpoint = opt_str(body, "checkpoint");
    }
    if let Some(s) = opt_str(body, "branch") {
        r.branch = s;
    }
    if let Some(s) = opt_str(body, "base_oid") {
        r.base_oid = s;
    }
    if let Some(s) = opt_str(body, "head_oid") {
        r.head_oid = s;
    }
    r
}

fn is_named(acks: Option<&Vec<Datum>>, seq: u64) -> (r: bool)
    ensures
        r == match acks {
            Some(a) => names_seq(views(a@), seq),
            None => false,
        },
{
    match acks {
        None => false,
        Some(a) => {
            for i in 0..a.len()
                invariant
                    acks == Some(a),
                    forall|j: int|
                        0 <= j < i ==> as_u64(Some(#[trigger] views(a@)[j])) != Some(seq),
            {
                assert(views(a@)[i as int] == a@[i as int]@);
                if let Datum::UInt(n) = &a[i] {
                    if *n == seq {
                        assert(as_u64(Some(views(a@)[i as int])) == Some(seq));
                        return true;
                    }
                } else {
                    assert(as_u64(Some(views(a@)[i as int])) != Some(seq));
                }
            }
            false
        },
    }
}

fn apply_update(proj: &mut Projection, event: &Event)
    requires
        old(proj).wf(),
    ensures
        final(proj)@ == after_update(old(proj)@, event@),
        final(proj).wf(),
        final(proj).malformed == old(proj).malformed,
{
    let ghost before = proj@;
    let updated = match proj.agents.get(event.agent_id.as_str()) {
        Some(a) => update_agent(a, event),
        None => {
            return ;
        },
    };
    proj.agents.insert(event.agent_id.as_str(), updated);
    let body = &event.body;
    let given = match body.get("note") {
        None => None,
        Some(Datum::Null) => None,
        Some(n) => Some(n),
    };
    if let Some(note) = given {
        if proj.messages.len() >= MAX_MESSAGES {
            let _ = proj.messages.remove(0);
            assert(note_views(proj.messages@) =~= before.messages.drop_first());
        }
        let ghost kept = note_views(proj.messages@);
        let n = Note {
            seq: event.seq,
            from: copy(event.agent_id.as_str()),
            to: str_or(note, "to"),
            body: str_or(note, "body"),
            acked: false,
        };
        proj.messages.push(n);
        assert(note_views(proj.messages@) =~= kept.push(n@));
    }
    let ghost noted = note_views(proj.messages@);
    let acks = get_items(body, "ack_seqs");
    let ghost named = list_at(body@, "ack_seqs"@);
    let count: usize = proj.messages.len();
    for i in 0..count
        invariant
            count == noted.len(),
            proj.messages@.len() == noted.len(),
            match acks {
                Some(a) => named == views(a@),
                None => named == Seq::<Json>::empty(),
            },
            proj.wf(),
            proj.malformed == old(proj).malformed,
            proj@ == (ProjectionView {
                agents: put(before.agents, event.agent_id@, agent_updated(
                    at(before.agents, event.agent_id@)->Some_0,
                    event@,
                )),
                messages: note_views(proj.messages@),
                ..before
            }),
            forall|j: int|
                0 <= j < i ==> note_views(proj.messages@)[j] == acknowledged(
                    noted[j],
                    named,
                    event.agent_id@,
                ),
            forall|j: int| i <= j < noted.len() ==> note_views(proj.messages@)[j] == noted[j],
    {
        let ghost now = note_views(proj.messages@);
        let mut m = proj.messages[i].copy();
        assert(now[i as int] == m@);
        let hit: bool = is_named(acks, m.seq);
        let mine: bool = same(m.to.as_str(), event.agent_id.as_str()) || is_blank(m.to.as_str());
        if hit && mine {
            m.acked = true;
            assert(m@ == acknowledged(noted[i as int], named, event.agent_id@));
            proj.messages.set(i, m);
            assert(note_views(proj.messages@) =~= now.update(i as int, m@));
        } else {
            assert(now[i as int] == acknowledged(noted[i as int], named, event.agent_id@));
        }
    }
    assert(note_views(proj.messages@) =~= all_acknowledged(noted, named, event.agent_id@));
}

fn apply_check_out(proj: &mut Projection, event: &Event)
    requires
        old(proj).wf(),
    ensures
        final(proj)@ == after_check_out(old(proj)@, event@),
        final(proj).wf(),
        final(proj).malformed == old(proj).malformed,
{
    let ghost before = proj@;
    let mut a = match proj.agents.get(event.agent_id.as_str()) {
        Some(a) => a.copy(),
        None => {
            return ;
        },
    };
    a.state = copy(AgentState::CheckedOut.as_str());
    a.revision = u(&event.body, "revision");
    a.last_seen_at = event.ts;
    a.claims = Vec::new();
    assert(claim_views(a.claims@) =~= Seq::<ClaimView>::empty());
    a.checkout_reason = opt_str(&event.body, "reason");
    proj.agents.insert(event.agent_id.as_str(), a);
    if let Some(h) = event.body.get("handoff") {
        if proj.handoffs.len() >= MAX_HANDOFFS {
            let _ = proj.handoffs.remove(0);
            assert(handoff_views(proj.handoffs@) =~= before.handoffs.drop_first());
        }
        let ghost kept = handoff_views(proj.handoffs@);
        let n = Handoff {
            id: str_or(h, "id"),
            from: copy(event.agent_id.as_str()),
            to: str_or(h, "to"),
            status: copy("offered"),
            summary: str_or(h, "summary"),
            mas_session: opt_str(h, "mas_session"),
            mas_entry_id: get_u64(h, "mas_entry_id"),
            note_ref: opt_str(h, "note_ref"),
            run_ids: get_strings(h, "run_ids"),
            artifacts: get_strings(h, "artifacts"),
            checkpoint: opt_str(h, "checkpoint"),
            anchors: get_strings(h, "anchors"),
            commands: get_strings(h, "commands"),
            constraints: get_strings(h, "constraints"),
            created_seq: event.seq,
            created_at: event.ts,
            accepted_by: None,
        };
        proj.handoffs.push(n);
        assert(handoff_views(proj.handoffs@) =~= kept.push(n@));
    }
}

fn apply_promote(proj: &mut Projection, event: &Event)
    requires
        old(proj).wf(),
    ensures
        final(proj)@ == after_promote(old(proj)@, event@),
        final(proj).wf(),
        final(proj).malformed == old(proj).malformed,
{
    let ghost before = proj@;
    let id = str_or(&event.body, "id");
    if is_blank(id.as_str()) {
        return ;
    }
    let count: usize = proj.policies.len();
    for i in 0..count
        invariant
            count == before.policies.len(),
            proj.policies@.len() == before.policies.len(),
            proj.wf(),
            proj.malformed == old(proj).malformed,
            proj@ == (ProjectionView { policies: policy_views(proj.policies@), ..before }),
            forall|j: int|
                0 <= j < i ==> policy_views(proj.policies@)[j] == stood_down(before.policies[j]),
            forall|j: int|
                i <= j < before.policies.len() ==> policy_views(proj.policies@)[j]
                    == before.policies[j],
    {
        let ghost now = policy_views(proj.policies@);
        assert(now[i as int] == proj.policies@[i as int]@);
        if same(proj.policies[i].status.as_str(), "active") {
            let mut p = proj.policies[i].copy();
            p.status = copy("retired");
            proj.policies.set(i, p);
            assert(policy_views(proj.policies@) =~= now.update(i as int, p@));
        }
    }
    let ghost down = Seq::new(before.policies.len(), |i: int| stood_down(before.policies[i]));
    assert(policy_views(proj.policies@) =~= down);
    let n = PolicyRec {
        id: copy(id.as_str()),
        status: copy("active"),
        support: support_of(&event.body),
        report_hash: str_or(&event.body, "report_hash"),
        profile: str_or(&event.body, "profile"),
        spec_doc: member_copy(&event.body, "spec"),
    };
    proj.policies.push(n);
    assert(policy_views(proj.policies@) =~= down.push(n@));
    proj.active_policy = Some(id);
}

fn apply_retire(proj: &mut Projection, event: &Event)
    requires
        old(proj).wf(),
    ensures
        final(proj)@ == after_retire(old(proj)@, event@),
        final(proj).wf(),
        final(proj).malformed == old(proj).malformed,
{
    let ghost before = proj@;
    let id = str_or(&event.body, "id");
    let count: usize = proj.policies.len();
    for i in 0..count
        invariant
            count == before.policies.len(),
            proj.policies@.len() == before.policies.len(),
            proj.wf(),
            proj.malformed == old(proj).malformed,
            proj@ == (ProjectionView { policies: policy_views(proj.policies@), ..before }),
            forall|j: int|
                0 <= j < i ==> policy_views(proj.policies@)[j] == retired(before.policies[j], id@),
            forall|j: int|
                i <= j < before.policies.len() ==> policy_views(proj.policies@)[j]
                    == before.policies[j],
    {
        let ghost now = policy_views(proj.policies@);
        assert(now[i as int] == proj.policies@[i as int]@);
        if same(proj.policies[i].id.as_str(), id.as_str()) {
            let mut p = proj.policies[i].copy();
            p.status = copy("retired");
            proj.policies.set(i, p);
            assert(policy_views(proj.policies@) =~= now.update(i as int, p@));
        }
    }
    assert(policy_views(proj.policies@) =~= Seq::new(
        before.policies.len(),
        |i: int| retired(before.policies[i], id@),
    ));
    let is_active: bool = match &proj.active_policy {
        Some(a) => same(a.as_str(), id.as_str()),
        None => false,
    };
    if is_active {
        proj.active_policy = None;
    }
}

proof fn lemma_oldest(s: Seq<(Seq<char>, HitView)>, n: nat)
    requires
        0 < n <= s.len(),
    ensures
        0 <= oldest(s, n) < n,
        forall|j: int| 0 <= j < n ==> s[oldest(s, n)].1.seq <= (#[trigger] s[j]).1.seq,
    decreases n,
{
    if n > 1 {
        lemma_oldest(s, (n - 1) as nat);
    }
}

fn evict(map: &mut StrMap<IdemHit>)
    requires
        old(map).wf(),
    ensures
        final(map)@ == evicted(old(map)@),
        final(map).wf(),
{
    let ghost start = map@;
    while map.entries.len() > MAX_IDEMPOTENCY
        invariant
            map.wf(),
            evicted(start) == evicted(map@),
        decreases map.entries@.len(),
    {
        let mut m: usize = 0;
        for i in 1..map.entries.len()
            invariant
                map.entries@.len() > MAX_IDEMPOTENCY,
                m < map.entries@.len(),
                m as int == oldest(map@, i as nat),
        {
            assert(map@[i as int].1.seq == map.entries@[i as int].1.seq);
            assert(map@[m as int].1.seq == map.entries@[m as int].1.seq);
            if map.entries[i].1.seq < map.entries[m].1.seq {
                m = i;
            }
        }
        proof {
            lemma_oldest(map@, map@.len());
        }
        assert(map@.len() == map.entries@.len());
        map.remove_at(m);
        assert(map@.len() == map.entries@.len());
    }
}

proof fn lemma_malformed_miscounted()
    ensures
        miscounted("malformed"@),
{
    reveal_strlit("malformed");
    reveal_strlit("check_in");
    reveal_strlit("update");
    reveal_strlit("check_out");
    reveal_strlit("policy_promote");
    reveal_strlit("policy_retire");
    reveal_strlit("decision");
    reveal_strlit("outcome");
    assert("malformed"@.len() == 9 && "malformed"@[0] == 'm');
    assert("check_in"@.len() == 8);
    assert("update"@.len() == 6);
    assert("check_out"@.len() == 9 && "check_out"@[0] == 'c');
    assert("policy_promote"@.len() == 14);
    assert("policy_retire"@.len() == 13);
    assert("decision"@.len() == 8);
    assert("outcome"@.len() == 7);
}

pub fn apply(proj: &mut Projection, event: &Event)
    requires
        old(proj).wf(),
        miscounted(event@.kind) ==> old(proj).malformed < u64::MAX,
    ensures
        final(proj)@ == applied(old(proj)@, event@),
        final(proj).wf(),
        final(proj).malformed <= old(proj).malformed + 1,
{
    if same(event.kind.as_str(), "malformed") {
        proof {
            lemma_malformed_miscounted();
        }
        proj.malformed = proj.malformed + 1;
        return ;
    }
    if event.seq > 0 {
        proj.seq = event.seq;
    }
    proj.updated_at = event.ts;
    let kind = event.kind.as_str();
    if same(kind, "check_in") {
        apply_check_in(proj, event);
    } else if same(kind, "update") {
        apply_update(proj, event);
    } else if same(kind, "check_out") {
        apply_check_out(proj, event);
    } else if same(kind, "policy_promote") {
        apply_promote(proj, event);
    } else if same(kind, "policy_retire") {
        apply_retire(proj, event);
    } else if same(kind, "decision") || same(kind, "outcome") {
    } else {
        proj.malformed = proj.malformed + 1;
    }
    if let Some(key) = &event.idempotency_key {
        proj.idempotency.insert(
            key.as_str(),
            IdemHit { seq: event.seq, result: copy(event.result.as_str()) },
        );
        evict(&mut proj.idempotency);
    }
}

pub fn fold(events: &Vec<Event>, coordination_id: &str) -> (r: Projection)
    ensures
        r@ == folded(event_views(events@), coordination_id@),
        r.wf(),
{
    let mut proj = Projection::empty(copy(coordination_id));
    let ghost all = event_views(events@);
    assert(all.take(0) =~= Seq::<EventView>::empty());
    for i in 0..events.len()
        invariant
            all == event_views(events@),
            proj.wf(),
            proj.malformed <= i,
            proj@ == folded(all.take(i as int), coordination_id@),
    {
        assert(all.take(i + 1).drop_last() =~= all.take(i as int));
        apply(&mut proj, &events[i]);
    }
    assert(all.take(all.len() as int) =~= all);
    proj
}


// ---------------------------------------------------------------------------
// The journal text

/// The event that stands for line `n` of a journal that cannot be read.
pub open spec fn unreadable(n: nat) -> EventView {
    EventView {
        v: SCHEMA_VERSION,
        seq: 0,
        id: "malformed-"@ + dec(n),
        idempotency_key: None,
        ts: 0,
        kind: "malformed"@,
        agent_id: ""@,
        lease_id: ""@,
        result: ""@,
        body: Json::Null,
    }
}

fn malformed_event(n: u64) -> (r: Event)
    ensures
        r@ == unreadable(n as nat),
{
    let mut id = copy("malformed-");
    id.append(decimal(n).as_str());
    Event {
        v: SCHEMA_VERSION,
        seq: 0,
        id,
        idempotency_key: None,
        ts: 0,
        kind: copy("malformed"),
        agent_id: copy(""),
        lease_id: copy(""),
        result: copy(""),
        body: Datum::Null,
    }
}

/// What a journal line holds.
pub open spec fn line_event(line: Seq<char>) -> Option<EventView> {
    match json_parsed(line) {
        None => None,
        Some(j) => match event_from(j) {
            Ok(e) => Some(e),
            Err(_) => None,
        },
    }
}

/// The lines of a journal: what stands between line feeds, without an empty
/// piece behind the last one.
pub open spec fn journal_lines(text: Seq<char>) -> Seq<Seq<char>> {
    let parts = split_on(text, '\n');
    if parts.last().len() == 0 {
        parts.drop_last()
    } else {
        parts
    }
}

/// The events of the first `n` lines. A blank line holds none. A line that cannot
/// be read counts as malformed, unless it is the last one: a torn write, which
/// is dropped.
pub open spec fn journal_events(lines: Seq<Seq<char>>, n: nat) -> Seq<EventView>
    decreases n,
{
    if n == 0 {
        Seq::empty()
    } else {
        let rest = journal_events(lines, (n - 1) as nat);
        let line = lines[n - 1];
        if trimmed(line).len() == 0 {
            rest
        } else {
            match line_event(line) {
                Some(e) => rest.push(e),
                None => if n == lines.len() {
                    rest
                } else {
                    rest.push(unreadable(n))
                },
            }
        }
    }
}

/// Whether the last line of a journal is a torn write.
pub open spec fn torn(lines: Seq<Seq<char>>) -> bool {
    lines.len() > 0 && trimmed(lines.last()).len() > 0 && line_event(lines.last()) is None
}

/// The journal without its last line and without empty lines.
pub open spec fn mended(lines: Seq<Seq<char>>) -> Seq<char> {
    let kept = lines.drop_last().filter(nonempty());
    let body = joined(kept, "\n"@);
    if body.len() > 0 {
        body.push('\n')
    } else {
        body
    }
}

/// The events of a journal text, and the text to replace it with where its last
/// line is a torn write.
pub fn load_events(text: &str) -> (r: (Vec<Event>, Option<String>))
    ensures
        event_views(r.0@) == journal_events(journal_lines(text@), journal_lines(text@).len()),
        opt_text(r.1) == (if torn(journal_lines(text@)) {
            Some(mended(journal_lines(text@)))
        } else {
            None
        }),
{
    let mut lines = split_char(text, '\n');
    let ghost parts = split_on(text@, '\n');
    let last: usize = lines.len() - 1;
    assert(parts.last() == lines@[last as int]@);
    if is_blank(lines[last].as_str()) {
        let ghost before = lines@;
        let _ = lines.pop();
        assert(strs(lines@) =~= strs(before).drop_last());
    }
    let ghost all = journal_lines(text@);
    assert(strs(lines@) == all);
    let mut events: Vec<Event> = Vec::new();
    let mut drop_tail: bool = false;
    assert(event_views(events@) =~= journal_events(all, 0));
    for i in 0..lines.len()
        invariant
            strs(lines@) == all,
            event_views(events@) == journal_events(all, i as nat),
            drop_tail == (i == all.len() && torn(all)),
    {
        let line = lines[i].as_str();
        assert(all[i as int] == line@);
        let ghost before = events@;
        if !is_blank(trim(line).as_str()) {
            let found = match parse(line) {
                Some(v) => match Event::from_value(&v) {
                    Ok(e) => Some(e),
                    Err(_) => None,
                },
                None => None,
            };
            match found {
                Some(e) => {
                    events.push(e);
                    assert(event_views(events@) =~= event_views(before).push(e@));
                },
                None => {
                    if i + 1 == lines.len() {
                        drop_tail = true;
                    } else {
                        let e = malformed_event(i as u64 + 1);
                        events.push(e);
                        assert(event_views(events@) =~= event_views(before).push(e@));
                    }
                },
            }
        }
    }
    if drop_tail {
        let mut kept: Vec<String> = Vec::new();
        let n: usize = lines.len() - 1;
        let ghost front = all.drop_last();
        assert(front.take(0).filter(nonempty()) =~= Seq::<Seq<char>>::empty()) by {
            reveal(Seq::filter);
        }
        assert(strs(kept@) =~= front.take(0).filter(nonempty()));
        for i in 0..n
            invariant
                strs(lines@) == all,
                front == all.drop_last(),
                n + 1 == lines@.len(),
                n == front.len(),
                strs(kept@) == front.take(i as int).filter(nonempty()),
        {
            proof {
                assert(front.take(i + 1) =~= front.take(i as int).push(front[i as int]));
                front.take(i as int).lemma_filter_push(front[i as int], nonempty());
            }
            assert(front[i as int] == lines@[i as int]@);
            if !is_blank(lines[i].as_str()) {
                let ghost before = kept@;
                kept.push(copy(lines[i].as_str()));
                proof {
                    crate::text::lemma_strs_push(before, kept@.last());
                }
            }
        }
        assert(front.take(front.len() as int) =~= front);
        let mut out = join(&kept, "\n");
        proof {
            reveal_strlit("\n");
        }
        if !is_blank(out.as_str()) {
            out.push('\n');
        }
        (events, Some(out))
    } else {
        (events, None)
    }
}

/// A snapshot of the group: its projection and its journal.
pub struct Snapshot {
    pub projection: Projection,
    pub events: Vec<Event>,
}

/// Whether a stored projection may stand in for the rebuilt one.
pub open spec fn usable(cached: ProjectionView, rebuilt: ProjectionView) -> bool {
    cached.seq == rebuilt.seq && cached.coordination_id == rebuilt.coordination_id
}

/// The projection to use, and whether the stored one has to be written anew.
pub open spec fn chosen(
    stored: Option<Json>,
    events: Seq<EventView>,
    id: Seq<char>,
) -> (ProjectionView, bool) {
    let rebuilt = folded(events, id);
    match stored {
        None => (rebuilt, events.len() > 0),
        Some(j) => match projection_from(j) {
            Some(p) => if usable(p, rebuilt) {
                (p, false)
            } else {
                (rebuilt, true)
            },
            None => (rebuilt, true),
        },
    }
}

proof fn lemma_folded_id(events: Seq<EventView>, id: Seq<char>)
    ensures
        folded(events, id).coordination_id == id,
    decreases events.len(),
{
    if events.len() > 0 {
        lemma_folded_id(events.drop_last(), id);
    }
}

/// Chooses between the stored projection and the one that the journal gives.
pub fn load_locked(stored: Option<&Datum>, events: Vec<Event>, coordination_id: &str) -> (r: (
    Snapshot,
    bool,
))
    ensures
        (r.0.projection@, r.1) == chosen(
            crate::json::opt_view(stored),
            event_views(events@),
            coordination_id@,
        ),
        r.0.events == events,
        r.0.projection.wf(),
{
    let rebuilt = fold(&events, coordination_id);
    proof {
        lemma_folded_id(event_views(events@), coordination_id@);
    }
    match stored {
        None => {
            let stale_file: bool = events.len() > 0;
            (Snapshot { projection: rebuilt, events }, stale_file)
        },
        Some(v) => match Projection::from_value(v) {
            Some(p) => if p.seq == rebuilt.seq && same(p.coordination_id.as_str(), coordination_id) {
                (Snapshot { projection: p, events }, false)
            } else {
                (Snapshot { projection: rebuilt, events }, true)
            },
            None => (Snapshot { projection: rebuilt, events }, true),
        },
    }
}

/// The answer given earlier under an idempotency key.
pub fn idempotent_result(proj: &Projection, key: &str) -> (r: Option<String>)
    ensures
        opt_text(r) == match at(proj@.idempotency, key@) {
            Some(h) => Some(h.result),
            None => None,
        },
{
    match proj.idempotency.get(key) {
        Some(h) => Some(copy(h.result.as_str())),
        None => None,
    }
}

// ---------------------------------------------------------------------------
// Handoffs in the light of the present

/// Whether an agent is known and has checked out.
pub open spec fn has_left(agents: Seq<(Seq<char>, AgentRecord)>, id: Seq<char>) -> bool {
    match at(agents, id) {
        Some(a) => a.state == "checked_out"@,
        None => false,
    }
}

/// The status of a handoff: accepted once it was accepted; orphaned when its
/// giver has left or is unknown, it is old enough, and nobody it is addressed
/// to is present; otherwise on offer.
pub open spec fn handoff_status(
    h: HandoffView,
    agents: Seq<(Seq<char>, AgentRecord)>,
    now: u64,
    orphan_secs: u64,
) -> Seq<char> {
    let giver_gone = at(agents, h.from) is None || has_left(agents, h.from);
    let taker_gone = h.to.len() == 0 || at(agents, h.to) is None || has_left(agents, h.to);
    let age: int = if now >= h.created_at {
        now - h.created_at
    } else {
        0
    };
    if h.status == "accepted"@ {
        "accepted"@
    } else if giver_gone && taker_gone && age >= orphan_secs {
        "orphaned"@
    } else {
        "offered"@
    }
}

pub fn derived_handoff_status(
    h: &Handoff,
    agents: &StrMap<Agent>,
    now: u64,
    orphan_secs: u64,
) -> (r: String)
    ensures
        r@ == handoff_status(h@, agents@, now, orphan_secs),
{
    if same(h.status.as_str(), "accepted") {
        return copy("accepted");
    }
    let from_out: bool = match agents.get(h.from.as_str()) {
        Some(a) => same(a.state.as_str(), AgentState::CheckedOut.as_str()),
        None => true,
    };
    let (to_known, to_out): (bool, bool) = match agents.get(h.to.as_str()) {
        Some(a) => (true, same(a.state.as_str(), AgentState::CheckedOut.as_str())),
        None => (false, false),
    };
    let age: u64 = if now >= h.created_at {
        now - h.created_at
    } else {
        0
    };
    if from_out && age >= orphan_secs && (is_blank(h.to.as_str()) || to_out || !to_known) {
        copy("orphaned")
    } else {
        copy("offered")
    }
}

// ---------------------------------------------------------------------------
// Names and the state of the working tree

/// The hash that std's `DefaultHasher` gives for a text.
pub uninterp spec fn text_hash(s: Seq<char>) -> u64;

/// `DefaultHasher::new`, fed with one `str`. All hashers made by `new` agree;
/// the algorithm itself is not specified, so the result is only named.
#[verifier::external_body]
fn hash_text(s: &str) -> (r: u64)
    ensures
        r == text_hash(s@),
{
    let mut hasher = std::collections::hash_map::DefaultHasher::new();
    std::hash::Hash::hash(s, &mut hasher);
    std::hash::Hasher::finish(&hasher)
}

/// Sixteen hexadecimal digits of a text's hash.
pub fn hash_id(key: &str) -> (r: String)
    ensures
        r@ == hex_of(text_hash(key@) as nat, 16),
{
    hex(hash_text(key), 16)
}

/// The key under which a common Git directory is hashed: forward slashes, lower
/// case.
pub open spec fn group_key(dir: Seq<char>) -> Seq<char> {
    lowercase(replaced(dir, '\\', '/'))
}

/// The name of the group that shares a common Git directory; without one, the
/// name of the workspace.
pub fn coordination_id(common: Option<&str>, workspace_id: &str) -> (r: String)
    ensures
        r@ == match common {
            Some(d) => hex_of(text_hash(group_key(d@)) as nat, 16),
            None => workspace_id@,
        },
{
    match common {
        Some(d) => {
            let key = to_lower(replace_char(d, '\\', '/').as_str());
            hash_id(key.as_str())
        },
        None => copy(workspace_id),
    }
}

/// What Git says of a working tree.
pub struct GitSnapshot {
    pub branch: String,
    pub head_oid: String,
    pub base_oid: String,
    pub dirty_paths: Vec<String>,
    pub worktree: String,
}

/// The values of a [`GitSnapshot`].
pub struct GitView {
    pub branch: Seq<char>,
    pub head_oid: Seq<char>,
    pub base_oid: Seq<char>,
    pub dirty_paths: Seq<Seq<char>>,
    pub worktree: Seq<char>,
}

impl View for GitSnapshot {
    type V = GitView;

    open spec fn view(&self) -> GitView {
        GitView {
            branch: self.branch@,
            head_oid: self.head_oid@,
            base_oid: self.base_oid@,
            dirty_paths: strs(self.dirty_paths@),
            worktree: self.worktree@,
        }
    }
}

/// The snapshot made of the answers to Git's commands: the base is the merge
/// base with the upstream, or the parent of the head where there is no upstream.
pub fn git_snapshot(
    branch: &str,
    head: &str,
    upstream_base: &str,
    parent: &str,
    status: &[u8],
    worktree: &str,
) -> (r: GitSnapshot)
    ensures
        r@ == (GitView {
            branch: trimmed(branch@),
            head_oid: trimmed(head@),
            base_oid: if trimmed(upstream_base@).len() == 0 {
                trimmed(parent@)
            } else {
                trimmed(upstream_base@)
            },
            dirty_paths: dirty_of(status@),
            worktree: replaced(worktree@, '\\', '/'),
        }),
{
    let upstream = trim(upstream_base);
    GitSnapshot {
        branch: trim(branch),
        head_oid: trim(head),
        base_oid: if is_blank(upstream.as_str()) {
            trim(parent)
        } else {
            upstream
        },
        dirty_paths: git_dirty(status),
        worktree: replace_char(worktree, '\\', '/'),
    }
}

/// The pieces of a byte string between zero bytes.
pub open spec fn zero_split(b: Seq<u8>) -> Seq<Seq<u8>>
    decreases b.len(),
{
    if b.len() == 0 {
        seq![Seq::empty()]
    } else {
        let r = zero_split(b.drop_last());
        if b.last() == 0 {
            r.push(Seq::empty())
        } else {
            r.drop_last().push(r.last().push(b.last()))
        }
    }
}

/// What stands behind the last of the separators that are found from left to
/// right, searching from `from`.
pub open spec fn after_last(s: Seq<char>, sep: Seq<char>, from: int) -> Seq<char>
    decreases s.len() - from,
{
    if 0 <= from <= s.len() && sep.len() > 0 {
        match find_from(s, sep, from) {
            Some(i) => if from <= i && i + sep.len() <= s.len() {
                after_last(s, sep, i + sep.len())
            } else {
                s.skip(from)
            },
            None => s.skip(from),
        }
    } else {
        s
    }
}

/// The path that one status entry names: behind the two status letters and a
/// space, behind the arrow of a rename, trimmed and bounded.
pub open spec fn entry_path(entry: Seq<u8>) -> Option<Seq<char>> {
    if entry.len() < 4 {
        None
    } else {
        let path = trimmed(after_last(trimmed(decoded(entry.skip(3))), " -> "@, 0));
        if path.len() == 0 {
            None
        } else {
            Some(bounded(path, MAX_ITEM as nat))
        }
    }
}

/// The changed paths in the output of `git status --porcelain -z`.
pub open spec fn dirty_of(status: Seq<u8>) -> Seq<Seq<char>> {
    head(zero_split(status).filter_map(|e: Seq<u8>| entry_path(e)), MAX_PATHS as nat)
}

fn tail_after(s: &str, sep: &str) -> (r: String)
    requires
        sep@.len() > 0,
    ensures
        r@ == after_last(s@, sep@, 0),
{
    let v = to_chars(s);
    let p = to_chars(sep);
    let mut from: usize = 0;
    loop
        invariant
            v@ == s@,
            p@ == sep@,
            p@.len() > 0,
            from <= v@.len(),
            after_last(s@, sep@, 0) == after_last(s@, sep@, from as int),
        ensures
            from <= v@.len(),
            find_from(s@, sep@, from as int) is None,
        decreases v@.len() - from,
    {
        match crate::text::find(&v, &p, from) {
            Some(i) => {
                proof {
                    crate::text::lemma_find_from(s@, sep@, from as int);
                }
                assert(i + p.len() <= v.len());
                from = i + p.len();
            },
            None => {
                break;
            },
        }
    }
    assert(s@.skip(from as int) =~= s@.subrange(from as int, s@.len() as int));
    crate::text::slice(&v, from, v.len())
}

fn status_path(entry: &Vec<u8>) -> (r: Option<String>)
    ensures
        opt_text(r) == entry_path(entry@),
{
    if entry.len() < 4 {
        return None;
    }
    let mut rest: Vec<u8> = Vec::new();
    for i in 3..entry.len()
        invariant
            3 <= i,
            entry@.len() >= 4,
            rest@ == entry@.subrange(3, i as int),
    {
        rest.push(entry[i]);
        assert(entry@.subrange(3, i + 1) =~= entry@.subrange(3, i as int).push(entry@[i as int]));
    }
    assert(rest@ =~= entry@.skip(3));
    let text = trim(decode(rest.as_slice()).as_str());
    proof {
        reveal_strlit(" -> ");
    }
    let path = trim(tail_after(text.as_str(), " -> ").as_str());
    if is_blank(path.as_str()) {
        None
    } else {
        Some(bound(path.as_str(), MAX_ITEM))
    }
}

proof fn lemma_zero_split_nonempty(b: Seq<u8>)
    ensures
        zero_split(b).len() > 0,
    decreases b.len(),
{
    if b.len() > 0 {
        lemma_zero_split_nonempty(b.drop_last());
    }
}

fn split_zero(b: &[u8]) -> (r: Vec<Vec<u8>>)
    ensures
        r@.len() == zero_split(b@).len(),
        forall|i: int| 0 <= i < r@.len() ==> (#[trigger] r@[i])@ == zero_split(b@)[i],
{
    let mut out: Vec<Vec<u8>> = Vec::new();
    let mut cur: Vec<u8> = Vec::new();
    assert(b@.take(0) =~= Seq::<u8>::empty());
    assert(cur@ =~= Seq::<u8>::empty());
    for i in 0..b.len()
        invariant
            zero_split(b@.take(i as int)).len() == out@.len() + 1,
            zero_split(b@.take(i as int)).last() == cur@,
            forall|k: int|
                0 <= k < out@.len() ==> (#[trigger] out@[k])@ == zero_split(b@.take(i as int))[k],
    {
        assert(b@.take(i + 1).drop_last() =~= b@.take(i as int));
        let x: u8 = b[i];
        if x == 0 {
            out.push(cur);
            cur = Vec::new();
            assert(cur@ =~= Seq::<u8>::empty());
        } else {
            cur.push(x);
        }
    }
    assert(b@.take(b@.len() as int) =~= b@);
    out.push(cur);
    out
}

/// The changed paths in the output of `git status --porcelain -z`.
pub fn git_dirty(status: &[u8]) -> (r: Vec<String>)
    ensures
        strs(r@) == dirty_of(status@),
{
    let entries = split_zero(status);
    let ghost all = zero_split(status@);
    let ghost f = |e: Seq<u8>| entry_path(e);
    let mut out: Vec<String> = Vec::new();
    assert(strs(out@) =~= all.take(0).filter_map(f));
    for i in 0..entries.len()
        invariant
            all == zero_split(status@),
            all.len() == entries@.len(),
            f == (|e: Seq<u8>| entry_path(e)),
            forall|k: int| 0 <= k < entries@.len() ==> (#[trigger] entries@[k])@ == all[k],
            strs(out@) == head(all.take(i as int).filter_map(f), MAX_PATHS as nat),
    {
        proof {
            all.lemma_filter_map_take_succ(f, i as int);
        }
        let ghost prev = all.take(i as int).filter_map(f);
        let ghost next = all.take(i + 1).filter_map(f);
        let ghost before = out@;
        match status_path(&entries[i]) {
            Some(p) => {
                assert(next =~= prev.push(p@));
                if out.len() < MAX_PATHS {
                    out.push(p);
                    proof {
                        crate::text::lemma_strs_push(before, out@.last());
                    }
                    assert(strs(out@) =~= head(next, MAX_PATHS as nat));
                } else {
                    assert(strs(out@) =~= head(next, MAX_PATHS as nat));
                }
            },
            None => {
                assert(next =~= prev);
            },
        }
    }
    assert(all.take(all.len() as int) =~= all);
    out
}

// ---------------------------------------------------------------------------
// Laws

/// What stays within its limits: messages, handoffs and stored answers.
pub open spec fn within_limits(p: ProjectionView) -> bool {
    &&& p.messages.len() <= MAX_MESSAGES
    &&& p.handoffs.len() <= MAX_HANDOFFS
    &&& p.idempotency.len() <= MAX_IDEMPOTENCY
}

proof fn lemma_evicted(s: Seq<(Seq<char>, HitView)>)
    ensures
        evicted(s).len() <= MAX_IDEMPOTENCY,
    decreases s.len(),
{
    if s.len() > MAX_IDEMPOTENCY {
        lemma_oldest(s, s.len());
        lemma_evicted(s.remove(oldest(s, s.len())));
    }
}

proof fn lemma_offer_at(hs: Seq<HandoffView>, id: Seq<char>, from: int)
    ensures
        offer_at(hs, id, from) is Some ==> 0 <= offer_at(hs, id, from)->Some_0 < hs.len(),
    decreases hs.len() - from,
{
    if 0 <= from < hs.len() && !is_offer(hs[from], id) {
        lemma_offer_at(hs, id, from + 1);
    }
}

/// Applying an event keeps messages, handoffs and stored answers within their
/// limits.
pub proof fn law_apply_keeps_limits(p: ProjectionView, e: EventView)
    requires
        within_limits(p),
    ensures
        within_limits(applied(p, e)),
{
    let q = dispatched(
        ProjectionView {
            seq: if e.seq > 0 {
                e.seq
            } else {
                p.seq
            },
            updated_at: e.ts,
            ..p
        },
        e,
    );
    if some_str(e.body, "accept_handoff"@) is Some {
        lemma_offer_at(p.handoffs, some_str(e.body, "accept_handoff"@)->Some_0, 0);
    }
    assert(q.handoffs.len() <= MAX_HANDOFFS);
    assert(q.messages.len() <= MAX_MESSAGES);
    assert(q.idempotency == p.idempotency);
    if e.idempotency_key is Some {
        lemma_evicted(
            put(
                q.idempotency,
                e.idempotency_key->Some_0,
                HitView { seq: e.seq, result: e.result },
            ),
        );
    }
}

/// A projection folded from a journal is within its limits.
pub proof fn law_fold_within_limits(events: Seq<EventView>, id: Seq<char>)
    ensures
        within_limits(folded(events, id)),
    decreases events.len(),
{
    if events.len() > 0 {
        law_fold_within_limits(events.drop_last(), id);
        law_apply_keeps_limits(folded(events.drop_last(), id), events.last());
    }
}

/// At most one policy is active, and it is the one that is named active.
pub open spec fn one_active(p: ProjectionView) -> bool {
    forall|i: int, j: int|
        0 <= i < p.policies.len() && 0 <= j < p.policies.len() && (#[trigger] p.policies[i]).status
            == "active"@ && (#[trigger] p.policies[j]).status == "active"@ ==> i == j && Some(
            p.policies[i].id,
        ) == p.active_policy
}

/// Applying an event keeps at most one policy active.
pub proof fn law_apply_keeps_one_active(p: ProjectionView, e: EventView)
    requires
        one_active(p),
    ensures
        one_active(applied(p, e)),
{
    reveal_strlit("active");
    reveal_strlit("retired");
    assert("active"@ != "retired"@) by {
        assert("active"@.len() == 6 && "retired"@.len() == 7);
    }
}

/// Promotion and retirement of policies leave the agents, their leases and
/// claims, the handoffs and the messages alone.
pub proof fn law_policy_leaves_presence(p: ProjectionView, e: EventView)
    requires
        e.kind == "policy_promote"@ || e.kind == "policy_retire"@,
    ensures
        applied(p, e).agents == p.agents,
        applied(p, e).handoffs == p.handoffs,
        applied(p, e).messages == p.messages,
{
    reveal_strlit("policy_promote");
    reveal_strlit("policy_retire");
    reveal_strlit("malformed");
    reveal_strlit("check_in");
    reveal_strlit("update");
    reveal_strlit("check_out");
    assert("policy_promote"@.len() == 14 && "policy_retire"@.len() == 13 && "malformed"@.len() == 9
        && "check_in"@.len() == 8 && "update"@.len() == 6 && "check_out"@.len() == 9);
}

/// Checking out releases every claim of the agent, and no other agent changes.
pub proof fn law_check_out_releases(p: ProjectionView, e: EventView, other: Seq<char>)
    requires
        e.kind == "check_out"@,
        at(p.agents, e.agent_id) is Some,
    ensures
        at(applied(p, e).agents, e.agent_id) is Some,
        at(applied(p, e).agents, e.agent_id)->Some_0.claims.len() == 0,
        at(applied(p, e).agents, e.agent_id)->Some_0.state == state_name(AgentState::CheckedOut),
        other != e.agent_id ==> at(applied(p, e).agents, other) == at(p.agents, other),
{
    reveal_strlit("check_out");
    reveal_strlit("malformed");
    reveal_strlit("check_in");
    reveal_strlit("update");
    assert("check_out"@.len() == 9 && "malformed"@.len() == 9 && "check_in"@.len() == 8
        && "update"@.len() == 6);
    assert("check_out"@[0] != "malformed"@[0]);
    let a = at(p.agents, e.agent_id)->Some_0;
    lemma_at_put(p.agents, e.agent_id, agent_checked_out(a, e), e.agent_id);
    lemma_at_put(p.agents, e.agent_id, agent_checked_out(a, e), other);
}

/// Only check-in, update and check-out change agents, and each only the one it
/// names: no other event, and no passing of time, checks an agent out.
pub proof fn law_agents_change_by_their_own_events(
    p: ProjectionView,
    e: EventView,
    id: Seq<char>,
)
    requires
        id != e.agent_id || !(e.kind == "check_in"@ || e.kind == "update"@ || e.kind
            == "check_out"@),
    ensures
        at(applied(p, e).agents, id) == at(p.agents, id),
{
    lemma_at_put(p.agents, e.agent_id, agent_checked_in(e), id);
    if at(p.agents, e.agent_id) is Some {
        let a = at(p.agents, e.agent_id)->Some_0;
        lemma_at_put(p.agents, e.agent_id, agent_updated(a, e), id);
        lemma_at_put(p.agents, e.agent_id, agent_checked_out(a, e), id);
    }
}

/// Appending an event to the journal and replaying it gives what applying the
/// event to the projection gives.
pub proof fn law_replay_is_apply(events: Seq<EventView>, e: EventView, id: Seq<char>)
    ensures
        folded(events.push(e), id) == applied(folded(events, id), e),
{
    assert(events.push(e).drop_last() =~= events);
}

/// A journal whose last line is torn reads as the journal without that line,
/// as long as it holds other lines and none of them is empty.
pub proof fn law_torn_tail(lines: Seq<Seq<char>>)
    requires
        torn(lines),
        forall|i: int| 0 <= i < lines.len() - 1 ==> line_event(#[trigger] lines[i]) is Some,
    ensures
        journal_events(lines, lines.len()) == journal_events(
            lines.drop_last(),
            (lines.len() - 1) as nat,
        ),
{
    lemma_events_front(lines, (lines.len() - 1) as nat);
}

proof fn lemma_events_front(lines: Seq<Seq<char>>, n: nat)
    requires
        n < lines.len(),
        forall|i: int| 0 <= i < lines.len() - 1 ==> line_event(#[trigger] lines[i]) is Some,
    ensures
        journal_events(lines, n) == journal_events(lines.drop_last(), n),
    decreases n,
{
    if n > 0 {
        lemma_events_front(lines, (n - 1) as nat);
        assert(lines.drop_last()[n - 1] == lines[n - 1]);
        assert(line_event(lines[n - 1]) is Some);
    }
}

} // verus!

//! Turning a prepared change into an event, and the answer that goes with it.
use vstd::prelude::*;
use crate::izakaya::model::{
    advisory_findings, finding_views, findings, seen_views, state_named, AgentState, AgentView,
    FindingView, Seen, SCHEMA_VERSION,
};
use crate::izakaya::journal::{law_event_comes_back, tidy};
use crate::izakaya::records::{AgentRecord, HandoffView, HitView, IdemHit};
use crate::izakaya::memory::{
    law_memory_stays_orderly, law_oldest_answer_is_forgotten, orderly_memory,
};
use crate::izakaya::store::{
    applied, apply, dispatched, event_from, event_json, evicted, miscounted, oldest,
    remembered, Event, EventView, Projection,
    ProjectionView, MAX_IDEMPOTENCY,
};
use crate::json::{
    add_member, as_str, build, get, get_str, json_opt_str, members, no_members, opt_str_value,
    ordered, record, set_member, str_or as text_or, str_value, string_or, with_member, Datum,
    Json,
};
use crate::smap::{ascending, at, lemma_put_ascending, put, StrMap};
use crate::text::{copy, dec, decimal, is_blank, opt_text, quote, quoted, same};

verus! {

/// Which answer a change gets. A promotion carries its support as it is shown.
pub enum Answer {
    CheckIn,
    Update,
    CheckOut,
    Decision,
    Outcome,
    Promote(String),
    Retire,
}

/// The values of an [`Answer`].
pub enum AnswerView {
    CheckIn,
    Update,
    CheckOut,
    Decision,
    Outcome,
    Promote(Seq<char>),
    Retire,
}

impl View for Answer {
    type V = AnswerView;

    open spec fn view(&self) -> AnswerView {
        match self {
            Answer::CheckIn => AnswerView::CheckIn,
            Answer::Update => AnswerView::Update,
            Answer::CheckOut => AnswerView::CheckOut,
            Answer::Decision => AnswerView::Decision,
            Answer::Outcome => AnswerView::Outcome,
            Answer::Promote(s) => AnswerView::Promote(s@),
            Answer::Retire => AnswerView::Retire,
        }
    }
}

/// A change that has passed its checks.
pub struct Prepared {
    pub kind: String,
    pub agent_id: String,
    pub lease_id: String,
    pub idempotency_key: Option<String>,
    pub body: Datum,
    pub answer: Answer,
}

/// The values of a [`Prepared`].
pub struct PreparedView {
    pub kind: Seq<char>,
    pub agent_id: Seq<char>,
    pub lease_id: Seq<char>,
    pub idempotency_key: Option<Seq<char>>,
    pub body: Json,
    pub answer: AnswerView,
}

impl View for Prepared {
    type V = PreparedView;

    open spec fn view(&self) -> PreparedView {
        PreparedView {
            kind: self.kind@,
            agent_id: self.agent_id@,
            lease_id: self.lease_id@,
            idempotency_key: opt_text(self.idempotency_key),
            body: self.body@,
            answer: self.answer@,
        }
    }
}

/// What comes of a call that may change the group.
pub enum Committed {
    /// Nothing changes; this is the answer.
    Answered(Datum),
    /// The event goes into the journal, the projection replaces the stored one.
    Appended(Datum, Event, Projection),
}

/// The values of a [`Committed`].
pub enum CommittedView {
    Answered(Json),
    Appended(Json, EventView, ProjectionView),
}

impl View for Committed {
    type V = CommittedView;

    open spec fn view(&self) -> CommittedView {
        match self {
            Committed::Answered(v) => CommittedView::Answered(v@),
            Committed::Appended(v, e, p) => CommittedView::Appended(v@, e@, p@),
        }
    }
}

/// The outcome of a call that may be refused.
pub open spec fn call_view(r: Result<Committed, String>) -> Result<CommittedView, Seq<char>> {
    match r {
        Ok(c) => Ok(c@),
        Err(e) => Err(e@),
    }
}

// ---------------------------------------------------------------------------
// Advisory findings as text

/// An agent as the findings see it; an unknown state leaves it out.
pub open spec fn seen_of() -> spec_fn((Seq<char>, AgentRecord)) -> Option<Seen> {
    |kv: (Seq<char>, AgentRecord)|
        match state_named(kv.1.state) {
            Ok(s) => Some(
                Seen {
                    agent_id: kv.1.agent_id,
                    state: s,
                    expires_at: kv.1.expires_at,
                    base_oid: kv.1.base_oid,
                    claims: kv.1.claims,
                    dirty_paths: kv.1.dirty_paths,
                },
            ),
            Err(_) => None,
        }
}

/// The agents of a group as the findings see them.
pub open spec fn all_seen(p: ProjectionView) -> Seq<Seen> {
    p.agents.filter_map(seen_of())
}

pub fn agent_views<'a>(proj: &'a Projection) -> (r: Vec<AgentView<'a>>)
    ensures
        seen_views(r@) == all_seen(proj@),
{
    let mut out: Vec<AgentView<'a>> = Vec::new();
    let ghost all = proj@.agents;
    assert(all.take(0) =~= Seq::<(Seq<char>, AgentRecord)>::empty());
    assert(seen_views(out@) =~= Seq::<Seen>::empty());
    assert(all.take(0).filter_map(seen_of()) =~= Seq::<Seen>::empty());
    for i in 0..proj.agents.entries.len()
        invariant
            all == proj@.agents,
            seen_views(out@) == all.take(i as int).filter_map(seen_of()),
    {
        proof {
            all.lemma_filter_map_take_succ(seen_of(), i as int);
        }
        let a = &proj.agents.entries[i].1;
        assert(all[i as int] == (proj.agents.entries@[i as int].0@, a@));
        if let Ok(state) = AgentState::parse(a.state.as_str()) {
            let ghost before = out@;
            let v = AgentView {
                agent_id: a.agent_id.as_str(),
                state,
                expires_at: a.expires_at,
                base_oid: a.base_oid.as_str(),
                claims: a.claims.as_slice(),
                dirty_paths: a.dirty_paths.as_slice(),
            };
            out.push(v);
            assert(seen_views(out@) =~= seen_views(before).push(v@));
            assert(seen_of()(all[i as int]) == Some(v@));
        }
    }
    assert(all.take(all.len() as int) =~= all);
    out
}

pub open spec fn finding_line(f: FindingView) -> Seq<char> {
    "  - "@ + f.kind + " "@ + f.detail + (if f.stale {
        " [stale]"@
    } else {
        ""@
    }) + "\n"@
}

pub open spec fn finding_block(fs: Seq<FindingView>) -> Seq<char>
    decreases fs.len(),
{
    if fs.len() == 0 {
        "advisory:\n"@
    } else {
        finding_block(fs.drop_last()) + finding_line(fs.last())
    }
}

/// The findings on a group, as its answers show them.
pub open spec fn finding_text(p: ProjectionView, now: u64) -> Seq<char> {
    let fs = findings(all_seen(p), now);
    if fs.len() == 0 {
        "advisory: (no overlaps)\n"@
    } else {
        finding_block(fs)
    }
}

pub fn finding_lines(proj: &Projection, now: u64) -> (r: String)
    ensures
        r@ == finding_text(proj@, now),
{
    let seen = agent_views(proj);
    let found = advisory_findings(seen.as_slice(), now);
    let ghost all = finding_views(found@);
    if found.len() == 0 {
        return copy("advisory: (no overlaps)\n");
    }
    let mut text = copy("advisory:\n");
    assert(all.take(0) =~= Seq::<FindingView>::empty());
    for i in 0..found.len()
        invariant
            all == finding_views(found@),
            text@ == finding_block(all.take(i as int)),
    {
        assert(all.take(i + 1).drop_last() =~= all.take(i as int));
        let f = &found[i];
        assert(all[i as int] == f@);
        let mut line = copy("  - ");
        line.append(f.kind.as_str());
        line.append(" ");
        line.append(f.detail.as_str());
        line.append(
            if f.stale {
                " [stale]"
            } else {
                ""
            },
        );
        line.append("\n");
        text.append(line.as_str());
    }
    assert(all.take(all.len() as int) =~= all);
    text
}

// ---------------------------------------------------------------------------
// Answers

/// The remark on a multi-agent session that an event carries.
pub open spec fn note_line(body: Json) -> Seq<char> {
    match as_str(get(body, "mas_note"@)) {
        Some(n) => if n.len() > 0 {
            n + "\n"@
        } else {
            ""@
        },
        None => ""@,
    }
}

fn note_of(body: &Datum) -> (r: String)
    ensures
        r@ == note_line(body@),
{
    match get_str(body, "mas_note") {
        Some(n) => if is_blank(n.as_str()) {
            copy("")
        } else {
            let mut s = copy(n.as_str());
            s.append("\n");
            s
        },
        None => copy(""),
    }
}

pub open spec fn check_in_text(p: ProjectionView, e: EventView, a: AgentRecord) -> Seq<char> {
    "izakaya_check_in - agent "@ + a.agent_id + "\nstate: "@ + a.state + "\nlease_id: "@ + a.lease_id
        + "\nrevision: "@ + dec(a.revision as nat) + "\nseq: "@ + dec(e.seq as nat)
        + "\nexpires_at: "@ + dec(a.expires_at as nat) + "\n"@ + note_line(e.body) + finding_text(
        p,
        e.ts,
    )
}

pub open spec fn update_text(p: ProjectionView, e: EventView, a: AgentRecord) -> Seq<char> {
    "izakaya_update - agent "@ + a.agent_id + "\nstate: "@ + a.state + "\nlease_id: "@ + a.lease_id
        + "\nrevision: "@ + dec(a.revision as nat) + "\nexpires_at: "@ + dec(a.expires_at as nat)
        + "\n"@ + finding_text(p, e.ts)
}

/// The latest hand-off that an agent offered, among the first `n`.
pub open spec fn last_offer(hs: Seq<HandoffView>, from: Seq<char>, n: nat) -> Option<HandoffView>
    decreases n,
{
    if n == 0 {
        None
    } else if hs[n - 1].from == from {
        Some(hs[n - 1])
    } else {
        last_offer(hs, from, (n - 1) as nat)
    }
}

/// The name of the hand-off that an answer to a check-out gives.
pub open spec fn offer_id(p: ProjectionView, from: Seq<char>) -> Json {
    match last_offer(p.handoffs, from, p.handoffs.len()) {
        Some(h) => Json::Str(h.id),
        None => Json::Null,
    }
}

pub open spec fn check_out_text(p: ProjectionView, e: EventView) -> Seq<char> {
    "izakaya_check_out - agent "@ + e.agent_id + "\nstate: checked_out\nreason: "@ + text_or(
        e.body,
        "reason"@,
        "completed"@,
    ) + "\nclaims: released\n"@ + note_line(e.body) + (match last_offer(
        p.handoffs,
        e.agent_id,
        p.handoffs.len(),
    ) {
        Some(h) => "handoff_id: "@ + h.id + " to "@ + h.to + "\n"@,
        None => ""@,
    }) + "Izakaya did not finalize any MAS session.\n"@
}

/// An optional text as a debugging aid shows it.
pub open spec fn shown_option(s: Option<Seq<char>>) -> Seq<char> {
    match s {
        Some(t) => "Some("@ + quoted(t) + ")"@,
        None => "None"@,
    }
}

fn show_option(s: &Option<String>) -> (r: String)
    ensures
        r@ == shown_option(opt_text(*s)),
{
    match s {
        Some(t) => {
            let mut r = copy("Some(");
            r.append(quote(t.as_str()).as_str());
            r.append(")");
            r
        },
        None => copy("None"),
    }
}

/// The answer to a change, once the group `p` has taken the event in.
pub open spec fn answered(w: AnswerView, p: ProjectionView, e: EventView) -> Json {
    match w {
        AnswerView::CheckIn => {
            let a = at(p.agents, e.agent_id)->Some_0;
            record(
                seq![
                    ("advisory"@, Json::Bool(true)),
                    ("agent_id"@, Json::Str(a.agent_id)),
                    ("expires_at"@, Json::UInt(a.expires_at)),
                    ("lease_id"@, Json::Str(a.lease_id)),
                    ("revision"@, Json::UInt(a.revision)),
                    ("seq"@, Json::UInt(e.seq)),
                    ("state"@, Json::Str(a.state)),
                    ("text"@, Json::Str(check_in_text(p, e, a))),
                ],
            )
        },
        AnswerView::Update => {
            let a = at(p.agents, e.agent_id)->Some_0;
            record(
                seq![
                    ("agent_id"@, Json::Str(a.agent_id)),
                    ("expires_at"@, Json::UInt(a.expires_at)),
                    ("revision"@, Json::UInt(a.revision)),
                    ("state"@, Json::Str(a.state)),
                    ("text"@, Json::Str(update_text(p, e, a))),
                ],
            )
        },
        AnswerView::CheckOut => record(
            seq![
                ("agent_id"@, Json::Str(e.agent_id)),
                ("handoff_id"@, offer_id(p, e.agent_id)),
                ("reason"@, Json::Str(text_or(e.body, "reason"@, "completed"@))),
                ("state"@, Json::Str("checked_out"@)),
                ("text"@, Json::Str(check_out_text(p, e))),
            ],
        ),
        AnswerView::Decision => {
            let id = text_or(e.body, "decision_id"@, ""@);
            record(
                seq![
                    ("decision_id"@, Json::Str(id)),
                    ("seq"@, Json::UInt(e.seq)),
                    (
                        "text"@,
                        Json::Str(
                            "izakaya_record_decision - agent "@ + e.agent_id + " decision "@ + id
                                + " seq "@ + dec(e.seq as nat) + "\n"@,
                        ),
                    ),
                ],
            )
        },
        AnswerView::Outcome => {
            let id = text_or(e.body, "decision_id"@, ""@);
            let action = text_or(e.body, "action"@, ""@);
            record(
                seq![
                    ("action"@, Json::Str(action)),
                    ("decision_id"@, Json::Str(id)),
                    (
                        "text"@,
                        Json::Str(
                            "izakaya_record_outcome - decision "@ + id + " action "@ + action
                                + "\n"@,
                        ),
                    ),
                ],
            )
        },
        AnswerView::Promote(support) => {
            let id = text_or(e.body, "id"@, ""@);
            record(
                seq![
                    ("active_policy"@, json_opt_str(p.active_policy)),
                    ("policy_id"@, Json::Str(id)),
                    (
                        "text"@,
                        Json::Str(
                            "izakaya policy promote - "@ + id + " active\nsupport: "@ + support
                                + "\nThis does not assign work or change agent leases.\n"@,
                        ),
                    ),
                ],
            )
        },
        AnswerView::Retire => {
            let id = text_or(e.body, "id"@, ""@);
            record(
                seq![
                    ("active_policy"@, json_opt_str(p.active_policy)),
                    ("policy_id"@, Json::Str(id)),
                    (
                        "text"@,
                        Json::Str(
                            "izakaya policy retire - "@ + id + "\nactive: "@ + shown_option(
                                p.active_policy,
                            ) + "\n"@,
                        ),
                    ),
                ],
            )
        },
    }
}

fn render_check_in(proj: &Projection, event: &Event) -> (r: Datum)
    requires
        at(proj@.agents, event@.agent_id) is Some,
        proj.wf(),
    ensures
        r@ == answered(AnswerView::CheckIn, proj@, event@),
        ordered(r@),
{
    match proj.agents.get(event.agent_id.as_str()) {
        None => Datum::Null,
        Some(a) => {
            let mut text = copy("izakaya_check_in - agent ");
            text.append(a.agent_id.as_str());
            text.append("\nstate: ");
            text.append(a.state.as_str());
            text.append("\nlease_id: ");
            text.append(a.lease_id.as_str());
            text.append("\nrevision: ");
            text.append(decimal(a.revision).as_str());
            text.append("\nseq: ");
            text.append(decimal(event.seq).as_str());
            text.append("\nexpires_at: ");
            text.append(decimal(a.expires_at).as_str());
            text.append("\n");
            text.append(note_of(&event.body).as_str());
            text.append(finding_lines(proj, event.ts).as_str());
            let mut ms = no_members();
            add_member(&mut ms, "advisory", Datum::Bool(true));
            add_member(&mut ms, "agent_id", str_value(a.agent_id.as_str()));
            add_member(&mut ms, "expires_at", Datum::UInt(a.expires_at));
            add_member(&mut ms, "lease_id", str_value(a.lease_id.as_str()));
            add_member(&mut ms, "revision", Datum::UInt(a.revision));
            add_member(&mut ms, "seq", Datum::UInt(event.seq));
            add_member(&mut ms, "state", str_value(a.state.as_str()));
            add_member(&mut ms, "text", Datum::Str(text));
            assert(members(ms@) =~= seq![
                ("advisory"@, Json::Bool(true)),
                ("agent_id"@, Json::Str(a@.agent_id)),
                ("expires_at"@, Json::UInt(a.expires_at)),
                ("lease_id"@, Json::Str(a@.lease_id)),
                ("revision"@, Json::UInt(a.revision)),
                ("seq"@, Json::UInt(event.seq)),
                ("state"@, Json::Str(a@.state)),
                ("text"@, Json::Str(check_in_text(proj@, event@, a@))),
            ]);
            build(ms)
        },
    }
}

fn render_update(proj: &Projection, event: &Event) -> (r: Datum)
    requires
        at(proj@.agents, event@.agent_id) is Some,
        proj.wf(),
    ensures
        r@ == answered(AnswerView::Update, proj@, event@),
        ordered(r@),
{
    match proj.agents.get(event.agent_id.as_str()) {
        None => Datum::Null,
        Some(a) => {
            let mut text = copy("izakaya_update - agent ");
            text.append(a.agent_id.as_str());
            text.append("\nstate: ");
            text.append(a.state.as_str());
            text.append("\nlease_id: ");
            text.append(a.lease_id.as_str());
            text.append("\nrevision: ");
            text.append(decimal(a.revision).as_str());
            text.append("\nexpires_at: ");
            text.append(decimal(a.expires_at).as_str());
            text.append("\n");
            text.append(finding_lines(proj, event.ts).as_str());
            let mut ms = no_members();
            add_member(&mut ms, "agent_id", str_value(a.agent_id.as_str()));
            add_member(&mut ms, "expires_at", Datum::UInt(a.expires_at));
            add_member(&mut ms, "revision", Datum::UInt(a.revision));
            add_member(&mut ms, "state", str_value(a.state.as_str()));
            add_member(&mut ms, "text", Datum::Str(text));
            assert(members(ms@) =~= seq![
                ("agent_id"@, Json::Str(a@.agent_id)),
                ("expires_at"@, Json::UInt(a.expires_at)),
                ("revision"@, Json::UInt(a.revision)),
                ("state"@, Json::Str(a@.state)),
                ("text"@, Json::Str(update_text(proj@, event@, a@))),
            ]);
            build(ms)
        },
    }
}

fn find_offer<'a>(proj: &'a Projection, from: &str) -> (r: Option<&'a crate::izakaya::records::Handoff>)
    ensures
        match (r, last_offer(proj@.handoffs, from@, proj@.handoffs.len())) {
            (Some(a), Some(b)) => a@ == b,
            (None, None) => true,
            _ => false,
        },
{
    let mut n: usize = proj.handoffs.len();
    while n > 0
        invariant
            n <= proj.handoffs@.len(),
            last_offer(proj@.handoffs, from@, proj@.handoffs.len()) == last_offer(
                proj@.handoffs,
                from@,
                n as nat,
            ),
        decreases n,
    {
        let h = &proj.handoffs[n - 1];
        assert(proj@.handoffs[n - 1] == h@);
        if same(h.from.as_str(), from) {
            return Some(h);
        }
        n = n - 1;
    }
    None
}

fn render_check_out(proj: &Projection, event: &Event) -> (r: Datum)
    ensures
        r@ == answered(AnswerView::CheckOut, proj@, event@),
        ordered(r@),
{
    let reason = string_or(&event.body, "reason", "completed");
    let offer = find_offer(proj, event.agent_id.as_str());
    let mut text = copy("izakaya_check_out - agent ");
    text.append(event.agent_id.as_str());
    text.append("\nstate: checked_out\nreason: ");
    text.append(reason.as_str());
    text.append("\nclaims: released\n");
    text.append(note_of(&event.body).as_str());
    let (line, id) = match offer {
        Some(h) => {
            let mut l = copy("handoff_id: ");
            l.append(h.id.as_str());
            l.append(" to ");
            l.append(h.to.as_str());
            l.append("\n");
            (l, str_value(h.id.as_str()))
        },
        None => (copy(""), Datum::Null),
    };
    text.append(line.as_str());
    text.append("Izakaya did not finalize any MAS session.\n");
    assert(id@ == offer_id(proj@, event@.agent_id));
    let mut ms = no_members();
    add_member(&mut ms, "agent_id", str_value(event.agent_id.as_str()));
    add_member(&mut ms, "handoff_id", id);
    add_member(&mut ms, "reason", str_value(reason.as_str()));
    add_member(&mut ms, "state", str_value("checked_out"));
    add_member(&mut ms, "text", Datum::Str(text));
    assert(members(ms@) =~= seq![
        ("agent_id"@, Json::Str(event@.agent_id)),
        ("handoff_id"@, offer_id(proj@, event@.agent_id)),
        ("reason"@, Json::Str(reason@)),
        ("state"@, Json::Str("checked_out"@)),
        ("text"@, Json::Str(check_out_text(proj@, event@))),
    ]);
    build(ms)
}

fn render_decision(proj: &Projection, event: &Event) -> (r: Datum)
    ensures
        r@ == answered(AnswerView::Decision, proj@, event@),
        ordered(r@),
{
    let id = string_or(&event.body, "decision_id", "");
    let mut text = copy("izakaya_record_decision - agent ");
    text.append(event.agent_id.as_str());
    text.append(" decision ");
    text.append(id.as_str());
    text.append(" seq ");
    text.append(decimal(event.seq).as_str());
    text.append("\n");
    let ghost shown = text@;
    let mut ms = no_members();
    add_member(&mut ms, "decision_id", str_value(id.as_str()));
    add_member(&mut ms, "seq", Datum::UInt(event.seq));
    add_member(&mut ms, "text", Datum::Str(text));
    assert(members(ms@) =~= seq![
        ("decision_id"@, Json::Str(id@)),
        ("seq"@, Json::UInt(event.seq)),
        ("text"@, Json::Str(shown)),
    ]);
    build(ms)
}

fn render_outcome(proj: &Projection, event: &Event) -> (r: Datum)
    ensures
        r@ == answered(AnswerView::Outcome, proj@, event@),
        ordered(r@),
{
    let id = string_or(&event.body, "decision_id", "");
    let action = string_or(&event.body, "action", "");
    let mut text = copy("izakaya_record_outcome - decision ");
    text.append(id.as_str());
    text.append(" action ");
    text.append(action.as_str());
    text.append("\n");
    let ghost shown = text@;
    let mut ms = no_members();
    add_member(&mut ms, "action", str_value(action.as_str()));
    add_member(&mut ms, "decision_id", str_value(id.as_str()));
    add_member(&mut ms, "text", Datum::Str(text));
    assert(members(ms@) =~= seq![
        ("action"@, Json::Str(action@)),
        ("decision_id"@, Json::Str(id@)),
        ("text"@, Json::Str(shown)),
    ]);
    build(ms)
}

fn policy_answer(proj: &Projection, id: &str, text: String) -> (r: Datum)
    ensures
        r@ == record(
            seq![
                ("active_policy"@, json_opt_str(proj@.active_policy)),
                ("policy_id"@, Json::Str(id@)),
                ("text"@, Json::Str(text@)),
            ],
        ),
        ordered(r@),
{
    let ghost shown = text@;
    let mut ms = no_members();
    add_member(&mut ms, "active_policy", opt_str_value(&proj.active_policy));
    add_member(&mut ms, "policy_id", str_value(id));
    add_member(&mut ms, "text", Datum::Str(text));
    assert(members(ms@) =~= seq![
        ("active_policy"@, json_opt_str(proj@.active_policy)),
        ("policy_id"@, Json::Str(id@)),
        ("text"@, Json::Str(shown)),
    ]);
    build(ms)
}

fn render_promote(proj: &Projection, event: &Event, support: &str) -> (r: Datum)
    ensures
        r@ == answered(AnswerView::Promote(support@), proj@, event@),
        ordered(r@),
{
    let id = string_or(&event.body, "id", "");
    let mut text = copy("izakaya policy promote - ");
    text.append(id.as_str());
    text.append(" active\nsupport: ");
    text.append(support);
    text.append("\nThis does not assign work or change agent leases.\n");
    policy_answer(proj, id.as_str(), text)
}

fn render_retire(proj: &Projection, event: &Event) -> (r: Datum)
    ensures
        r@ == answered(AnswerView::Retire, proj@, event@),
        ordered(r@),
{
    let id = string_or(&event.body, "id", "");
    let mut text = copy("izakaya policy retire - ");
    text.append(id.as_str());
    text.append("\nactive: ");
    text.append(show_option(&proj.active_policy).as_str());
    text.append("\n");
    policy_answer(proj, id.as_str(), text)
}

/// Whether the answer finds the agent that it speaks of.
pub open spec fn answerable(w: AnswerView, p: ProjectionView, id: Seq<char>) -> bool {
    (w is CheckIn || w is Update) ==> at(p.agents, id) is Some
}

pub fn render(w: &Answer, proj: &Projection, event: &Event) -> (r: Datum)
    requires
        proj.wf(),
        answerable(w@, proj@, event@.agent_id),
    ensures
        r@ == answered(w@, proj@, event@),
        ordered(r@),
{
    match w {
        Answer::CheckIn => render_check_in(proj, event),
        Answer::Update => render_update(proj, event),
        Answer::CheckOut => render_check_out(proj, event),
        Answer::Decision => render_decision(proj, event),
        Answer::Outcome => render_outcome(proj, event),
        Answer::Promote(s) => render_promote(proj, event, s.as_str()),
        Answer::Retire => render_retire(proj, event),
    }
}

// ---------------------------------------------------------------------------
// Committing

/// The event that a change becomes.
pub open spec fn event_of(p: ProjectionView, prep: PreparedView, ts: u64) -> EventView {
    let seq = (p.seq + 1) as u64;
    EventView {
        v: SCHEMA_VERSION,
        seq,
        id: "e"@ + dec(seq as nat),
        idempotency_key: prep.idempotency_key,
        ts,
        kind: prep.kind,
        agent_id: prep.agent_id,
        lease_id: prep.lease_id,
        result: ""@,
        body: prep.body,
    }
}

/// The answer is kept under the idempotency key, if the key is still there.
pub open spec fn with_result(
    s: Seq<(Seq<char>, HitView)>,
    key: Option<Seq<char>>,
    text: Seq<char>,
) -> Seq<(Seq<char>, HitView)> {
    match key {
        None => s,
        Some(k) => match at(s, k) {
            None => s,
            Some(h) => put(s, k, HitView { seq: h.seq, result: text }),
        },
    }
}

/// The answer with what every answer has.
pub open spec fn completed(j: Json, e: EventView, id: Seq<char>) -> Json {
    with_member(
        with_member(
            with_member(
                with_member(j, "seq"@, Json::UInt(e.seq)),
                "lease_id"@,
                Json::Str(e.lease_id),
            ),
            "coordination_id"@,
            Json::Str(id),
        ),
        "idempotent"@,
        Json::Bool(false),
    )
}

/// What a change that was made before is answered.
pub open spec fn repeated(seq: u64, text: Seq<char>) -> Json {
    record(
        seq![
            ("idempotent"@, Json::Bool(true)),
            ("seq"@, Json::UInt(seq)),
            ("text"@, Json::Str(text)),
        ],
    )
}

/// The answer that is stored under the key of a change.
pub open spec fn stored_answer(p: ProjectionView, prep: PreparedView) -> Option<HitView> {
    match prep.idempotency_key {
        Some(k) => at(p.idempotency, k),
        None => None,
    }
}

/// What a change does: a key that was answered before is answered again, and any
/// other change becomes the next event of the journal.
pub open spec fn committed(p: ProjectionView, prep: PreparedView, ts: u64) -> CommittedView {
    match stored_answer(p, prep) {
        Some(h) => CommittedView::Answered(repeated(h.seq, h.result)),
        None => {
            let e = event_of(p, prep, ts);
            let q = applied(p, e);
            let answer = answered(prep.answer, q, e);
            let text = text_or(answer, "text"@, ""@);
            CommittedView::Appended(
                completed(answer, e, p.coordination_id),
                EventView { result: text, ..e },
                ProjectionView {
                    idempotency: with_result(q.idempotency, prep.idempotency_key, text),
                    ..q
                },
            )
        },
    }
}

fn keep_result(map: &mut StrMap<IdemHit>, key: &Option<String>, text: &str)
    requires
        old(map).wf(),
    ensures
        final(map)@ == with_result(old(map)@, opt_text(*key), text@),
        final(map).wf(),
{
    if let Some(k) = key {
        let seq: Option<u64> = match map.get(k.as_str()) {
            Some(h) => Some(h.seq),
            None => None,
        };
        if let Some(n) = seq {
            map.insert(k.as_str(), IdemHit { seq: n, result: copy(text) });
        }
    }
}

pub fn commit(proj: Projection, prepared: Prepared, ts: u64) -> (r: Committed)
    requires
        proj.wf(),
        stored_answer(proj@, prepared@) is None ==> {
            &&& proj.seq < u64::MAX
            &&& miscounted(prepared@.kind) ==> proj.malformed < u64::MAX
            &&& answerable(
                prepared@.answer,
                applied(proj@, event_of(proj@, prepared@, ts)),
                prepared@.agent_id,
            )
        },
    ensures
        r@ == committed(proj@, prepared@, ts),
        r matches Committed::Appended(_, _, q) ==> q.wf(),
{
    if let Some(key) = &prepared.idempotency_key {
        if let Some(h) = proj.idempotency.get(key.as_str()) {
            let mut ms = no_members();
            add_member(&mut ms, "idempotent", Datum::Bool(true));
            add_member(&mut ms, "seq", Datum::UInt(h.seq));
            add_member(&mut ms, "text", str_value(h.result.as_str()));
            assert(members(ms@) =~= seq![
                ("idempotent"@, Json::Bool(true)),
                ("seq"@, Json::UInt(h.seq)),
                ("text"@, Json::Str(h.result@)),
            ]);
            return Committed::Answered(build(ms));
        }
    }
    let ghost p = proj@;
    let ghost prep = prepared@;
    let seq: u64 = proj.seq + 1;
    let mut id = copy("e");
    id.append(decimal(seq).as_str());
    let Prepared { kind, agent_id, lease_id, idempotency_key, body, answer } = prepared;
    let mut event = Event {
        v: SCHEMA_VERSION,
        seq,
        id,
        idempotency_key,
        ts,
        kind,
        agent_id,
        lease_id,
        result: copy(""),
        body,
    };
    assert(event@ == event_of(p, prep, ts));
    let mut next = proj;
    apply(&mut next, &event);
    let rendered = render(&answer, &next, &event);
    let text = string_or(&rendered, "text", "");
    keep_result(&mut next.idempotency, &event.idempotency_key, text.as_str());
    event.result = text;
    let rendered = set_member(rendered, "seq", Datum::UInt(seq));
    let rendered = set_member(rendered, "lease_id", str_value(event.lease_id.as_str()));
    let rendered = set_member(
        rendered,
        "coordination_id",
        str_value(next.coordination_id.as_str()),
    );
    let rendered = set_member(rendered, "idempotent", Datum::Bool(false));
    Committed::Appended(rendered, event, next)
}

// ---------------------------------------------------------------------------
// Laws

/// The entries with another answer under one key.
spec fn reworded(s: Seq<(Seq<char>, HitView)>, k: Seq<char>, t: Seq<char>) -> Seq<
    (Seq<char>, HitView),
> {
    Seq::new(
        s.len(),
        |i: int|
            if s[i].0 == k {
                (s[i].0, HitView { seq: s[i].1.seq, result: t })
            } else {
                s[i]
            },
    )
}

proof fn lemma_reworded_oldest(s: Seq<(Seq<char>, HitView)>, k: Seq<char>, t: Seq<char>, n: nat)
    requires
        n <= s.len(),
    ensures
        oldest(reworded(s, k, t), n) == oldest(s, n),
        n > 0 ==> 0 <= oldest(s, n) < n,
    decreases n,
{
    if n > 1 {
        lemma_reworded_oldest(s, k, t, (n - 1) as nat);
    }
}

proof fn lemma_reworded_evicted(s: Seq<(Seq<char>, HitView)>, k: Seq<char>, t: Seq<char>)
    ensures
        evicted(reworded(s, k, t)) == reworded(evicted(s), k, t),
    decreases s.len(),
{
    if s.len() > MAX_IDEMPOTENCY {
        lemma_reworded_oldest(s, k, t, s.len());
        let i = oldest(s, s.len());
        assert(reworded(s, k, t).remove(i) =~= reworded(s.remove(i), k, t));
        lemma_reworded_evicted(s.remove(i), k, t);
    }
}

proof fn lemma_evicted_ascending(s: Seq<(Seq<char>, HitView)>)
    requires
        ascending(s),
    ensures
        ascending(evicted(s)),
    decreases s.len(),
{
    if s.len() > MAX_IDEMPOTENCY {
        lemma_reworded_oldest(s, ""@, ""@, s.len());
        crate::smap::lemma_ascending_remove(s, oldest(s, s.len()));
        lemma_evicted_ascending(s.remove(oldest(s, s.len())));
    }
}

proof fn lemma_ascending_tail<T>(s: Seq<(Seq<char>, T)>)
    requires
        ascending(s),
        s.len() > 0,
    ensures
        ascending(s.drop_first()),
        forall|j: int| 1 <= j < s.len() ==> crate::text::lex_lt(s[0].0, (#[trigger] s[j]).0),
{
    let t = s.drop_first();
    assert forall|i: int, j: int| 0 <= i < j < t.len() implies crate::text::lex_lt(
        (#[trigger] t[i]).0,
        (#[trigger] t[j]).0,
    ) by {
        assert(t[i] == s[i + 1]);
        assert(t[j] == s[j + 1]);
    }
}

proof fn lemma_reworded_put(
    s: Seq<(Seq<char>, HitView)>,
    k: Seq<char>,
    n: u64,
    r: Seq<char>,
    t: Seq<char>,
)
    requires
        ascending(s),
    ensures
        put(s, k, HitView { seq: n, result: t }) == reworded(
            put(s, k, HitView { seq: n, result: r }),
            k,
            t,
        ),
    decreases s.len(),
{
    let a = put(s, k, HitView { seq: n, result: t });
    let b = put(s, k, HitView { seq: n, result: r });
    if s.len() > 0 {
        lemma_ascending_tail(s);
        assert forall|j: int| 0 <= j < s.len() implies !crate::text::lex_lt(
            (#[trigger] s[j]).0,
            s[j].0,
        ) by {
            crate::text::lemma_lex_total(s[j].0, s[j].0);
        }
        if s[0].0 == k {
            assert(a =~= reworded(b, k, t));
        } else if crate::text::lex_lt(k, s[0].0) {
            assert forall|j: int| 0 <= j < s.len() implies (#[trigger] s[j]).0 != k by {
                if j > 0 {
                    crate::text::lemma_lex_trans(k, s[0].0, s[j].0);
                }
            }
            assert(a =~= reworded(b, k, t));
        } else {
            lemma_reworded_put(s.drop_first(), k, n, r, t);
            assert(a =~= reworded(b, k, t));
        }
    } else {
        assert(a =~= reworded(b, k, t));
    }
}

proof fn lemma_with_result(s: Seq<(Seq<char>, HitView)>, k: Seq<char>, t: Seq<char>)
    requires
        ascending(s),
    ensures
        with_result(s, Some(k), t) == reworded(s, k, t),
    decreases s.len(),
{
    if s.len() > 0 {
        lemma_ascending_tail(s);
        assert forall|j: int| 0 <= j < s.len() implies !crate::text::lex_lt(
            (#[trigger] s[j]).0,
            s[j].0,
        ) by {
            crate::text::lemma_lex_total(s[j].0, s[j].0);
        }
        let rest = s.drop_first();
        if s[0].0 == k {
            assert(with_result(s, Some(k), t) =~= reworded(s, k, t));
        } else {
            lemma_with_result(rest, k, t);
            if crate::text::lex_lt(k, s[0].0) {
                assert forall|j: int| 0 <= j < s.len() implies (#[trigger] s[j]).0 != k by {
                    if j > 0 {
                        crate::text::lemma_lex_trans(k, s[0].0, s[j].0);
                    }
                }
                lemma_absent(s, k);
                assert(with_result(s, Some(k), t) =~= reworded(s, k, t));
            } else {
                assert(with_result(s, Some(k), t) =~= seq![s[0]] + with_result(rest, Some(k), t));
                assert(seq![s[0]] + reworded(rest, k, t) =~= reworded(s, k, t));
            }
        }
    } else {
        assert(with_result(s, Some(k), t) =~= reworded(s, k, t));
    }
}

proof fn lemma_absent(s: Seq<(Seq<char>, HitView)>, k: Seq<char>)
    requires
        forall|j: int| 0 <= j < s.len() ==> (#[trigger] s[j]).0 != k,
    ensures
        at(s, k) is None,
    decreases s.len(),
{
    if s.len() > 0 {
        let t = s.drop_first();
        assert forall|j: int| 0 <= j < t.len() implies (#[trigger] t[j]).0 != k by {
            assert(t[j] == s[j + 1]);
        }
        lemma_absent(t, k);
    }
}

/// The event of a change comes back from the journal as it was written, and applying
/// it to the projection gives the one that is stored with it, its answer included.
pub proof fn law_stored_projection_is_replay(p: ProjectionView, prep: PreparedView, ts: u64)
    requires
        ascending(p.idempotency),
        tidy(prep.idempotency_key),
    ensures
        committed(p, prep, ts) matches CommittedView::Appended(_, e, q) ==> {
            &&& event_from(event_json(e)) == Ok::<EventView, Seq<char>>(e)
            &&& q == applied(p, e)
        },
{
    lemma_stored_is_applied(p, prep, ts);
    if let CommittedView::Appended(_, e, _) = committed(p, prep, ts) {
        law_event_comes_back(e);
    }
}

proof fn lemma_stored_is_applied(p: ProjectionView, prep: PreparedView, ts: u64)
    requires
        ascending(p.idempotency),
    ensures
        committed(p, prep, ts) matches CommittedView::Appended(_, e, q) ==> q == applied(p, e),
{
    if let CommittedView::Appended(_, e, q) = committed(p, prep, ts) {
        let e0 = event_of(p, prep, ts);
        let t = e.result;
        let start = ProjectionView {
            seq: if e0.seq > 0 {
                e0.seq
            } else {
                p.seq
            },
            updated_at: e0.ts,
            ..p
        };
        assert(dispatched(start, e) == dispatched(start, e0)) by {
            lemma_result_unused(start, e0, t);
        }
        assert(dispatched(start, e0).idempotency == p.idempotency);
        if let Some(k) = prep.idempotency_key {
            let s0 = put(p.idempotency, k, HitView { seq: e0.seq, result: ""@ });
            lemma_put_ascending(p.idempotency, k, HitView { seq: e0.seq, result: ""@ });
            lemma_evicted_ascending(s0);
            lemma_with_result(evicted(s0), k, t);
            lemma_reworded_evicted(s0, k, t);
            lemma_reworded_put(p.idempotency, k, e0.seq, ""@, t);
        }
    }
}

proof fn lemma_result_unused(p: ProjectionView, e: EventView, t: Seq<char>)
    ensures
        dispatched(p, EventView { result: t, ..e }) == dispatched(p, e),
{
    let f = EventView { result: t, ..e };
    assert(crate::izakaya::store::after_check_in(p, f) == crate::izakaya::store::after_check_in(
        p,
        e,
    ));
    assert(crate::izakaya::store::after_update(p, f) == crate::izakaya::store::after_update(p, e));
    assert(crate::izakaya::store::after_check_out(p, f) == crate::izakaya::store::after_check_out(
        p,
        e,
    ));
    assert(crate::izakaya::store::after_promote(p, f) == crate::izakaya::store::after_promote(
        p,
        e,
    ));
    assert(crate::izakaya::store::after_retire(p, f) == crate::izakaya::store::after_retire(p, e));
}

proof fn lemma_at_removed(s: Seq<(Seq<char>, HitView)>, i: int, k: Seq<char>)
    requires
        ascending(s),
        0 <= i < s.len(),
    ensures
        at(s.remove(i), k) is Some ==> at(s.remove(i), k) == at(s, k),
    decreases s.len(),
{
    let r = s.remove(i);
    lemma_ascending_tail(s);
    if i == 0 {
        assert(r =~= s.drop_first());
        if s[0].0 == k {
            assert forall|j: int| 0 <= j < r.len() implies (#[trigger] r[j]).0 != k by {
                assert(r[j] == s[j + 1]);
                crate::text::lemma_lex_total(k, k);
            }
            lemma_absent(r, k);
        }
    } else {
        assert(r[0] == s[0]);
        assert(r.drop_first() =~= s.drop_first().remove(i - 1));
        lemma_at_removed(s.drop_first(), i - 1, k);
    }
}

proof fn lemma_at_evicted(s: Seq<(Seq<char>, HitView)>, k: Seq<char>)
    requires
        ascending(s),
    ensures
        at(evicted(s), k) is Some ==> at(evicted(s), k) == at(s, k),
    decreases s.len(),
{
    if s.len() > MAX_IDEMPOTENCY {
        let i = oldest(s, s.len());
        lemma_reworded_oldest(s, ""@, ""@, s.len());
        crate::smap::lemma_ascending_remove(s, i);
        lemma_at_evicted(s.remove(i), k);
        lemma_at_removed(s, i, k);
    }
}

proof fn lemma_with_member(ms: Seq<(Seq<char>, Json)>, key: Seq<char>, v: Json, q: Seq<char>)
    ensures
        get(with_member(Json::Object(ms), key, v), q) == (if q == key {
            Some(v)
        } else {
            get(Json::Object(ms), q)
        }),
{
    crate::smap::lemma_at_put(ms, key, v, q);
    crate::json::lemma_lookup_at(ms, q);
    crate::json::lemma_lookup_at(put(ms, key, v), q);
}

proof fn lemma_completed(j: Json, e: EventView, id: Seq<char>)
    requires
        j is Object,
    ensures
        get(completed(j, e, id), "seq"@) == Some(Json::UInt(e.seq)),
        get(completed(j, e, id), "text"@) == get(j, "text"@),
{
    let j1 = with_member(j, "seq"@, Json::UInt(e.seq));
    let j2 = with_member(j1, "lease_id"@, Json::Str(e.lease_id));
    let j3 = with_member(j2, "coordination_id"@, Json::Str(id));
    reveal_strlit("seq");
    reveal_strlit("text");
    reveal_strlit("lease_id");
    reveal_strlit("coordination_id");
    reveal_strlit("idempotent");
    assert("seq"@.len() == 3 && "text"@.len() == 4 && "lease_id"@.len() == 8
        && "coordination_id"@.len() == 15 && "idempotent"@.len() == 10);
    lemma_with_member(j->Object_0, "seq"@, Json::UInt(e.seq), "seq"@);
    lemma_with_member(j->Object_0, "seq"@, Json::UInt(e.seq), "text"@);
    lemma_with_member(j1->Object_0, "lease_id"@, Json::Str(e.lease_id), "seq"@);
    lemma_with_member(j1->Object_0, "lease_id"@, Json::Str(e.lease_id), "text"@);
    lemma_with_member(j2->Object_0, "coordination_id"@, Json::Str(id), "seq"@);
    lemma_with_member(j2->Object_0, "coordination_id"@, Json::Str(id), "text"@);
    lemma_with_member(j3->Object_0, "idempotent"@, Json::Bool(false), "seq"@);
    lemma_with_member(j3->Object_0, "idempotent"@, Json::Bool(false), "text"@);
}

/// A change that is tried again under its key changes nothing: whatever else it says,
/// it is answered with the number and the text of the first answer.
pub proof fn law_repeat_changes_nothing(
    p: ProjectionView,
    prep: PreparedView,
    again: PreparedView,
    ts: u64,
    later: u64,
)
    requires
        orderly_memory(p),
        p.seq < u64::MAX,
        prep.kind != "malformed"@,
        prep.idempotency_key is Some,
        again.idempotency_key == prep.idempotency_key,
    ensures
        committed(p, prep, ts) matches CommittedView::Appended(first, e, q) ==> {
            &&& get(first, "seq"@) == Some(Json::UInt(e.seq))
            &&& text_or(first, "text"@, ""@) == e.result
            &&& committed(q, again, later) == CommittedView::Answered(repeated(e.seq, e.result))
            &&& orderly_memory(q)
        },
{
    if let CommittedView::Appended(first, e, q) = committed(p, prep, ts) {
        let e0 = event_of(p, prep, ts);
        lemma_stored_is_applied(p, prep, ts);
        law_memory_stays_orderly(p, e);
        law_oldest_answer_is_forgotten(p, e, prep.idempotency_key->Some_0);
        lemma_completed(answered(prep.answer, applied(p, e0), e0), e0, p.coordination_id);
    }
}

/// An answer that is remembered under a key stays as it is until it is forgotten,
/// whatever events come after it under other keys or none.
pub proof fn law_remembered_answer_stays(p: ProjectionView, e: EventView, k: Seq<char>)
    requires
        ascending(p.idempotency),
        e.idempotency_key != Some(k),
    ensures
        at(applied(p, e).idempotency, k) is Some ==> at(applied(p, e).idempotency, k) == at(
            p.idempotency,
            k,
        ),
{
    if e.kind != "malformed"@ {
        if let Some(other) = e.idempotency_key {
            let hit = HitView { seq: e.seq, result: e.result };
            lemma_put_ascending(p.idempotency, other, hit);
            lemma_at_evicted(put(p.idempotency, other, hit), k);
            crate::smap::lemma_at_put(p.idempotency, other, hit, k);
        }
    }
}

/// Every change gives the journal its next number.
pub proof fn law_sequence_grows(p: ProjectionView, prep: PreparedView, ts: u64)
    requires
        p.seq < u64::MAX,
        prep.kind != "malformed"@,
    ensures
        committed(p, prep, ts) matches CommittedView::Appended(_, e, q) ==> e.seq == p.seq + 1
            && q.seq == p.seq + 1,
{
}

} // verus!

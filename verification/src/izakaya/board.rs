//! The read-only board.
use vstd::prelude::*;
use crate::izakaya::commit::{finding_lines, finding_text};
use crate::izakaya::model::{
    is_stale, overlap, paths_overlap, payload_fault, reject_unsafe_payload, stale, state_named,
    AgentState, ClaimView,
};
use crate::izakaya::records::{AgentRecord, HandoffView, NoteView};
use crate::izakaya::store::{
    derived_handoff_status, event_views, handoff_status, Agent, Event, EventView, Projection,
    ProjectionView,
};
use crate::json::{
    add_member, as_str, bool_or, build, flag_or, get, get_str, json_strs, members, no_members,
    number_or, record, str_value, strs_value, u64_or, Datum, Json,
};
use crate::text::{
    among, copy, dec, decimal, is_blank, join, joined, opt_text, quote, quoted, same, strs,
    trim_end, trimmed_end,
};

verus! {

/// What the board is asked for.
pub struct Question {
    pub agent: Option<String>,
    pub state: Option<String>,
    pub path: Option<String>,
    pub since: u64,
    pub include_out: bool,
}

/// The values of a [`Question`].
pub struct QuestionView {
    pub agent: Option<Seq<char>>,
    pub state: Option<Seq<char>>,
    pub path: Option<Seq<char>>,
    pub since: u64,
    pub include_out: bool,
}

impl View for Question {
    type V = QuestionView;

    open spec fn view(&self) -> QuestionView {
        QuestionView {
            agent: opt_text(self.agent),
            state: opt_text(self.state),
            path: opt_text(self.path),
            since: self.since,
            include_out: self.include_out,
        }
    }
}

pub open spec fn question(j: Json) -> QuestionView {
    QuestionView {
        agent: match as_str(get(j, "agent"@)) {
            Some(s) => Some(s),
            None => as_str(get(j, "agent_id"@)),
        },
        state: as_str(get(j, "state"@)),
        path: as_str(get(j, "path"@)),
        since: u64_or(j, "since_seq"@, 0),
        include_out: bool_or(j, "include_checked_out"@, false) || as_str(get(j, "state"@)) == Some(
            "checked_out"@,
        ),
    }
}

fn own(s: Option<&String>) -> (r: Option<String>)
    ensures
        opt_text(r) == (match s {
            Some(t) => Some(t@),
            None => None,
        }),
{
    match s {
        Some(t) => Some(copy(t.as_str())),
        None => None,
    }
}

pub fn ask(args: &Datum) -> (r: Question)
    ensures
        r@ == question(args@),
{
    let agent = match get_str(args, "agent") {
        Some(s) => Some(copy(s.as_str())),
        None => own(get_str(args, "agent_id")),
    };
    let state = own(get_str(args, "state"));
    let out: bool = match &state {
        Some(s) => same(s.as_str(), "checked_out"),
        None => false,
    };
    Question {
        agent,
        state,
        path: own(get_str(args, "path")),
        since: number_or(args, "since_seq", 0),
        include_out: flag_or(args, "include_checked_out", false) || out,
    }
}

// ---------------------------------------------------------------------------
// Agents

/// Whether the lease of an agent has run out; an unknown state counts as present.
pub open spec fn board_stale(a: AgentRecord, now: u64) -> bool {
    match state_named(a.state) {
        Ok(s) => stale(s, a.expires_at, now),
        Err(_) => stale(AgentState::CheckedIn, a.expires_at, now),
    }
}

fn is_board_stale(a: &Agent, now: u64) -> (r: bool)
    ensures
        r == board_stale(a@, now),
{
    match AgentState::parse(a.state.as_str()) {
        Ok(s) => is_stale(s, a.expires_at, now),
        Err(_) => is_stale(AgentState::CheckedIn, a.expires_at, now),
    }
}

/// Whether an agent claims or has changed something on a path.
pub open spec fn touches(a: AgentRecord, path: Seq<char>) -> bool {
    ||| exists|i: int| 0 <= i < a.claims.len() && overlap((#[trigger] a.claims[i]).path, path)
    ||| exists|i: int|
        0 <= i < a.dirty_paths.len() && overlap(#[trigger] a.dirty_paths[i], path)
}

fn is_touching(a: &Agent, path: &str) -> (r: bool)
    ensures
        r == touches(a@, path@),
{
    for i in 0..a.claims.len()
        invariant
            forall|k: int| 0 <= k < i ==> !overlap((#[trigger] a@.claims[k]).path, path@),
    {
        assert(a@.claims[i as int] == a.claims@[i as int]@);
        if paths_overlap(a.claims[i].path.as_str(), path) {
            return true;
        }
    }
    for i in 0..a.dirty_paths.len()
        invariant
            forall|k: int| 0 <= k < i ==> !overlap(#[trigger] a@.dirty_paths[k], path@),
    {
        assert(a@.dirty_paths[i as int] == a.dirty_paths@[i as int]@);
        if paths_overlap(a.dirty_paths[i].as_str(), path) {
            return true;
        }
    }
    false
}

/// Whether the board lists an agent. Without a wanted state, those that have
/// checked out are left out, and those with an old lease unless one agent is
/// asked for.
pub open spec fn listed(a: AgentRecord, q: QuestionView, now: u64) -> bool {
    &&& q.agent matches Some(id) ==> a.agent_id == id
    &&& match q.state {
        Some(f) => if f == "stale"@ {
            board_stale(a, now)
        } else {
            a.state == f
        },
        None => !(a.state == "checked_out"@ && !q.include_out) && !(board_stale(a, now)
            && q.agent is None),
    }
    &&& q.path matches Some(path) ==> touches(a, path)
}

fn is_listed(a: &Agent, q: &Question, now: u64) -> (r: bool)
    ensures
        r == listed(a@, q@, now),
{
    let old: bool = is_board_stale(a, now);
    if let Some(id) = &q.agent {
        if !same(a.agent_id.as_str(), id.as_str()) {
            return false;
        }
    }
    match &q.state {
        Some(f) => {
            let fits: bool = if same(f.as_str(), "stale") {
                old
            } else {
                same(a.state.as_str(), f.as_str())
            };
            if !fits {
                return false;
            }
        },
        None => {
            if same(a.state.as_str(), "checked_out") && !q.include_out {
                return false;
            }
            if old && q.agent.is_none() {
                return false;
            }
        },
    }
    match &q.path {
        Some(path) => is_touching(a, path.as_str()),
        None => true,
    }
}

pub open spec fn claim_paths_of(cs: Seq<ClaimView>) -> Seq<Seq<char>> {
    cs.map_values(|c: ClaimView| c.path)
}

/// The line of an agent.
pub open spec fn agent_text(a: AgentRecord, now: u64) -> Seq<char> {
    "  - "@ + a.agent_id + " "@ + a.state + " rev "@ + dec(a.revision as nat) + " expires "@ + dec(
        a.expires_at as nat,
    ) + " task "@ + quoted(a.task) + " claims ["@ + joined(claim_paths_of(a.claims), ", "@) + "]"@
        + (if board_stale(a, now) {
        " STALE"@
    } else {
        ""@
    }) + (match a.mas_session {
        Some(s) => " mas="@ + s,
        None => ""@,
    })
}

pub fn agent_line(a: &Agent, now: u64) -> (r: String)
    ensures
        r@ == agent_text(a@, now),
{
    let mut paths: Vec<String> = Vec::new();
    for i in 0..a.claims.len()
        invariant
            paths@.len() == i,
            forall|k: int| 0 <= k < i ==> (#[trigger] paths@[k])@ == a.claims@[k]@.path,
    {
        paths.push(copy(a.claims[i].path.as_str()));
    }
    assert(strs(paths@) =~= claim_paths_of(a@.claims));
    let mut t = copy("  - ");
    t.append(a.agent_id.as_str());
    t.append(" ");
    t.append(a.state.as_str());
    t.append(" rev ");
    t.append(decimal(a.revision).as_str());
    t.append(" expires ");
    t.append(decimal(a.expires_at).as_str());
    t.append(" task ");
    t.append(quote(a.task.as_str()).as_str());
    t.append(" claims [");
    t.append(join(&paths, ", ").as_str());
    t.append("]");
    t.append(
        if is_board_stale(a, now) {
            " STALE"
        } else {
            ""
        },
    );
    let session = match &a.mas_session {
        Some(s) => {
            let mut m = copy(" mas=");
            m.append(s.as_str());
            m
        },
        None => copy(""),
    };
    t.append(session.as_str());
    t
}

/// The lines of the agents among the first `n`.
pub open spec fn agent_lines(
    agents: Seq<(Seq<char>, AgentRecord)>,
    q: QuestionView,
    now: u64,
    n: nat,
) -> Seq<Seq<char>>
    decreases n,
{
    if n == 0 {
        Seq::empty()
    } else {
        let rest = agent_lines(agents, q, now, (n - 1) as nat);
        if listed(agents[n - 1].1, q, now) {
            rest.push(agent_text(agents[n - 1].1, now))
        } else {
            rest
        }
    }
}

/// The agents of a known state whose lease has run out, among the first `n`.
pub open spec fn stale_ids(agents: Seq<(Seq<char>, AgentRecord)>, now: u64, n: nat) -> Seq<
    Seq<char>,
>
    decreases n,
{
    if n == 0 {
        Seq::empty()
    } else {
        let rest = stale_ids(agents, now, (n - 1) as nat);
        let a = agents[n - 1].1;
        match state_named(a.state) {
            Ok(s) => if stale(s, a.expires_at, now) {
                rest.push(a.agent_id)
            } else {
                rest
            },
            Err(_) => rest,
        }
    }
}

pub fn add_line(out: &mut Vec<String>, line: String)
    ensures
        strs(final(out)@) == strs(old(out)@).push(line@),
{
    let ghost before = out@;
    out.push(line);
    assert(strs(out@) =~= strs(before).push(line@));
}

fn list_agents(proj: &Projection, q: &Question, now: u64) -> (r: Vec<String>)
    ensures
        strs(r@) == agent_lines(proj@.agents, q@, now, proj@.agents.len()),
{
    let mut out = crate::text::no_strings();
    for i in 0..proj.agents.entries.len()
        invariant
            strs(out@) == agent_lines(proj@.agents, q@, now, i as nat),
    {
        let a = &proj.agents.entries[i].1;
        assert(proj@.agents[i as int].1 == a@);
        if is_listed(a, q, now) {
            add_line(&mut out, agent_line(a, now));
        }
    }
    out
}

fn list_stale(proj: &Projection, now: u64) -> (r: Vec<String>)
    ensures
        strs(r@) == stale_ids(proj@.agents, now, proj@.agents.len()),
{
    let mut out = crate::text::no_strings();
    for i in 0..proj.agents.entries.len()
        invariant
            strs(out@) == stale_ids(proj@.agents, now, i as nat),
    {
        let a = &proj.agents.entries[i].1;
        assert(proj@.agents[i as int].1 == a@);
        if let Ok(s) = AgentState::parse(a.state.as_str()) {
            if is_stale(s, a.expires_at, now) {
                add_line(&mut out, copy(a.agent_id.as_str()));
            }
        }
    }
    out
}

// ---------------------------------------------------------------------------
// Hand-offs, messages and news

pub open spec fn handoff_text(
    h: HandoffView,
    agents: Seq<(Seq<char>, AgentRecord)>,
    now: u64,
    orphan_secs: u64,
) -> Seq<char> {
    "  - "@ + h.id + " "@ + h.from + " -> "@ + h.to + " derived="@ + handoff_status(
        h,
        agents,
        now,
        orphan_secs,
    ) + " "@ + h.summary
}

pub open spec fn handoff_lines(p: ProjectionView, now: u64, orphan_secs: u64, n: nat) -> Seq<
    Seq<char>,
>
    decreases n,
{
    if n == 0 {
        Seq::empty()
    } else {
        handoff_lines(p, now, orphan_secs, (n - 1) as nat).push(
            handoff_text(p.handoffs[n - 1], p.agents, now, orphan_secs),
        )
    }
}

fn list_handoffs(proj: &Projection, now: u64, orphan_secs: u64) -> (r: Vec<String>)
    requires
        proj.wf(),
    ensures
        strs(r@) == handoff_lines(proj@, now, orphan_secs, proj@.handoffs.len()),
{
    let mut out = crate::text::no_strings();
    for i in 0..proj.handoffs.len()
        invariant
            proj.wf(),
            strs(out@) == handoff_lines(proj@, now, orphan_secs, i as nat),
    {
        let h = &proj.handoffs[i];
        assert(proj@.handoffs[i as int] == h@);
        let mut t = copy("  - ");
        t.append(h.id.as_str());
        t.append(" ");
        t.append(h.from.as_str());
        t.append(" -> ");
        t.append(h.to.as_str());
        t.append(" derived=");
        t.append(derived_handoff_status(h, &proj.agents, now, orphan_secs).as_str());
        t.append(" ");
        t.append(h.summary.as_str());
        add_line(&mut out, t);
    }
    out
}

/// Whether a message concerns an agent and is still open.
pub open spec fn pending(m: NoteView, agent: Option<Seq<char>>) -> bool {
    &&& agent matches Some(id) ==> m.to == id || m.from == id || m.to.len() == 0
    &&& !m.acked
}

pub open spec fn note_text(m: NoteView) -> Seq<char> {
    "  - #"@ + dec(m.seq as nat) + " "@ + m.from + " -> "@ + m.to + ": "@ + m.body
}

pub open spec fn note_lines(ms: Seq<NoteView>, agent: Option<Seq<char>>, n: nat) -> Seq<Seq<char>>
    decreases n,
{
    if n == 0 {
        Seq::empty()
    } else {
        let rest = note_lines(ms, agent, (n - 1) as nat);
        if pending(ms[n - 1], agent) {
            rest.push(note_text(ms[n - 1]))
        } else {
            rest
        }
    }
}

fn list_notes(proj: &Projection, agent: &Option<String>) -> (r: Vec<String>)
    ensures
        strs(r@) == note_lines(proj@.messages, opt_text(*agent), proj@.messages.len()),
{
    let mut out = crate::text::no_strings();
    for i in 0..proj.messages.len()
        invariant
            strs(out@) == note_lines(proj@.messages, opt_text(*agent), i as nat),
    {
        let m = &proj.messages[i];
        assert(proj@.messages[i as int] == m@);
        let concerns: bool = match agent {
            Some(id) => same(m.to.as_str(), id.as_str()) || same(m.from.as_str(), id.as_str())
                || is_blank(m.to.as_str()),
            None => true,
        };
        if concerns && !m.acked {
            let mut t = copy("  - #");
            t.append(decimal(m.seq).as_str());
            t.append(" ");
            t.append(m.from.as_str());
            t.append(" -> ");
            t.append(m.to.as_str());
            t.append(": ");
            t.append(m.body.as_str());
            add_line(&mut out, t);
        }
    }
    out
}

pub open spec fn event_text(e: EventView) -> Seq<char> {
    "  - seq "@ + dec(e.seq as nat) + " "@ + e.kind + " "@ + e.agent_id
}

/// The events after a sequence number.
pub open spec fn news_lines(es: Seq<EventView>, since: u64, n: nat) -> Seq<Seq<char>>
    decreases n,
{
    if n == 0 {
        Seq::empty()
    } else {
        let rest = news_lines(es, since, (n - 1) as nat);
        if es[n - 1].seq > since && es[n - 1].kind != "malformed"@ {
            rest.push(event_text(es[n - 1]))
        } else {
            rest
        }
    }
}

fn list_news(events: &Vec<Event>, since: u64) -> (r: Vec<String>)
    ensures
        strs(r@) == news_lines(event_views(events@), since, events@.len()),
{
    let mut out = crate::text::no_strings();
    for i in 0..events.len()
        invariant
            strs(out@) == news_lines(event_views(events@), since, i as nat),
    {
        let e = &events[i];
        assert(event_views(events@)[i as int] == e@);
        if e.seq > since && !same(e.kind.as_str(), "malformed") {
            let mut t = copy("  - seq ");
            t.append(decimal(e.seq).as_str());
            t.append(" ");
            t.append(e.kind.as_str());
            t.append(" ");
            t.append(e.agent_id.as_str());
            add_line(&mut out, t);
        }
    }
    out
}

// ---------------------------------------------------------------------------
// The board

/// A heading with its lines, or another line where there are none.
pub open spec fn section(
    head: Seq<char>,
    lines: Seq<Seq<char>>,
    none: Seq<char>,
) -> Seq<Seq<char>> {
    if lines.len() == 0 {
        seq![none]
    } else {
        seq![head] + lines
    }
}

fn add_all(out: &mut Vec<String>, more: Vec<String>)
    ensures
        strs(final(out)@) == strs(old(out)@) + strs(more@),
{
    let ghost before = out@;
    let ghost added = more@;
    let mut m = more;
    out.append(&mut m);
    assert(strs(out@) =~= strs(before) + strs(added));
}

fn add_section(out: &mut Vec<String>, head: &str, lines: Vec<String>, none: &str)
    ensures
        strs(final(out)@) == strs(old(out)@) + section(head@, strs(lines@), none@),
{
    let ghost before = strs(out@);
    let ghost shown = strs(lines@);
    if lines.len() == 0 {
        add_line(out, copy(none));
    } else {
        add_line(out, copy(head));
        add_all(out, lines);
    }
    assert(strs(out@) =~= before + section(head@, shown, none@));
}

/// What the board says first.
pub open spec fn opening(p: ProjectionView) -> Seq<Seq<char>> {
    let first = "izakaya_status - coordination "@ + p.coordination_id + " seq "@ + dec(p.seq as nat)
        + " (read-only)"@;
    if p.malformed > 0 {
        seq![first, "malformed_events: "@ + dec(p.malformed as nat)]
    } else {
        seq![first]
    }
}

pub open spec fn stale_line(ids: Seq<Seq<char>>) -> Seq<char> {
    "stale: "@ + (if ids.len() == 0 {
        "(none)"@
    } else {
        joined(ids, ", "@)
    })
}

pub open spec fn news(p: ProjectionView, es: Seq<EventView>, since: u64) -> Seq<Seq<char>> {
    if since > 0 {
        let lines = news_lines(es, since, es.len());
        seq!["since_seq:"@] + (if lines.len() == 0 {
            seq!["  (none)"@]
        } else {
            lines
        })
    } else {
        Seq::empty()
    }
}

pub open spec fn policy_line(p: ProjectionView) -> Seq<char> {
    "advisory_policy: "@ + (match p.active_policy {
        Some(s) => s,
        None => "(none)"@,
    })
}

/// The lines of the board.
pub open spec fn board_lines(
    p: ProjectionView,
    es: Seq<EventView>,
    q: QuestionView,
    now: u64,
    orphan_secs: u64,
) -> Seq<Seq<char>> {
    let notes = note_lines(p.messages, q.agent, p.messages.len());
    opening(p) + section(
        "agents:"@,
        agent_lines(p.agents, q, now, p.agents.len()),
        "agents: (none active)"@,
    ) + seq![stale_line(stale_ids(p.agents, now, p.agents.len()))] + seq![
        trimmed_end(finding_text(p, now)),
    ] + section(
        "handoffs:"@,
        handoff_lines(p, now, orphan_secs, p.handoffs.len()),
        "handoffs: (none)"@,
    ) + (if notes.len() == 0 {
        Seq::empty()
    } else {
        seq!["messages:"@] + notes
    }) + news(p, es, q.since) + seq![policy_line(p)]
}

/// The answer of the board.
pub open spec fn board(
    p: ProjectionView,
    es: Seq<EventView>,
    j: Json,
    now: u64,
    orphan_secs: u64,
) -> Json {
    record(
        seq![
            ("coordination_id"@, Json::Str(p.coordination_id)),
            ("read_only"@, Json::Bool(true)),
            ("seq"@, Json::UInt(p.seq)),
            ("stale"@, json_strs(stale_ids(p.agents, now, p.agents.len()))),
            (
                "text"@,
                Json::Str(joined(board_lines(p, es, question(j), now, orphan_secs), "\n"@) + "\n"@),
            ),
        ],
    )
}

fn open_board(proj: &Projection) -> (r: Vec<String>)
    ensures
        strs(r@) == opening(proj@),
{
    let mut first = copy("izakaya_status - coordination ");
    first.append(proj.coordination_id.as_str());
    first.append(" seq ");
    first.append(decimal(proj.seq).as_str());
    first.append(" (read-only)");
    let mut out = crate::text::no_strings();
    add_line(&mut out, first);
    if proj.malformed > 0 {
        let mut m = copy("malformed_events: ");
        m.append(decimal(proj.malformed).as_str());
        add_line(&mut out, m);
    }
    assert(strs(out@) =~= opening(proj@));
    out
}

fn add_news(out: &mut Vec<String>, proj: &Projection, events: &Vec<Event>, since: u64)
    ensures
        strs(final(out)@) == strs(old(out)@) + news(proj@, event_views(events@), since),
{
    let ghost before = strs(out@);
    if since > 0 {
        let lines = list_news(events, since);
        assert(event_views(events@).len() == events@.len());
        assert(strs(lines@).len() == lines@.len());
        add_line(out, copy("since_seq:"));
        if lines.len() == 0 {
            add_line(out, copy("  (none)"));
        } else {
            add_all(out, lines);
        }
    }
    assert(strs(out@) =~= before + news(proj@, event_views(events@), since));
}

pub fn render_status(
    proj: &Projection,
    events: &Vec<Event>,
    args: &Datum,
    now: u64,
    orphan_secs: u64,
) -> (r: Datum)
    requires
        proj.wf(),
    ensures
        r@ == board(proj@, event_views(events@), args@, now, orphan_secs),
{
    let q = ask(args);
    let ghost p = proj@;
    let mut lines = open_board(proj);
    add_section(&mut lines, "agents:", list_agents(proj, &q, now), "agents: (none active)");
    let ids = list_stale(proj, now);
    assert(strs(ids@).len() == ids@.len());
    let mut s = copy("stale: ");
    let named = if ids.len() == 0 {
        copy("(none)")
    } else {
        join(&ids, ", ")
    };
    s.append(named.as_str());
    let ghost l1 = strs(lines@);
    add_line(&mut lines, s);
    assert(strs(lines@) =~= l1 + seq![stale_line(stale_ids(p.agents, now, p.agents.len()))]);
    let ghost l2 = strs(lines@);
    add_line(&mut lines, trim_end(finding_lines(proj, now).as_str()));
    assert(strs(lines@) =~= l2 + seq![trimmed_end(finding_text(p, now))]);
    add_section(
        &mut lines,
        "handoffs:",
        list_handoffs(proj, now, orphan_secs),
        "handoffs: (none)",
    );
    let notes = list_notes(proj, &q.agent);
    assert(strs(notes@).len() == notes@.len());
    let ghost l3 = strs(lines@);
    let ghost shown = strs(notes@);
    if notes.len() > 0 {
        add_line(&mut lines, copy("messages:"));
        add_all(&mut lines, notes);
        assert(strs(lines@) =~= l3 + (seq!["messages:"@] + shown));
    } else {
        assert(strs(lines@) =~= l3 + Seq::<Seq<char>>::empty());
    }
    add_news(&mut lines, proj, events, q.since);
    let mut last = copy("advisory_policy: ");
    let policy = match &proj.active_policy {
        Some(s) => copy(s.as_str()),
        None => copy("(none)"),
    };
    last.append(policy.as_str());
    let ghost l4 = strs(lines@);
    add_line(&mut lines, last);
    assert(strs(lines@) =~= l4 + seq![policy_line(p)]);
    assert(strs(lines@) == board_lines(p, event_views(events@), q@, now, orphan_secs));
    let mut text = join(&lines, "\n");
    text.append("\n");
    let ghost full = text@;
    let mut ms = no_members();
    add_member(&mut ms, "coordination_id", str_value(proj.coordination_id.as_str()));
    add_member(&mut ms, "read_only", Datum::Bool(true));
    add_member(&mut ms, "seq", Datum::UInt(proj.seq));
    add_member(&mut ms, "stale", strs_value(&ids));
    add_member(&mut ms, "text", Datum::Str(text));
    assert(members(ms@) =~= seq![
        ("coordination_id"@, Json::Str(p.coordination_id)),
        ("read_only"@, Json::Bool(true)),
        ("seq"@, Json::UInt(p.seq)),
        ("stale"@, json_strs(stale_ids(p.agents, now, p.agents.len()))),
        ("text"@, Json::Str(full)),
    ]);
    build(ms)
}

/// The board, unless the question carries what must not be stored.
pub fn status(
    proj: &Projection,
    events: &Vec<Event>,
    args: &Datum,
    now: u64,
    orphan_secs: u64,
) -> (r: Result<Datum, String>)
    requires
        proj.wf(),
    ensures
        match (r, payload_fault(args@)) {
            (Ok(v), Ok(_)) => v@ == board(proj@, event_views(events@), args@, now, orphan_secs),
            (Err(a), Err(b)) => a@ == b,
            _ => false,
        },
{
    match reject_unsafe_payload(args) {
        Err(e) => Err(e),
        Ok(_) => Ok(render_status(proj, events, args, now, orphan_secs)),
    }
}

} // verus!

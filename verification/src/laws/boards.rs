//! What is put on the board, and what is advised.
use vstd::prelude::*;
use crate::izakaya::board::{
    agent_lines, agent_text, board, board_lines, board_stale, claim_paths_of, handoff_lines,
    listed, news, news_lines, note_lines, opening, pending, policy_line, question, section,
    stale_ids, stale_line, touches, QuestionView,
};
use crate::izakaya::commit::{all_seen, committed, finding_text, AnswerView, CommittedView};
use crate::izakaya::model::{
    findings, overlap, payload_fault, slug, state_named, AgentState, FindingView,
};
use crate::izakaya::policy::{
    active_record, advice_json, advised, features_of, finding_recs, handoff_recs, inert,
    list_lines, promote_change, promoted, recommendations, retire_change, retired_policy, wanted,
};
use crate::izakaya::records::{AgentRecord, HandoffView, NoteView, PolicyView};
use crate::izakaya::replay::{incumbent_doc, spec_from};
use crate::izakaya::store::{handoff_status, EventView, ProjectionView};
use crate::json::{
    as_bool, as_str, bool_or, double_at, get, json_strs, lemma_record_get, str_or, u64_or, Json,
};
use crate::text::{among, dec, joined, quoted, trimmed_end};

verus! {

// ---------------------------------------------------------------------------
// The board

/// What is asked of the board: an agent by either name, a state, a path, and from where on;
/// agents that checked out are wanted where that is said or where they are asked for.
pub proof fn law_what_the_board_is_asked_for(j: Json)
    ensures
        ({
            let q = question(j);
            &&& as_str(get(j, "agent"@)) is Some ==> q.agent == as_str(get(j, "agent"@))
            &&& as_str(get(j, "agent"@)) is None ==> q.agent == as_str(get(j, "agent_id"@))
            &&& q.state == as_str(get(j, "state"@))
            &&& q.path == as_str(get(j, "path"@))
            &&& q.since == u64_or(j, "since_seq"@, 0)
            &&& q.include_out <==> bool_or(j, "include_checked_out"@, false) || q.state == Some(
                "checked_out"@,
            )
        }),
{
}

/// When the lease of an agent on the board has run out: it has one, its time is over, and the
/// agent has not checked out.
pub proof fn law_when_a_lease_has_run_out(a: AgentRecord, now: u64)
    ensures
        board_stale(a, now) <==> a.expires_at > 0 && a.expires_at <= now && state_named(a.state)
            != Ok::<AgentState, Seq<char>>(AgentState::CheckedOut),
{
}

/// An agent that none of these leaves out is listed: another agent is asked for; another state
/// is; it claims or changed no path that overlaps the one asked for; and, where no state is
/// asked for, it checked out, or its lease has run out and nobody asked for it.
pub proof fn law_who_is_on_the_board(a: AgentRecord, q: QuestionView, now: u64)
    ensures
        ({
            let other = q.agent is Some && q.agent != Some(a.agent_id);
            let away = q.path is Some && !touches(a, q.path->Some_0);
            let stale = board_stale(a, now);
            &&& other || away ==> !listed(a, q, now)
            &&& q.state is None && a.state == "checked_out"@ && !q.include_out ==> !listed(
                a,
                q,
                now,
            )
            &&& q.state is None && stale && q.agent is None ==> !listed(a, q, now)
            &&& q.state == Some("stale"@) && !stale ==> !listed(a, q, now)
            &&& q.state == Some("stale"@) && stale && !other && !away ==> listed(a, q, now)
            &&& q.state is Some && q.state != Some("stale"@) && q.state != Some(a.state)
                ==> !listed(a, q, now)
            &&& q.state is Some && q.state != Some("stale"@) && q.state == Some(a.state) && !other
                && !away ==> listed(a, q, now)
            &&& q.state is None && !other && !away && (a.state != "checked_out"@ || q.include_out)
                && (!stale || q.agent is Some) ==> listed(a, q, now)
        }),
{
}

/// An agent touches a path by a claim or by a changed file.
pub proof fn law_what_touches_a_path(a: AgentRecord, path: Seq<char>, i: int)
    ensures
        0 <= i < a.claims.len() && overlap(a.claims[i].path, path) ==> touches(a, path),
        0 <= i < a.dirty_paths.len() && overlap(a.dirty_paths[i], path) ==> touches(a, path),
        a.claims.len() == 0 && a.dirty_paths.len() == 0 ==> !touches(a, path),
{
}

/// What is said of an agent: who it is, its state, revision, lease, task and claims, whether
/// its lease has run out, and its session.
pub proof fn law_what_is_said_of_an_agent(a: AgentRecord, now: u64)
    ensures
        ({
            let plain = "  - "@ + a.agent_id + " "@ + a.state + " rev "@ + dec(a.revision as nat)
                + " expires "@ + dec(a.expires_at as nat) + " task "@ + quoted(a.task)
                + " claims ["@ + joined(
                Seq::new(a.claims.len(), |i: int| a.claims[i].path),
                ", "@,
            ) + "]"@;
            let s = if board_stale(a, now) {
                plain + " STALE"@
            } else {
                plain
            };
            &&& a.mas_session is None ==> agent_text(a, now) == s
            &&& a.mas_session is Some ==> agent_text(a, now) == s + (" mas="@
                + a.mas_session->Some_0)
        }),
{
    reveal_strlit("");
    assert(claim_paths_of(a.claims) =~= Seq::new(a.claims.len(), |i: int| a.claims[i].path));
    let plain = "  - "@ + a.agent_id + " "@ + a.state + " rev "@ + dec(a.revision as nat)
        + " expires "@ + dec(a.expires_at as nat) + " task "@ + quoted(a.task) + " claims ["@
        + joined(claim_paths_of(a.claims), ", "@) + "]"@;
    assert(plain + ""@ =~= plain);
    assert(plain + ""@ + ""@ =~= plain);
    assert(plain + " STALE"@ + ""@ =~= plain + " STALE"@);
}

/// The board has a line for each agent that is listed, in order.
pub proof fn law_lines_of_agents(
    agents: Seq<(Seq<char>, AgentRecord)>,
    q: QuestionView,
    now: u64,
    n: nat,
)
    requires
        n <= agents.len(),
    ensures
        agent_lines(agents, q, now, n) == agents.take(n as int).filter(
            |p: (Seq<char>, AgentRecord)| listed(p.1, q, now),
        ).map_values(|p: (Seq<char>, AgentRecord)| agent_text(p.1, now)),
    decreases n,
{
    let f = |p: (Seq<char>, AgentRecord)| listed(p.1, q, now);
    let g = |p: (Seq<char>, AgentRecord)| agent_text(p.1, now);
    if n > 0 {
        let m = (n - 1) as nat;
        law_lines_of_agents(agents, q, now, m);
        let before = agents.take(m as int);
        assert(agents.take(n as int) =~= before.push(agents[n - 1]));
        before.lemma_filter_push(agents[n - 1], f);
        assert(before.filter(f).push(agents[n - 1]).map_values(g) =~= before.filter(f).map_values(
            g,
        ).push(g(agents[n - 1])));
    } else {
        reveal(Seq::filter);
        assert(agents.take(0) =~= Seq::empty());
        assert(agent_lines(agents, q, now, 0) =~= agents.take(0).filter(f).map_values(g));
    }
}

/// Those whose lease has run out are named in order, as far as their state is known.
pub proof fn law_who_is_named_stale(
    agents: Seq<(Seq<char>, AgentRecord)>,
    now: u64,
    n: nat,
)
    requires
        n <= agents.len(),
    ensures
        stale_ids(agents, now, n) == agents.take(n as int).filter(
            |p: (Seq<char>, AgentRecord)|
                state_named(p.1.state) is Ok && board_stale(p.1, now),
        ).map_values(|p: (Seq<char>, AgentRecord)| p.1.agent_id),
    decreases n,
{
    let f = |p: (Seq<char>, AgentRecord)| state_named(p.1.state) is Ok && board_stale(p.1, now);
    let g = |p: (Seq<char>, AgentRecord)| p.1.agent_id;
    if n > 0 {
        let m = (n - 1) as nat;
        law_who_is_named_stale(agents, now, m);
        let before = agents.take(m as int);
        assert(agents.take(n as int) =~= before.push(agents[n - 1]));
        before.lemma_filter_push(agents[n - 1], f);
        assert(before.filter(f).push(agents[n - 1]).map_values(g) =~= before.filter(f).map_values(
            g,
        ).push(g(agents[n - 1])));
    } else {
        reveal(Seq::filter);
        assert(agents.take(0) =~= Seq::empty());
        assert(stale_ids(agents, now, 0) =~= agents.take(0).filter(f).map_values(g));
    }
}

/// The board has a line for each handoff, with what is to be said of it now.
pub proof fn law_lines_of_handoffs(p: ProjectionView, now: u64, orphan_secs: u64, n: nat)
    requires
        n <= p.handoffs.len(),
    ensures
        handoff_lines(p, now, orphan_secs, n).len() == n,
        forall|i: int|
            0 <= i < n ==> #[trigger] handoff_lines(p, now, orphan_secs, n)[i] == "  - "@
                + p.handoffs[i].id + " "@ + p.handoffs[i].from + " -> "@ + p.handoffs[i].to
                + " derived="@ + handoff_status(p.handoffs[i], p.agents, now, orphan_secs) + " "@
                + p.handoffs[i].summary,
    decreases n,
{
    if n > 0 {
        law_lines_of_handoffs(p, now, orphan_secs, (n - 1) as nat);
    }
}

/// Which notes wait: those not read yet that are to the agent, from it, or to all; without an
/// agent, all of those.
pub proof fn law_notes_that_wait(m: NoteView, id: Seq<char>)
    ensures
        pending(m, None) <==> !m.acked,
        pending(m, Some(id)) <==> !m.acked && (m.to == id || m.from == id || m.to.len() == 0),
{
}

/// The board has a line for each note that waits, in order.
pub proof fn law_lines_of_notes(ms: Seq<NoteView>, agent: Option<Seq<char>>, n: nat)
    requires
        n <= ms.len(),
    ensures
        note_lines(ms, agent, n) == ms.take(n as int).filter(
            |m: NoteView| pending(m, agent),
        ).map_values(
            |m: NoteView|
                "  - #"@ + dec(m.seq as nat) + " "@ + m.from + " -> "@ + m.to + ": "@ + m.body,
        ),
    decreases n,
{
    let f = |m: NoteView| pending(m, agent);
    let g = |m: NoteView|
        "  - #"@ + dec(m.seq as nat) + " "@ + m.from + " -> "@ + m.to + ": "@ + m.body;
    if n > 0 {
        let k = (n - 1) as nat;
        law_lines_of_notes(ms, agent, k);
        let before = ms.take(k as int);
        assert(ms.take(n as int) =~= before.push(ms[n - 1]));
        before.lemma_filter_push(ms[n - 1], f);
        assert(before.filter(f).push(ms[n - 1]).map_values(g) =~= before.filter(f).map_values(
            g,
        ).push(g(ms[n - 1])));
    } else {
        reveal(Seq::filter);
        assert(ms.take(0) =~= Seq::empty());
        assert(note_lines(ms, agent, 0) =~= ms.take(0).filter(f).map_values(g));
    }
}

/// News are the events behind the number given, but for those that cannot be read.
pub proof fn law_lines_of_news(es: Seq<EventView>, since: u64, n: nat)
    requires
        n <= es.len(),
    ensures
        news_lines(es, since, n) == es.take(n as int).filter(
            |e: EventView| e.seq > since && e.kind != "malformed"@,
        ).map_values(
            |e: EventView| "  - seq "@ + dec(e.seq as nat) + " "@ + e.kind + " "@ + e.agent_id,
        ),
    decreases n,
{
    let f = |e: EventView| e.seq > since && e.kind != "malformed"@;
    let g = |e: EventView| "  - seq "@ + dec(e.seq as nat) + " "@ + e.kind + " "@ + e.agent_id;
    if n > 0 {
        let k = (n - 1) as nat;
        law_lines_of_news(es, since, k);
        let before = es.take(k as int);
        assert(es.take(n as int) =~= before.push(es[n - 1]));
        before.lemma_filter_push(es[n - 1], f);
        assert(before.filter(f).push(es[n - 1]).map_values(g) =~= before.filter(f).map_values(
            g,
        ).push(g(es[n - 1])));
    } else {
        reveal(Seq::filter);
        assert(es.take(0) =~= Seq::empty());
        assert(news_lines(es, since, 0) =~= es.take(0).filter(f).map_values(g));
    }
}

/// The parts of the board: its first line, what cannot be read, news where they are asked for,
/// and the policy.
pub proof fn law_parts_of_the_board(
    p: ProjectionView,
    es: Seq<EventView>,
    since: u64,
    head: Seq<char>,
    lines: Seq<Seq<char>>,
    none: Seq<char>,
)
    ensures
        opening(p)[0] == "izakaya_status - coordination "@ + p.coordination_id + " seq "@ + dec(
            p.seq as nat,
        ) + " (read-only)"@,
        p.malformed == 0 ==> opening(p).len() == 1,
        p.malformed > 0 ==> opening(p).len() == 2 && opening(p)[1] == "malformed_events: "@ + dec(
            p.malformed as nat,
        ),
        lines.len() == 0 ==> section(head, lines, none) == seq![none],
        lines.len() > 0 ==> section(head, lines, none) == seq![head] + lines,
        since == 0 ==> news(p, es, since).len() == 0,
        since > 0 && news_lines(es, since, es.len()).len() == 0 ==> news(p, es, since) == seq![
            "since_seq:"@,
            "  (none)"@,
        ],
        since > 0 && news_lines(es, since, es.len()).len() > 0 ==> news(p, es, since) == seq![
            "since_seq:"@,
        ] + news_lines(es, since, es.len()),
        p.active_policy is None ==> policy_line(p) == "advisory_policy: "@ + "(none)"@,
        p.active_policy is Some ==> policy_line(p) == "advisory_policy: "@
            + p.active_policy->Some_0,
        stale_line(lines) == "stale: "@ + (if lines.len() > 0 {
            joined(lines, ", "@)
        } else {
            "(none)"@
        }),
{
    assert(seq!["since_seq:"@] + seq!["  (none)"@] =~= seq!["since_seq:"@, "  (none)"@]);
}

/// What stands on the board, in order: agents, those whose lease has run out, findings,
/// handoffs, notes where some wait, news, and the policy.
pub proof fn law_order_of_the_board(
    p: ProjectionView,
    es: Seq<EventView>,
    q: QuestionView,
    now: u64,
    orphan_secs: u64,
)
    ensures
        ({
            let notes = note_lines(p.messages, q.agent, p.messages.len());
            let first = opening(p) + section(
                "agents:"@,
                agent_lines(p.agents, q, now, p.agents.len()),
                "agents: (none active)"@,
            ) + seq![stale_line(stale_ids(p.agents, now, p.agents.len()))] + seq![
                trimmed_end(finding_text(p, now)),
            ] + section(
                "handoffs:"@,
                handoff_lines(p, now, orphan_secs, p.handoffs.len()),
                "handoffs: (none)"@,
            );
            &&& notes.len() == 0 ==> board_lines(p, es, q, now, orphan_secs) == first + news(
                p,
                es,
                q.since,
            ) + seq![policy_line(p)]
            &&& notes.len() > 0 ==> board_lines(p, es, q, now, orphan_secs) == first + (seq![
                "messages:"@,
            ] + notes) + news(p, es, q.since) + seq![policy_line(p)]
        }),
{
    let first = opening(p) + section(
        "agents:"@,
        agent_lines(p.agents, q, now, p.agents.len()),
        "agents: (none active)"@,
    ) + seq![stale_line(stale_ids(p.agents, now, p.agents.len()))] + seq![
        trimmed_end(finding_text(p, now)),
    ] + section(
        "handoffs:"@,
        handoff_lines(p, now, orphan_secs, p.handoffs.len()),
        "handoffs: (none)"@,
    );
    assert(first + Seq::<Seq<char>>::empty() =~= first);
}

/// The board as a record: it is read-only, and says where it stands and who is stale.
pub proof fn law_the_board_as_a_record(
    p: ProjectionView,
    es: Seq<EventView>,
    j: Json,
    now: u64,
    orphan_secs: u64,
)
    ensures
        ({
            let b = board(p, es, j, now, orphan_secs);
            &&& get(b, "coordination_id"@) == Some(Json::Str(p.coordination_id))
            &&& get(b, "read_only"@) == Some(Json::Bool(true))
            &&& get(b, "seq"@) == Some(Json::UInt(p.seq))
            &&& get(b, "stale"@) == Some(json_strs(stale_ids(p.agents, now, p.agents.len())))
            &&& get(b, "text"@) == Some(
                Json::Str(joined(board_lines(p, es, question(j), now, orphan_secs), "\n"@) + "\n"@),
            )
        }),
{
    let ms = seq![
        ("coordination_id"@, Json::Str(p.coordination_id)),
        ("read_only"@, Json::Bool(true)),
        ("seq"@, Json::UInt(p.seq)),
        ("stale"@, json_strs(stale_ids(p.agents, now, p.agents.len()))),
        (
            "text"@,
            Json::Str(joined(board_lines(p, es, question(j), now, orphan_secs), "\n"@) + "\n"@),
        ),
    ];
    reveal_strlit("coordination_id");
    reveal_strlit("read_only");
    reveal_strlit("seq");
    reveal_strlit("stale");
    reveal_strlit("text");
    assert("coordination_id"@.len() == 15);
    assert("read_only"@.len() == 9);
    assert("seq"@.len() == 3);
    assert("stale"@.len() == 5);
    assert("text"@.len() == 4);
    assert(ms[0].0 == "coordination_id"@);
    assert(ms[1].0 == "read_only"@);
    assert(ms[2].0 == "seq"@);
    assert(ms[3].0 == "stale"@);
    assert(ms[4].0 == "text"@);
    lemma_record_get(ms, 0);
    lemma_record_get(ms, 1);
    lemma_record_get(ms, 2);
    lemma_record_get(ms, 3);
    lemma_record_get(ms, 4);
}

// ---------------------------------------------------------------------------
// Policies

/// What is listed of policies: the profiles, each policy that was promoted, or none, and which
/// one is active.
pub proof fn law_lines_of_policies(
    p: ProjectionView,
    ids: Seq<Seq<char>>,
    supports: Seq<Seq<char>>,
    i: int,
)
    ensures
        ({
            let ls = list_lines(p, ids, supports);
            let k = 2 + ids.len() as int;
            let n = p.policies.len();
            let active = match p.active_policy {
                Some(s) => s,
                None => "(none)"@,
            };
            &&& ls.len() == k + 2 + (if n == 0 {
                1
            } else {
                n as int
            })
            &&& ls[0] == "izakaya policy list"@
            &&& ls[1] == "profiles:"@
            &&& 0 <= i < ids.len() ==> ls[2 + i] == "  - "@ + ids[i]
            &&& ls[k] == "promoted:"@
            &&& n == 0 ==> ls[k + 1] == "  (none)"@
            &&& 0 <= i < n ==> ls[k + 1 + i] == "  - "@ + p.policies[i].id + " status="@
                + p.policies[i].status + " support="@ + supports[i] + " profile="@
                + p.policies[i].profile
            &&& ls.last() == "active: "@ + active
        }),
{
}

/// A policy is promoted if and only if it can be read and its report says that it may be;
/// otherwise the refusal names it and repeats the report.
pub proof fn law_when_policies_are_promoted(
    p: ProjectionView,
    doc: Json,
    profile: Seq<char>,
    report: Json,
    shown: Seq<char>,
    ts: u64,
)
    ensures
        ({
            let r = promoted(p, doc, profile, report, shown, ts);
            let passed = as_bool(get(report, "promotion_ok"@)) == Some(true);
            &&& spec_from(doc) is Err ==> r == Err::<CommittedView, Seq<char>>(
                spec_from(doc)->Err_0,
            )
            &&& spec_from(doc) is Ok && !passed ==> r == Err::<CommittedView, Seq<char>>(
                "refusing to promote "@ + spec_from(doc)->Ok_0.id
                    + ": holdout gates, support >= 0.70, zero out-of-support, and a non-empty holdout are required\n"@
                    + str_or(report, "text"@, ""@),
            )
            &&& spec_from(doc) is Ok && passed ==> r == Ok::<CommittedView, Seq<char>>(
                committed(
                    p,
                    promote_change(spec_from(doc)->Ok_0.id, doc, profile, report, shown),
                    ts,
                ),
            )
        }),
{
}

/// What a promotion writes: the policy, its profile and document, and what its report found.
pub proof fn law_what_a_promotion_writes(
    id: Seq<char>,
    doc: Json,
    profile: Seq<char>,
    report: Json,
    shown: Seq<char>,
)
    ensures
        ({
            let b = promote_change(id, doc, profile, report, shown).body;
            &&& get(b, "id"@) == Some(Json::Str(id))
            &&& get(b, "profile"@) == Some(Json::Str(profile))
            &&& get(b, "report_hash"@) == Some(Json::Str(str_or(report, "report_hash"@, ""@)))
            &&& get(b, "spec"@) == Some(doc)
            &&& get(b, "support"@) == Some(double_at(report, "holdout_support"@, "0.0"@))
        }),
{
    let ms = seq![
        ("id"@, Json::Str(id)),
        ("profile"@, Json::Str(profile)),
        ("report_hash"@, Json::Str(str_or(report, "report_hash"@, ""@))),
        ("spec"@, doc),
        ("support"@, double_at(report, "holdout_support"@, "0.0"@)),
    ];
    reveal_strlit("id");
    reveal_strlit("profile");
    reveal_strlit("report_hash");
    reveal_strlit("spec");
    reveal_strlit("support");
    assert("id"@.len() == 2);
    assert("profile"@.len() == 7);
    assert("report_hash"@.len() == 11);
    assert("spec"@.len() == 4);
    assert("support"@.len() == 7);
    assert("profile"@[0] == 'p');
    assert("support"@[0] == 's');
    assert(ms[0].0 == "id"@);
    assert(ms[1].0 == "profile"@);
    assert(ms[2].0 == "report_hash"@);
    assert(ms[3].0 == "spec"@);
    assert(ms[4].0 == "support"@);
    lemma_record_get(ms, 0);
    lemma_record_get(ms, 1);
    lemma_record_get(ms, 2);
    lemma_record_get(ms, 3);
    lemma_record_get(ms, 4);
}

/// A promotion and a retirement are events of their own kinds, by no agent and under no lease.
pub proof fn law_kinds_of_policy_events(
    id: Seq<char>,
    doc: Json,
    profile: Seq<char>,
    report: Json,
    shown: Seq<char>,
)
    ensures
        ({
            let c = promote_change(id, doc, profile, report, shown);
            let d = retire_change(id);
            &&& c.kind == "policy_promote"@ && d.kind == "policy_retire"@
            &&& c.agent_id == "policy"@ && d.agent_id == "policy"@
            &&& c.lease_id.len() == 0 && d.lease_id.len() == 0
            &&& c.idempotency_key is None && d.idempotency_key is None
            &&& c.answer == AnswerView::Promote(shown)
            &&& get(d.body, "id"@) == Some(Json::Str(id))
        }),
{
    reveal_strlit("");
    lemma_record_get(seq![("id"@, Json::Str(id))], 0);
}

/// A policy is retired if and only if its name is one and it is known.
pub proof fn law_when_policies_are_retired(p: ProjectionView, raw: Seq<char>, ts: u64, i: int)
    ensures
        ({
            let r = retired_policy(p, raw, ts);
            let id = slug("policy.id"@, raw);
            &&& id is Err ==> r == Err::<CommittedView, Seq<char>>(id->Err_0)
            &&& id is Ok && 0 <= i < p.policies.len() && p.policies[i].id == id->Ok_0 ==> r == Ok::<
                CommittedView,
                Seq<char>,
            >(committed(p, retire_change(id->Ok_0), ts))
            &&& id is Ok && (forall|k: int|
                0 <= k < p.policies.len() ==> (#[trigger] p.policies[k]).id != id->Ok_0) ==> r
                == Err::<CommittedView, Seq<char>>("unknown policy "@ + id->Ok_0)
        }),
{
}

/// The record of an active policy is the last one of its name that is active.
pub proof fn law_active_record_is_the_last(
    ps: Seq<PolicyView>,
    id: Seq<char>,
    n: nat,
    k: int,
)
    requires
        0 <= k < n <= ps.len(),
        forall|m: int|
            k < m < n ==> (#[trigger] ps[m]).id != id || ps[m].status != "active"@,
    ensures
        ps[k].id == id && ps[k].status == "active"@ ==> active_record(ps, id, n) == Some(ps[k]),
        (ps[k].id != id || ps[k].status != "active"@) && (forall|m: int|
            0 <= m < k ==> (#[trigger] ps[m]).id != id || ps[m].status != "active"@)
            ==> active_record(ps, id, n) is None,
    decreases n,
{
    if k < n - 1 {
        law_active_record_is_the_last(ps, id, (n - 1) as nat, k);
    } else if n > 1 {
        lemma_no_active_record(ps, id, (n - 1) as nat);
    }
}

proof fn lemma_no_active_record(ps: Seq<PolicyView>, id: Seq<char>, n: nat)
    requires
        n <= ps.len(),
    ensures
        (forall|m: int| 0 <= m < n ==> (#[trigger] ps[m]).id != id || ps[m].status != "active"@)
            ==> active_record(ps, id, n) is None,
    decreases n,
{
    if n > 0 {
        lemma_no_active_record(ps, id, (n - 1) as nat);
    }
}

/// Which findings are worth advice: overlaps and drift where work apart is preferred, and
/// leases that have run out in any case.
pub proof fn law_findings_worth_advice(prefers: Seq<Seq<char>>)
    ensures
        ({
            let apart = among(prefers, "non_overlapping"@);
            &&& wanted("path_overlap"@, prefers) <==> apart
            &&& wanted("symbol_overlap"@, prefers) <==> apart
            &&& wanted("drift"@, prefers) <==> apart
            &&& wanted("stale"@, prefers)
            &&& !wanted("base_divergence"@, prefers)
        }),
{
    reveal_strlit("path_overlap");
    reveal_strlit("symbol_overlap");
    reveal_strlit("drift");
    reveal_strlit("stale");
    reveal_strlit("base_divergence");
    assert("path_overlap"@.len() == 12);
    assert("symbol_overlap"@.len() == 14);
    assert("drift"@.len() == 5);
    assert("stale"@.len() == 5);
    assert("base_divergence"@.len() == 15);
    assert("drift"@[0] == 'd');
    assert("stale"@[0] == 's');
}

/// There is one piece of advice for each finding that is worth it, in order.
pub proof fn law_advice_on_findings(
    fs: Seq<FindingView>,
    prefers: Seq<Seq<char>>,
    confidence: Seq<char>,
    n: nat,
)
    requires
        n <= fs.len(),
    ensures
        finding_recs(fs, prefers, confidence, n) == fs.take(n as int).filter(
            |f: FindingView| wanted(f.kind, prefers),
        ).map_values(
            |f: FindingView| "advisory: "@ + f.detail + " (confidence "@ + confidence + ")"@,
        ),
    decreases n,
{
    let p = |f: FindingView| wanted(f.kind, prefers);
    let g = |f: FindingView| "advisory: "@ + f.detail + " (confidence "@ + confidence + ")"@;
    if n > 0 {
        let k = (n - 1) as nat;
        law_advice_on_findings(fs, prefers, confidence, k);
        let before = fs.take(k as int);
        assert(fs.take(n as int) =~= before.push(fs[n - 1]));
        before.lemma_filter_push(fs[n - 1], p);
        assert(before.filter(p).push(fs[n - 1]).map_values(g) =~= before.filter(p).map_values(
            g,
        ).push(g(fs[n - 1])));
    } else {
        reveal(Seq::filter);
        assert(fs.take(0) =~= Seq::empty());
        assert(finding_recs(fs, prefers, confidence, 0) =~= fs.take(0).filter(p).map_values(g));
    }
}

/// There is one piece of advice for each handoff that is still offered, where handoffs are
/// preferred or nothing is; otherwise there is none.
pub proof fn law_advice_on_handoffs(
    p: ProjectionView,
    prefers: Seq<Seq<char>>,
    now: u64,
    orphan_secs: u64,
    n: nat,
)
    requires
        n <= p.handoffs.len(),
    ensures
        among(prefers, "handoff"@) || prefers.len() == 0 ==> handoff_recs(
            p,
            prefers,
            now,
            orphan_secs,
            n,
        ) == p.handoffs.take(n as int).filter(
            |h: HandoffView| handoff_status(h, p.agents, now, orphan_secs) == "offered"@,
        ).map_values(
            |h: HandoffView|
                "advisory: handoff "@ + h.id + " from "@ + h.from + " to "@ + h.to
                    + " is unclaimed — accept only by checking in"@,
        ),
        !(among(prefers, "handoff"@) || prefers.len() == 0) ==> handoff_recs(
            p,
            prefers,
            now,
            orphan_secs,
            n,
        ).len() == 0,
    decreases n,
{
    let f = |h: HandoffView| handoff_status(h, p.agents, now, orphan_secs) == "offered"@;
    let g = |h: HandoffView|
        "advisory: handoff "@ + h.id + " from "@ + h.from + " to "@ + h.to
            + " is unclaimed — accept only by checking in"@;
    let hs = p.handoffs;
    if n > 0 {
        let k = (n - 1) as nat;
        law_advice_on_handoffs(p, prefers, now, orphan_secs, k);
        let before = hs.take(k as int);
        assert(hs.take(n as int) =~= before.push(hs[n - 1]));
        before.lemma_filter_push(hs[n - 1], f);
        assert(before.filter(f).push(hs[n - 1]).map_values(g) =~= before.filter(f).map_values(
            g,
        ).push(g(hs[n - 1])));
    } else {
        reveal(Seq::filter);
        assert(hs.take(0) =~= Seq::empty());
        assert(handoff_recs(p, prefers, now, orphan_secs, 0) =~= hs.take(0).filter(f).map_values(
            g,
        ));
    }
}

/// Advice is on findings first and on handoffs behind them, or says that no change is
/// recommended, and ends by saying that it only reads.
pub proof fn law_all_advice(
    p: ProjectionView,
    prefers: Seq<Seq<char>>,
    confidence: Seq<char>,
    now: u64,
    orphan_secs: u64,
)
    ensures
        ({
            let fs = findings(all_seen(p), now);
            let a = finding_recs(fs, prefers, confidence, fs.len());
            let b = handoff_recs(p, prefers, now, orphan_secs, p.handoffs.len());
            let r = recommendations(p, prefers, confidence, now, orphan_secs);
            &&& r.last()
                == "authority: read-only; this call does not check in, suspend, check out, or run git"@
            &&& a.len() + b.len() > 0 ==> r.drop_last() == a + b
            &&& a.len() + b.len() == 0 ==> r.drop_last() == seq![
                "advisory: no change recommended"@,
            ]
        }),
{
    let fs = findings(all_seen(p), now);
    let a = finding_recs(fs, prefers, confidence, fs.len());
    let b = handoff_recs(p, prefers, now, orphan_secs, p.handoffs.len());
    let r = recommendations(p, prefers, confidence, now, orphan_secs);
    if a.len() + b.len() > 0 {
        assert(r.drop_last() =~= a + b);
    } else {
        assert(r.drop_last() =~= seq!["advisory: no change recommended"@]);
    }
}

/// Advice as a record: whose policy it follows, what it says, and that it changes nothing.
pub proof fn law_advice_as_a_record(
    p: ProjectionView,
    r: PolicyView,
    recs: Seq<Seq<char>>,
)
    ensures
        ({
            let b = advice_json(p, r, recs);
            &&& get(b, "policy_id"@) == Some(Json::Str(r.id))
            &&& get(b, "recommendations"@) == Some(json_strs(recs))
            &&& get(b, "seq"@) == Some(Json::UInt(p.seq))
            &&& get(b, "side_effects"@) == Some(Json::Bool(false))
            &&& get(b, "support"@) == Some(r.support)
            &&& get(b, "text"@) == Some(
                Json::Str("izakaya_advise - policy "@ + r.id + "\n"@ + joined(recs, "\n"@) + "\n"@),
            )
        }),
{
    let ms = seq![
        ("policy_id"@, Json::Str(r.id)),
        ("recommendations"@, json_strs(recs)),
        ("seq"@, Json::UInt(p.seq)),
        ("side_effects"@, Json::Bool(false)),
        ("support"@, r.support),
        (
            "text"@,
            Json::Str("izakaya_advise - policy "@ + r.id + "\n"@ + joined(recs, "\n"@) + "\n"@),
        ),
    ];
    reveal_strlit("policy_id");
    reveal_strlit("recommendations");
    reveal_strlit("seq");
    reveal_strlit("side_effects");
    reveal_strlit("support");
    reveal_strlit("text");
    assert("policy_id"@.len() == 9);
    assert("recommendations"@.len() == 15);
    assert("seq"@.len() == 3);
    assert("side_effects"@.len() == 12);
    assert("support"@.len() == 7);
    assert("text"@.len() == 4);
    assert(ms[0].0 == "policy_id"@);
    assert(ms[1].0 == "recommendations"@);
    assert(ms[2].0 == "seq"@);
    assert(ms[3].0 == "side_effects"@);
    assert(ms[4].0 == "support"@);
    assert(ms[5].0 == "text"@);
    lemma_record_get(ms, 0);
    lemma_record_get(ms, 1);
    lemma_record_get(ms, 2);
    lemma_record_get(ms, 3);
    lemma_record_get(ms, 4);
    lemma_record_get(ms, 5);
}

/// Advice without a policy recommends nothing and changes nothing.
pub proof fn law_inert_advice(
    text: Seq<char>,
)
    ensures
        ({
            let b = inert(text);
            &&& get(b, "recommendations"@) == Some(Json::Array(Seq::empty()))
            &&& get(b, "side_effects"@) == Some(Json::Bool(false))
            &&& get(b, "text"@) == Some(Json::Str(text))
        }),
{
    let ms = seq![
        ("recommendations"@, Json::Array(Seq::empty())),
        ("side_effects"@, Json::Bool(false)),
        ("text"@, Json::Str(text)),
    ];
    reveal_strlit("recommendations");
    reveal_strlit("side_effects");
    reveal_strlit("text");
    assert("recommendations"@.len() == 15);
    assert("side_effects"@.len() == 12);
    assert("text"@.len() == 4);
    assert(ms[0].0 == "recommendations"@);
    assert(ms[1].0 == "side_effects"@);
    assert(ms[2].0 == "text"@);
    lemma_record_get(ms, 0);
    lemma_record_get(ms, 1);
    lemma_record_get(ms, 2);
}

/// When there is advice: a request with a fault is refused; without an active policy, or
/// without its record, it is inert; otherwise it follows what the policy prefers, or what the
/// incumbent does where the policy cannot be read.
pub proof fn law_when_there_is_advice(
    p: ProjectionView,
    j: Json,
    now: u64,
    orphan_secs: u64,
    confidence: Seq<char>,
)
    ensures
        ({
            let r = advised(p, j, now, orphan_secs, confidence);
            let rec = active_record(p.policies, p.active_policy->Some_0, p.policies.len());
            let fine = payload_fault(j) is Ok;
            &&& !fine ==> r == Err::<Json, Seq<char>>(payload_fault(j)->Err_0)
            &&& fine && p.active_policy is None ==> r == Ok::<Json, Seq<char>>(
                inert(
                    "izakaya_advise - no promoted advisory policy; recommendations are inert\n"@,
                ),
            )
            &&& fine && p.active_policy is Some && rec is None ==> r == Ok::<Json, Seq<char>>(
                inert(
                    "izakaya_advise - active policy record missing; recommendations are inert\n"@,
                ),
            )
            &&& fine && p.active_policy is Some && rec is Some && spec_from(incumbent_doc()) is Ok
                ==> r == Ok::<Json, Seq<char>>(
                advice_json(
                    p,
                    rec->Some_0,
                    recommendations(
                        p,
                        if spec_from(rec->Some_0.spec_doc) is Ok {
                            features_of(spec_from(rec->Some_0.spec_doc)->Ok_0)
                        } else {
                            features_of(spec_from(incumbent_doc())->Ok_0)
                        },
                        confidence,
                        now,
                        orphan_secs,
                    ),
                ),
            )
        }),
{
}

} // verus!

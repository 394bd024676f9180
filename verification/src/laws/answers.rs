//! What calls are answered, what runs measure, and what a working tree shows.
use vstd::prelude::*;
use crate::izakaya::commit::{
    all_seen, answered, check_in_text, check_out_text, committed, completed, event_of,
    finding_block, finding_text, last_offer, note_line, offer_id, repeated, seen_of, shown_option,
    update_text, with_result, AnswerView, CommittedView, PreparedView,
};
use crate::izakaya::model::{bounded, findings, state_named, FindingView};
use crate::izakaya::presence::{
    by_duration, by_status, numbers_in, outcome_metrics, put_new, with_runs,
};
use crate::izakaya::profiles::{adapted, AdapterView, RunView};
use crate::izakaya::records::{AgentRecord, HandoffView, HitView};
use crate::izakaya::store::{
    after_last, chosen, dirty_of, entry_path, folded, group_key, mended, miscounted,
    projection_from, zero_split, EventView, ProjectionView,
};
use crate::json::{
    double_json, get, is_number, json_opt_str, lemma_record_get, put_all, str_or, Json,
};
use crate::laws::texts::{flat, lemma_flat_push};
use crate::smap::{at, lemma_at_put};
use crate::text::{dec, joined, lowercase, nonempty, quoted, replaced, trimmed};

verus! {

// ---------------------------------------------------------------------------
// Findings

/// What is looked at are the agents whose state is known, as they stand on the board.
pub proof fn law_agents_that_are_looked_at(kv: (Seq<char>, AgentRecord))
    ensures
        seen_of()(kv) is Some <==> state_named(kv.1.state) is Ok,
        seen_of()(kv) matches Some(s) ==> s.agent_id == kv.1.agent_id && state_named(kv.1.state)
            == Ok::<crate::izakaya::model::AgentState, Seq<char>>(s.state) && s.expires_at
            == kv.1.expires_at && s.base_oid == kv.1.base_oid && s.claims == kv.1.claims
            && s.dirty_paths == kv.1.dirty_paths,
{
}

/// The line of a finding.
pub open spec fn line_of(f: FindingView) -> Seq<char> {
    if f.stale {
        "  - "@ + f.kind + " "@ + f.detail + " [stale]"@ + "\n"@
    } else {
        "  - "@ + f.kind + " "@ + f.detail + "\n"@
    }
}

proof fn lemma_finding_block(fs: Seq<FindingView>)
    ensures
        finding_block(fs) == "advisory:\n"@ + flat(
            Seq::new(fs.len(), |i: int| line_of(fs[i])),
        ),
    decreases fs.len(),
{
    reveal_strlit("");
    let rows = Seq::new(fs.len(), |i: int| line_of(fs[i]));
    if fs.len() > 0 {
        let before = fs.drop_last();
        lemma_finding_block(before);
        let rest = Seq::new(before.len(), |i: int| line_of(before[i]));
        lemma_flat_push(rest, line_of(fs.last()));
        assert(rows =~= rest.push(line_of(fs.last())));
        let f = fs.last();
        let d = "  - "@ + f.kind + " "@ + f.detail;
        assert(d + ""@ =~= d);
        assert("advisory:\n"@ + flat(rest) + line_of(f) =~= "advisory:\n"@ + (flat(rest)
            + line_of(f)));
    } else {
        assert(rows =~= Seq::<Seq<char>>::empty());
        assert("advisory:\n"@ + flat(rows) =~= "advisory:\n"@);
    }
}

/// Findings are told one to a line, in order, with those of leases that have run out marked;
/// without any, that is said.
pub proof fn law_findings_are_told(p: ProjectionView, now: u64)
    ensures
        ({
            let fs = findings(all_seen(p), now);
            &&& fs.len() == 0 ==> finding_text(p, now) == "advisory: (no overlaps)\n"@
            &&& fs.len() > 0 ==> finding_text(p, now) == "advisory:\n"@ + flat(
                Seq::new(fs.len(), |i: int| line_of(fs[i])),
            )
        }),
{
    lemma_finding_block(findings(all_seen(p), now));
}

// ---------------------------------------------------------------------------
// Answers

/// The note on a session, on a line of its own where there is one.
pub proof fn law_note_on_a_session(body: Json, n: Seq<char>)
    ensures
        get(body, "mas_note"@) == Some(Json::Str(n)) && n.len() > 0 ==> note_line(body) == n
            + "\n"@,
        get(body, "mas_note"@) == Some(Json::Str(n)) && n.len() == 0 ==> note_line(body).len() == 0,
        get(body, "mas_note"@) is None ==> note_line(body).len() == 0,
{
    reveal_strlit("");
}

/// What is said to who checks in, and to who goes on: its state, lease and revision, until
/// when, and the findings.
pub proof fn law_texts_to_agents(p: ProjectionView, e: EventView, a: AgentRecord)
    ensures
        check_in_text(p, e, a) == "izakaya_check_in - agent "@ + a.agent_id + "\nstate: "@ + a.state
            + "\nlease_id: "@ + a.lease_id + "\nrevision: "@ + dec(a.revision as nat) + "\nseq: "@
            + dec(e.seq as nat) + "\nexpires_at: "@ + dec(a.expires_at as nat) + "\n"@ + note_line(
            e.body,
        ) + finding_text(p, e.ts),
        update_text(p, e, a) == "izakaya_update - agent "@ + a.agent_id + "\nstate: "@ + a.state
            + "\nlease_id: "@ + a.lease_id + "\nrevision: "@ + dec(a.revision as nat)
            + "\nexpires_at: "@ + dec(a.expires_at as nat) + "\n"@ + finding_text(p, e.ts),
{
}

/// The offer of an agent is its last one.
pub proof fn law_last_offer_of_an_agent(
    hs: Seq<HandoffView>,
    from: Seq<char>,
    n: nat,
    k: int,
)
    requires
        -1 <= k < n <= hs.len(),
        k >= 0 ==> hs[k].from == from,
        forall|i: int| k < i < n ==> (#[trigger] hs[i]).from != from,
    ensures
        k >= 0 ==> last_offer(hs, from, n) == Some(hs[k]),
        k < 0 ==> last_offer(hs, from, n) is None,
    decreases n,
{
    if n > 0 && k < n - 1 {
        if n > 1 {
            law_last_offer_of_an_agent(hs, from, (n - 1) as nat, k);
        }
    }
}

/// What is said to who checks out: why, that its claims are released, what it handed over to
/// whom, and that no session was closed.
pub proof fn law_text_to_who_leaves(p: ProjectionView, e: EventView)
    ensures
        ({
            let start = "izakaya_check_out - agent "@ + e.agent_id
                + "\nstate: checked_out\nreason: "@ + str_or(e.body, "reason"@, "completed"@)
                + "\nclaims: released\n"@ + note_line(e.body);
            let end = "Izakaya did not finalize any MAS session.\n"@;
            let o = last_offer(p.handoffs, e.agent_id, p.handoffs.len());
            &&& o is None ==> check_out_text(p, e) == start + end
            &&& o matches Some(h) ==> check_out_text(p, e) == start + ("handoff_id: "@ + h.id
                + " to "@ + h.to + "\n"@) + end
            &&& o is None ==> offer_id(p, e.agent_id) == Json::Null
            &&& o matches Some(h) ==> offer_id(p, e.agent_id) == Json::Str(h.id)
        }),
{
    reveal_strlit("");
    let start = "izakaya_check_out - agent "@ + e.agent_id + "\nstate: checked_out\nreason: "@
        + str_or(e.body, "reason"@, "completed"@) + "\nclaims: released\n"@ + note_line(e.body);
    assert(start + ""@ =~= start);
}

/// The answer to a check-in: the lease, its revision and until when it is held.
pub proof fn law_answer_to_a_check_in(
    p: ProjectionView,
    e: EventView,
)
    ensures
        ({
            let b = answered(AnswerView::CheckIn, p, e);
            &&& get(b, "advisory"@) == Some(Json::Bool(true))
            &&& get(b, "agent_id"@) == Some(Json::Str((at(p.agents, e.agent_id)->Some_0).agent_id))
            &&& get(b, "expires_at"@) == Some(Json::UInt((at(p.agents, e.agent_id)->Some_0).expires_at))
            &&& get(b, "lease_id"@) == Some(Json::Str((at(p.agents, e.agent_id)->Some_0).lease_id))
            &&& get(b, "revision"@) == Some(Json::UInt((at(p.agents, e.agent_id)->Some_0).revision))
            &&& get(b, "seq"@) == Some(Json::UInt(e.seq))
            &&& get(b, "state"@) == Some(Json::Str((at(p.agents, e.agent_id)->Some_0).state))
            &&& get(b, "text"@) == Some(Json::Str(check_in_text(p, e, at(p.agents, e.agent_id)->Some_0)))
        }),
{
    let ms = seq![
        ("advisory"@, Json::Bool(true)),
        ("agent_id"@, Json::Str((at(p.agents, e.agent_id)->Some_0).agent_id)),
        ("expires_at"@, Json::UInt((at(p.agents, e.agent_id)->Some_0).expires_at)),
        ("lease_id"@, Json::Str((at(p.agents, e.agent_id)->Some_0).lease_id)),
        ("revision"@, Json::UInt((at(p.agents, e.agent_id)->Some_0).revision)),
        ("seq"@, Json::UInt(e.seq)),
        ("state"@, Json::Str((at(p.agents, e.agent_id)->Some_0).state)),
        ("text"@, Json::Str(check_in_text(p, e, at(p.agents, e.agent_id)->Some_0))),
    ];
    reveal_strlit("advisory");
    reveal_strlit("agent_id");
    reveal_strlit("expires_at");
    reveal_strlit("lease_id");
    reveal_strlit("revision");
    reveal_strlit("seq");
    reveal_strlit("state");
    reveal_strlit("text");
    assert("advisory"@.len() == 8);
    assert("agent_id"@.len() == 8);
    assert("expires_at"@.len() == 10);
    assert("lease_id"@.len() == 8);
    assert("revision"@.len() == 8);
    assert("seq"@.len() == 3);
    assert("state"@.len() == 5);
    assert("text"@.len() == 4);
    assert("advisory"@[0] == 'a');
    assert("advisory"@[1] == 'd');
    assert("agent_id"@[0] == 'a');
    assert("agent_id"@[1] == 'g');
    assert("lease_id"@[0] == 'l');
    assert("revision"@[0] == 'r');
    assert(ms[0].0 == "advisory"@);
    assert(ms[1].0 == "agent_id"@);
    assert(ms[2].0 == "expires_at"@);
    assert(ms[3].0 == "lease_id"@);
    assert(ms[4].0 == "revision"@);
    assert(ms[5].0 == "seq"@);
    assert(ms[6].0 == "state"@);
    assert(ms[7].0 == "text"@);
    lemma_record_get(ms, 0);
    lemma_record_get(ms, 1);
    lemma_record_get(ms, 2);
    lemma_record_get(ms, 3);
    lemma_record_get(ms, 4);
    lemma_record_get(ms, 5);
    lemma_record_get(ms, 6);
    lemma_record_get(ms, 7);
}

/// The answer to an update: where the agent stands now.
pub proof fn law_answer_to_an_update(
    p: ProjectionView,
    e: EventView,
)
    ensures
        ({
            let b = answered(AnswerView::Update, p, e);
            &&& get(b, "agent_id"@) == Some(Json::Str((at(p.agents, e.agent_id)->Some_0).agent_id))
            &&& get(b, "expires_at"@) == Some(Json::UInt((at(p.agents, e.agent_id)->Some_0).expires_at))
            &&& get(b, "revision"@) == Some(Json::UInt((at(p.agents, e.agent_id)->Some_0).revision))
            &&& get(b, "state"@) == Some(Json::Str((at(p.agents, e.agent_id)->Some_0).state))
            &&& get(b, "text"@) == Some(Json::Str(update_text(p, e, at(p.agents, e.agent_id)->Some_0)))
        }),
{
    let ms = seq![
        ("agent_id"@, Json::Str((at(p.agents, e.agent_id)->Some_0).agent_id)),
        ("expires_at"@, Json::UInt((at(p.agents, e.agent_id)->Some_0).expires_at)),
        ("revision"@, Json::UInt((at(p.agents, e.agent_id)->Some_0).revision)),
        ("state"@, Json::Str((at(p.agents, e.agent_id)->Some_0).state)),
        ("text"@, Json::Str(update_text(p, e, at(p.agents, e.agent_id)->Some_0))),
    ];
    reveal_strlit("agent_id");
    reveal_strlit("expires_at");
    reveal_strlit("revision");
    reveal_strlit("state");
    reveal_strlit("text");
    assert("agent_id"@.len() == 8);
    assert("expires_at"@.len() == 10);
    assert("revision"@.len() == 8);
    assert("state"@.len() == 5);
    assert("text"@.len() == 4);
    assert("agent_id"@[0] == 'a');
    assert("revision"@[0] == 'r');
    assert(ms[0].0 == "agent_id"@);
    assert(ms[1].0 == "expires_at"@);
    assert(ms[2].0 == "revision"@);
    assert(ms[3].0 == "state"@);
    assert(ms[4].0 == "text"@);
    lemma_record_get(ms, 0);
    lemma_record_get(ms, 1);
    lemma_record_get(ms, 2);
    lemma_record_get(ms, 3);
    lemma_record_get(ms, 4);
}

/// The answer to a check-out: why, and what was handed over.
pub proof fn law_answer_to_a_check_out(
    p: ProjectionView,
    e: EventView,
)
    ensures
        ({
            let b = answered(AnswerView::CheckOut, p, e);
            &&& get(b, "agent_id"@) == Some(Json::Str(e.agent_id))
            &&& get(b, "handoff_id"@) == Some(offer_id(p, e.agent_id))
            &&& get(b, "reason"@) == Some(Json::Str(str_or(e.body, "reason"@, "completed"@)))
            &&& get(b, "state"@) == Some(Json::Str("checked_out"@))
            &&& get(b, "text"@) == Some(Json::Str(check_out_text(p, e)))
        }),
{
    let ms = seq![
        ("agent_id"@, Json::Str(e.agent_id)),
        ("handoff_id"@, offer_id(p, e.agent_id)),
        ("reason"@, Json::Str(str_or(e.body, "reason"@, "completed"@))),
        ("state"@, Json::Str("checked_out"@)),
        ("text"@, Json::Str(check_out_text(p, e))),
    ];
    reveal_strlit("agent_id");
    reveal_strlit("handoff_id");
    reveal_strlit("reason");
    reveal_strlit("state");
    reveal_strlit("text");
    assert("agent_id"@.len() == 8);
    assert("handoff_id"@.len() == 10);
    assert("reason"@.len() == 6);
    assert("state"@.len() == 5);
    assert("text"@.len() == 4);
    assert(ms[0].0 == "agent_id"@);
    assert(ms[1].0 == "handoff_id"@);
    assert(ms[2].0 == "reason"@);
    assert(ms[3].0 == "state"@);
    assert(ms[4].0 == "text"@);
    lemma_record_get(ms, 0);
    lemma_record_get(ms, 1);
    lemma_record_get(ms, 2);
    lemma_record_get(ms, 3);
    lemma_record_get(ms, 4);
}

/// The answer to a decision: its name and number.
pub proof fn law_answer_to_a_decision(
    p: ProjectionView,
    e: EventView,
)
    ensures
        ({
            let b = answered(AnswerView::Decision, p, e);
            &&& get(b, "decision_id"@) == Some(Json::Str(str_or(e.body, "decision_id"@, ""@)))
            &&& get(b, "seq"@) == Some(Json::UInt(e.seq))
            &&& get(b, "text"@) == Some(Json::Str("izakaya_record_decision - agent "@ + e.agent_id + " decision "@ + str_or(e.body, "decision_id"@, ""@) + " seq "@ + dec(e.seq as nat) + "\n"@))
        }),
{
    let ms = seq![
        ("decision_id"@, Json::Str(str_or(e.body, "decision_id"@, ""@))),
        ("seq"@, Json::UInt(e.seq)),
        ("text"@, Json::Str("izakaya_record_decision - agent "@ + e.agent_id + " decision "@ + str_or(e.body, "decision_id"@, ""@) + " seq "@ + dec(e.seq as nat) + "\n"@)),
    ];
    reveal_strlit("decision_id");
    reveal_strlit("seq");
    reveal_strlit("text");
    assert("decision_id"@.len() == 11);
    assert("seq"@.len() == 3);
    assert("text"@.len() == 4);
    assert(ms[0].0 == "decision_id"@);
    assert(ms[1].0 == "seq"@);
    assert(ms[2].0 == "text"@);
    lemma_record_get(ms, 0);
    lemma_record_get(ms, 1);
    lemma_record_get(ms, 2);
}

/// The answer to an outcome: of which action of which decision.
pub proof fn law_answer_to_an_outcome(
    p: ProjectionView,
    e: EventView,
)
    ensures
        ({
            let b = answered(AnswerView::Outcome, p, e);
            &&& get(b, "action"@) == Some(Json::Str(str_or(e.body, "action"@, ""@)))
            &&& get(b, "decision_id"@) == Some(Json::Str(str_or(e.body, "decision_id"@, ""@)))
            &&& get(b, "text"@) == Some(Json::Str("izakaya_record_outcome - decision "@ + str_or(e.body, "decision_id"@, ""@) + " action "@ + str_or(e.body, "action"@, ""@) + "\n"@))
        }),
{
    let ms = seq![
        ("action"@, Json::Str(str_or(e.body, "action"@, ""@))),
        ("decision_id"@, Json::Str(str_or(e.body, "decision_id"@, ""@))),
        ("text"@, Json::Str("izakaya_record_outcome - decision "@ + str_or(e.body, "decision_id"@, ""@) + " action "@ + str_or(e.body, "action"@, ""@) + "\n"@)),
    ];
    reveal_strlit("action");
    reveal_strlit("decision_id");
    reveal_strlit("text");
    assert("action"@.len() == 6);
    assert("decision_id"@.len() == 11);
    assert("text"@.len() == 4);
    assert(ms[0].0 == "action"@);
    assert(ms[1].0 == "decision_id"@);
    assert(ms[2].0 == "text"@);
    lemma_record_get(ms, 0);
    lemma_record_get(ms, 1);
    lemma_record_get(ms, 2);
}

/// The answer to a promotion: which policy is active, and with what support.
pub proof fn law_answer_to_a_promotion(
    p: ProjectionView,
    e: EventView,
    support: Seq<char>,
)
    ensures
        ({
            let b = answered(AnswerView::Promote(support), p, e);
            &&& get(b, "active_policy"@) == Some(json_opt_str(p.active_policy))
            &&& get(b, "policy_id"@) == Some(Json::Str(str_or(e.body, "id"@, ""@)))
            &&& get(b, "text"@) == Some(Json::Str("izakaya policy promote - "@ + str_or(e.body, "id"@, ""@) + " active\nsupport: "@ + support + "\nThis does not assign work or change agent leases.\n"@))
        }),
{
    let ms = seq![
        ("active_policy"@, json_opt_str(p.active_policy)),
        ("policy_id"@, Json::Str(str_or(e.body, "id"@, ""@))),
        ("text"@, Json::Str("izakaya policy promote - "@ + str_or(e.body, "id"@, ""@) + " active\nsupport: "@ + support + "\nThis does not assign work or change agent leases.\n"@)),
    ];
    reveal_strlit("active_policy");
    reveal_strlit("policy_id");
    reveal_strlit("text");
    assert("active_policy"@.len() == 13);
    assert("policy_id"@.len() == 9);
    assert("text"@.len() == 4);
    assert(ms[0].0 == "active_policy"@);
    assert(ms[1].0 == "policy_id"@);
    assert(ms[2].0 == "text"@);
    lemma_record_get(ms, 0);
    lemma_record_get(ms, 1);
    lemma_record_get(ms, 2);
}

/// The answer to a retirement: which policy is still active.
pub proof fn law_answer_to_a_retirement(
    p: ProjectionView,
    e: EventView,
)
    ensures
        ({
            let b = answered(AnswerView::Retire, p, e);
            &&& get(b, "active_policy"@) == Some(json_opt_str(p.active_policy))
            &&& get(b, "policy_id"@) == Some(Json::Str(str_or(e.body, "id"@, ""@)))
            &&& get(b, "text"@) == Some(Json::Str("izakaya policy retire - "@ + str_or(e.body, "id"@, ""@) + "\nactive: "@ + shown_option(p.active_policy) + "\n"@))
        }),
{
    let ms = seq![
        ("active_policy"@, json_opt_str(p.active_policy)),
        ("policy_id"@, Json::Str(str_or(e.body, "id"@, ""@))),
        ("text"@, Json::Str("izakaya policy retire - "@ + str_or(e.body, "id"@, ""@) + "\nactive: "@ + shown_option(p.active_policy) + "\n"@)),
    ];
    reveal_strlit("active_policy");
    reveal_strlit("policy_id");
    reveal_strlit("text");
    assert("active_policy"@.len() == 13);
    assert("policy_id"@.len() == 9);
    assert("text"@.len() == 4);
    assert(ms[0].0 == "active_policy"@);
    assert(ms[1].0 == "policy_id"@);
    assert(ms[2].0 == "text"@);
    lemma_record_get(ms, 0);
    lemma_record_get(ms, 1);
    lemma_record_get(ms, 2);
}

/// A call that was answered before is answered with the same text, and marked.
pub proof fn law_repeated_answer(
    seq: u64,
    text: Seq<char>,
)
    ensures
        ({
            let b = repeated(seq, text);
            &&& get(b, "idempotent"@) == Some(Json::Bool(true))
            &&& get(b, "seq"@) == Some(Json::UInt(seq))
            &&& get(b, "text"@) == Some(Json::Str(text))
        }),
{
    let ms = seq![
        ("idempotent"@, Json::Bool(true)),
        ("seq"@, Json::UInt(seq)),
        ("text"@, Json::Str(text)),
    ];
    reveal_strlit("idempotent");
    reveal_strlit("seq");
    reveal_strlit("text");
    assert("idempotent"@.len() == 10);
    assert("seq"@.len() == 3);
    assert("text"@.len() == 4);
    assert(ms[0].0 == "idempotent"@);
    assert(ms[1].0 == "seq"@);
    assert(ms[2].0 == "text"@);
    lemma_record_get(ms, 0);
    lemma_record_get(ms, 1);
    lemma_record_get(ms, 2);
}

/// How an option is written out.
pub proof fn law_options_are_written(s: Seq<char>)
    ensures
        shown_option(None) == "None"@,
        shown_option(Some(s)) == "Some("@ + quoted(s) + ")"@,
{
}

/// What is appended: the next event, by who called, at the time given, with what was prepared.
pub proof fn law_next_event(p: ProjectionView, prep: PreparedView, ts: u64)
    requires
        p.seq < u64::MAX,
    ensures
        ({
            let e = event_of(p, prep, ts);
            &&& e.seq == p.seq + 1
            &&& e.id == "e"@ + dec((p.seq + 1) as nat)
            &&& e.v == 1
            &&& e.ts == ts
            &&& e.kind == prep.kind
            &&& e.agent_id == prep.agent_id
            &&& e.lease_id == prep.lease_id
            &&& e.idempotency_key == prep.idempotency_key
            &&& e.body == prep.body
            &&& e.result.len() == 0
        }),
{
    reveal_strlit("");
}

/// A call under a key that is known is answered as before, and nothing is appended; any other
/// is appended.
pub proof fn law_calls_are_answered_once(p: ProjectionView, prep: PreparedView, ts: u64)
    ensures
        ({
            let known = match prep.idempotency_key {
                Some(k) => at(p.idempotency, k),
                None => None,
            };
            let r = committed(p, prep, ts);
            &&& known matches Some(h) ==> r == CommittedView::Answered(repeated(h.seq, h.result))
            &&& known is None ==> (r matches CommittedView::Appended(_, e, _) && e.kind == prep.kind
                && e.agent_id == prep.agent_id && e.body == prep.body && e.idempotency_key
                == prep.idempotency_key)
        }),
{
}

/// The text of an answer is kept under the key of its call, where that is remembered, and
/// nothing else changes.
pub proof fn law_answers_are_kept(
    s: Seq<(Seq<char>, HitView)>,
    k: Seq<char>,
    text: Seq<char>,
    q: Seq<char>,
)
    ensures
        with_result(s, None, text) == s,
        at(s, k) is None ==> with_result(s, Some(k), text) == s,
        at(s, k) matches Some(h) ==> at(with_result(s, Some(k), text), k) == Some(
            HitView { seq: h.seq, result: text },
        ),
        q != k ==> at(with_result(s, Some(k), text), q) == at(s, q),
{
    if let Some(h) = at(s, k) {
        lemma_at_put(s, k, HitView { seq: h.seq, result: text }, k);
        lemma_at_put(s, k, HitView { seq: h.seq, result: text }, q);
    }
}

// ---------------------------------------------------------------------------
// What runs measure

/// What was measured already is not measured again.
pub proof fn law_first_measure_stays(
    m: Seq<(Seq<char>, Json)>,
    key: Seq<char>,
    v: Json,
    q: Seq<char>,
)
    ensures
        at(m, key) is Some ==> put_new(m, key, v) == m,
        at(m, key) is None ==> at(put_new(m, key, v), key) == Some(v),
        q != key ==> at(put_new(m, key, v), q) == at(m, q),
{
    lemma_at_put(m, key, v, key);
    lemma_at_put(m, key, v, q);
}

/// What the status of a run says: one that passed is correct and integrates, unless something
/// else was measured; one that failed is not correct, whatever was measured; others say
/// nothing.
pub proof fn law_status_of_a_run(m: Seq<(Seq<char>, Json)>, run: RunView, q: Seq<char>)
    ensures
        ({
            let r = by_status(m, run);
            let one = Some(Json::Real("1.0"@));
            let kept = |k: Seq<char>|
                if at(m, k) is Some {
                    at(m, k)
                } else {
                    one
                };
            &&& run.status == "passed"@ ==> at(r, "correctness"@) == kept("correctness"@) && at(
                r,
                "integration"@,
            ) == kept("integration"@)
            &&& run.status == "failed"@ ==> at(r, "correctness"@) == Some(Json::Real("0.0"@)) && at(
                r,
                "integration"@,
            ) == at(m, "integration"@)
            &&& run.status != "passed"@ && run.status != "failed"@ ==> r == m
            &&& q != "correctness"@ && q != "integration"@ ==> at(r, q) == at(m, q)
        }),
{
    reveal_strlit("passed");
    reveal_strlit("failed");
    reveal_strlit("correctness");
    reveal_strlit("integration");
    assert("passed"@.len() == 6);
    assert("failed"@.len() == 6);
    assert("correctness"@.len() == 11);
    assert("integration"@.len() == 11);
    assert("passed"@[0] == 'p');
    assert("failed"@[0] == 'f');
    assert("correctness"@[0] == 'c');
    assert("integration"@[0] == 'i');
    assert("correctness"@[0] == 'c');
    assert("integration"@[0] == 'i');
    let one = Json::Real("1.0"@);
    let first = put_new(m, "correctness"@, one);
    law_first_measure_stays(m, "correctness"@, one, "integration"@);
    law_first_measure_stays(m, "correctness"@, one, q);
    law_first_measure_stays(first, "integration"@, one, "correctness"@);
    law_first_measure_stays(first, "integration"@, one, q);
    let zero = Json::Real("0.0"@);
    lemma_at_put(m, "correctness"@, zero, "correctness"@);
    lemma_at_put(m, "correctness"@, zero, "integration"@);
    lemma_at_put(m, "correctness"@, zero, q);
}

/// How long a run took is its cost and its critical path, unless they were measured.
pub proof fn law_duration_of_a_run(m: Seq<(Seq<char>, Json)>, run: RunView, q: Seq<char>)
    ensures
        ({
            let r = by_duration(m, run);
            &&& run.duration is None ==> r == m
            &&& run.duration matches Some(ms) ==> {
                let d = Some(double_json(Json::UInt(ms)));
                &&& at(r, "cost"@) == (if at(m, "cost"@) is Some {
                    at(m, "cost"@)
                } else {
                    d
                })
                &&& at(r, "critical_path"@) == (if at(m, "critical_path"@) is Some {
                    at(m, "critical_path"@)
                } else {
                    d
                })
                &&& q != "cost"@ && q != "critical_path"@ ==> at(r, q) == at(m, q)
            }
        }),
{
    reveal_strlit("cost");
    reveal_strlit("critical_path");
    assert("cost"@.len() == 4);
    assert("critical_path"@.len() == 13);
    if let Some(ms) = run.duration {
        let d = double_json(Json::UInt(ms));
        let first = put_new(m, "cost"@, d);
        law_first_measure_stays(m, "cost"@, d, "critical_path"@);
        law_first_measure_stays(m, "cost"@, d, q);
        law_first_measure_stays(first, "critical_path"@, d, "cost"@);
        law_first_measure_stays(first, "critical_path"@, d, q);
    }
}

/// Runs are taken one after the other; without adapters only what was given counts.
pub proof fn law_runs_are_taken_in_order(
    given: Seq<(Seq<char>, Json)>,
    adapters: Seq<AdapterView>,
    runs: Seq<RunView>,
    run: RunView,
)
    ensures
        outcome_metrics(given, None, runs) == put_all(given),
        outcome_metrics(given, Some(adapters), Seq::empty()) == put_all(given),
        outcome_metrics(given, Some(adapters), runs.push(run)) == adapted(
            by_duration(by_status(outcome_metrics(given, Some(adapters), runs), run), run),
            adapters,
            run,
            adapters.len(),
        ),
{
    lemma_runs_same(put_all(given), adapters, runs, run, runs.len());
    assert(runs.push(run)[runs.len() as int] == run);
}

proof fn lemma_runs_same(
    m: Seq<(Seq<char>, Json)>,
    adapters: Seq<AdapterView>,
    runs: Seq<RunView>,
    run: RunView,
    n: nat,
)
    requires
        n <= runs.len(),
    ensures
        with_runs(m, adapters, runs.push(run), n) == with_runs(m, adapters, runs, n),
    decreases n,
{
    if n > 0 {
        lemma_runs_same(m, adapters, runs, run, (n - 1) as nat);
        assert(runs.push(run)[n - 1] == runs[n - 1]);
    }
}

/// The metrics that are given are the numbers among them, as fractions.
pub proof fn law_metrics_are_numbers(ms: Seq<(Seq<char>, Json)>, n: nat)
    requires
        n <= ms.len(),
    ensures
        numbers_in(ms, n) == ms.take(n as int).filter(
            |m: (Seq<char>, Json)| is_number(m.1),
        ).map_values(|m: (Seq<char>, Json)| (m.0, double_json(m.1))),
    decreases n,
{
    let f = |m: (Seq<char>, Json)| is_number(m.1);
    let g = |m: (Seq<char>, Json)| (m.0, double_json(m.1));
    if n > 0 {
        let k = (n - 1) as nat;
        law_metrics_are_numbers(ms, k);
        let before = ms.take(k as int);
        assert(ms.take(n as int) =~= before.push(ms[n - 1]));
        before.lemma_filter_push(ms[n - 1], f);
        assert(before.filter(f).push(ms[n - 1]).map_values(g) =~= before.filter(f).map_values(
            g,
        ).push(g(ms[n - 1])));
    } else {
        reveal(Seq::filter);
        assert(ms.take(0) =~= Seq::empty());
        assert(numbers_in(ms, 0) =~= ms.take(0).filter(f).map_values(g));
    }
}

// ---------------------------------------------------------------------------
// The store

/// Which events count as known.
pub proof fn law_kinds_of_events(kind: Seq<char>)
    ensures
        miscounted(kind) <==> !seq![
            "check_in"@,
            "update"@,
            "check_out"@,
            "policy_promote"@,
            "policy_retire"@,
            "decision"@,
            "outcome"@,
        ].contains(kind),
{
    let all = seq![
        "check_in"@,
        "update"@,
        "check_out"@,
        "policy_promote"@,
        "policy_retire"@,
        "decision"@,
        "outcome"@,
    ];
    assert(all.len() == 7);
    assert(all[0] == "check_in"@ && all[1] == "update"@ && all[2] == "check_out"@);
    assert(all[3] == "policy_promote"@ && all[4] == "policy_retire"@);
    assert(all[5] == "decision"@ && all[6] == "outcome"@);
    if all.contains(kind) {
        let i = choose|i: int| 0 <= i < all.len() && all[i] == kind;
        assert(i == 0 || i == 1 || i == 2 || i == 3 || i == 4 || i == 5 || i == 6);
    }
}

/// A torn journal is mended by leaving out its last line; empty ones are left out too.
pub proof fn law_torn_journals_are_mended(lines: Seq<Seq<char>>, last: Seq<char>)
    ensures
        ({
            let body = joined(lines.filter(nonempty()), "\n"@);
            &&& body.len() > 0 ==> mended(lines.push(last)) == body + seq!['\n']
            &&& body.len() == 0 ==> mended(lines.push(last)).len() == 0
        }),
{
    assert(lines.push(last).drop_last() =~= lines);
    let body = joined(lines.filter(nonempty()), "\n"@);
    assert(body.push('\n') =~= body + seq!['\n']);
}

/// What was kept of the store is used only where it stands where the journal does and is of
/// the same group; else it is built from the journal, and has to be kept again.
pub proof fn law_what_was_kept_is_used(
    j: Json,
    events: Seq<EventView>,
    id: Seq<char>,
)
    ensures
        ({
            let built = folded(events, id);
            let p = projection_from(j);
            let fits = p is Some && p->Some_0.seq == built.seq && p->Some_0.coordination_id
                == built.coordination_id;
            &&& chosen(None, events, id) == (built, events.len() > 0)
            &&& fits ==> chosen(Some(j), events, id) == (p->Some_0, false)
            &&& !fits ==> chosen(Some(j), events, id) == (built, true)
        }),
{
}

/// Directories are grouped by name, whatever their slashes and letters.
pub proof fn law_groups_of_directories(dir: Seq<char>)
    ensures
        group_key(dir) == lowercase(replaced(dir, '\\', '/')),
{
}

proof fn lemma_zero_behind(a: Seq<u8>, b: Seq<u8>)
    requires
        forall|i: int| 0 <= i < b.len() ==> b[i] != 0,
    ensures
        zero_split(a.push(0) + b) == zero_split(a).push(b),
    decreases b.len(),
{
    let s = a.push(0) + b;
    if b.len() == 0 {
        assert(s =~= a.push(0));
        assert(s.drop_last() =~= a);
        assert(b =~= Seq::empty());
    } else {
        let c = b.drop_last();
        assert forall|i: int| 0 <= i < c.len() implies c[i] != 0 by {
            assert(c[i] == b[i]);
        }
        lemma_zero_behind(a, c);
        assert(s.drop_last() =~= a.push(0) + c);
        let r = zero_split(a).push(c);
        assert(r.drop_last() =~= zero_split(a));
        assert(c.push(b.last()) =~= b);
    }
}

/// What git lists is parted at zeroes.
pub proof fn law_lists_are_parted_at_zeroes(a: Seq<u8>, b: Seq<u8>)
    requires
        forall|i: int| 0 <= i < b.len() ==> b[i] != 0,
    ensures
        zero_split(a.push(0) + b) == zero_split(a).push(b),
        zero_split(b) == seq![b],
{
    lemma_zero_behind(a, b);
    lemma_zero_one(b);
}

proof fn lemma_zero_one(b: Seq<u8>)
    requires
        forall|i: int| 0 <= i < b.len() ==> b[i] != 0,
    ensures
        zero_split(b) == seq![b],
    decreases b.len(),
{
    if b.len() > 0 {
        let c = b.drop_last();
        assert forall|i: int| 0 <= i < c.len() implies c[i] != 0 by {
            assert(c[i] == b[i]);
        }
        lemma_zero_one(c);
        assert(c.push(b.last()) =~= b);
        assert(zero_split(b) =~= seq![b]);
    } else {
        assert(b =~= Seq::empty());
        assert(zero_split(b) =~= seq![b]);
    }
}

/// The files that changed are those that git lists, behind their marks, in order, as many as
/// are kept; of a file that moved the new name counts, and what is too short names none.
pub proof fn law_files_that_changed(status: Seq<u8>, entry: Seq<u8>)
    ensures
        dirty_of(status).len() <= 64,
        ({
            let all = zero_split(status).filter_map(|e: Seq<u8>| entry_path(e));
            &&& all.len() <= 64 ==> dirty_of(status) == all
            &&& all.len() > 64 ==> dirty_of(status) == all.take(64)
        }),
        entry.len() < 4 ==> entry_path(entry) is None,
        entry.len() >= 4 ==> ({
            let path = trimmed(
                after_last(trimmed(crate::text::decoded(entry.skip(3))), " -> "@, 0),
            );
            &&& path.len() == 0 ==> entry_path(entry) is None
            &&& path.len() > 0 ==> entry_path(entry) == Some(bounded(path, 240))
        }),
{
}

/// What stands behind the last arrow: a text without one is whole.
pub proof fn law_behind_the_last_arrow(s: Seq<char>, from: int)
    requires
        0 <= from <= s.len(),
    ensures
        crate::text::find_from(s, " -> "@, from) is None ==> after_last(s, " -> "@, from)
            == s.skip(from),
        crate::text::find_from(s, " -> "@, from) matches Some(i) ==> (from <= i && i + 4 <= s.len()
            ==> after_last(s, " -> "@, from) == after_last(s, " -> "@, i + 4)),
{
    reveal_strlit(" -> ");
    assert(" -> "@.len() == 4);
}

} // verus!

//! Who may check in, change and leave, what is written of it, and what becomes of it.
use vstd::prelude::*;
use crate::izakaya::commit::CommittedView;
use crate::izakaya::model::{state_name, state_named, AgentState, ClaimView};
use crate::izakaya::presence::{
    actions_given, again, arg, arg_list, arg_text, batch_fault, check_in_members,
    check_out_members, checked_in, checked_out, claims_given, decided, decision_for,
    decision_members, earlier, episode_for, agent_named, fingerprints_given, handoff_fault,
    handoff_given, handoff_named, is_legal, lease_for, need, observed, outcome_members, reason_for,
    revision_fault, revision_of, session_note, stray, update_core, update_members, updated,
    concluded, ttl_after, slug_needed, checkpoint_after, dirty_after, AroundView,
};
use crate::izakaya::records::{claims_json, some_str, AgentRecord, HandoffView, NoteView};
use crate::izakaya::store::{
    acknowledged, applied, handoff_status, offer_at, pushed, taken_up, EventView, ProjectionView,
};
use crate::json::{
    as_str, as_u64, bool_or, get, json_opt_str, json_strs, lemma_record_get, record, str_or,
    u64_or, Json,
};
use crate::smap::at;
use crate::text::dec;

verus! {

// ---------------------------------------------------------------------------
// Leases

/// Who gets which lease: a newcomer and one who has left get a new one, as does one
/// whose lease has run out or who insists; with the lease in hand it is kept; and
/// everyone else is turned away.
pub proof fn law_who_gets_a_lease(p: ProjectionView, id: Seq<char>, j: Json, now: u64)
    ensures
        ({
            let r = lease_for(p, id, j, now);
            match at(p.agents, id) {
                None => r == Ok::<(Seq<char>, u64, bool), Seq<char>>(
                    (id + "-"@ + dec(1) + "-"@ + dec(now as nat), 1u64, true),
                ),
                Some(a) => {
                    let next = (a.revision + 1) as u64;
                    let fresh = (
                        id + "-"@ + dec(next as nat) + "-"@ + dec(now as nat),
                        next,
                        true,
                    );
                    let gone = a.state == "checked_out"@;
                    let mine = arg(j, "lease_id"@) == Some(a.lease_id);
                    let late = a.expires_at > 0 && now >= a.expires_at;
                    let forced = bool_or(j, "force"@, false);
                    &&& gone ==> r == Ok::<(Seq<char>, u64, bool), Seq<char>>(fresh)
                    &&& !gone && state_named(a.state) is Err ==> r is Err
                    &&& !gone && state_named(a.state) is Ok && mine ==> r == Ok::<
                        (Seq<char>, u64, bool),
                        Seq<char>,
                    >((a.lease_id, next, false))
                    &&& !gone && state_named(a.state) is Ok && state_named(a.state)
                        != Ok::<AgentState, Seq<char>>(AgentState::CheckedOut) && !mine ==> {
                        &&& late || forced ==> r == Ok::<(Seq<char>, u64, bool), Seq<char>>(fresh)
                        &&& !late && !forced ==> r is Err
                    }
                },
            }
        }),
{
}

/// A call names a revision that is not the one at hand: it is refused; without one, or
/// with the one at hand, it is not.
pub proof fn law_revisions_must_agree(j: Json, have: u64)
    ensures
        revision_fault(j, have) is Ok <==> (as_u64(get(j, "expected_revision"@)) matches Some(n)
            ==> n == have),
{
}

proof fn lemma_handoff_named(hs: Seq<HandoffView>, id: Seq<char>, from: int)
    requires
        0 <= from <= hs.len(),
    ensures
        match handoff_named(hs, id, from) {
            Some(h) => exists|i: int|
                from <= i < hs.len() && #[trigger] hs[i] == h && h.id == id && forall|j: int|
                    from <= j < i ==> (#[trigger] hs[j]).id != id,
            None => forall|j: int| from <= j < hs.len() ==> (#[trigger] hs[j]).id != id,
        },
    decreases hs.len() - from,
{
    if from < hs.len() && hs[from].id != id {
        lemma_handoff_named(hs, id, from + 1);
        if let Some(h) = handoff_named(hs, id, from) {
            let i = choose|i: int|
                from + 1 <= i < hs.len() && #[trigger] hs[i] == h && h.id == id && forall|j: int|
                    from + 1 <= j < i ==> (#[trigger] hs[j]).id != id;
            assert forall|j: int| from <= j < i implies (#[trigger] hs[j]).id != id by {}
            assert(hs[i] == h);
        }
    } else if from < hs.len() {
        assert(hs[from] == hs[from]);
    }
}

/// What was handed off can be taken up while it is offered, by the one it is offered to
/// or, offered to nobody, by anyone.
pub proof fn law_who_takes_up_a_handoff(
    p: ProjectionView,
    id: Seq<char>,
    agent: Seq<char>,
    i: int,
)
    requires
        0 <= i < p.handoffs.len(),
        p.handoffs[i].id == id,
        forall|j: int| 0 <= j < i ==> (#[trigger] p.handoffs[j]).id != id,
    ensures
        handoff_fault(p, Some(id), agent) is Ok <==> p.handoffs[i].status == "offered"@ && (
        p.handoffs[i].to.len() == 0 || p.handoffs[i].to == agent),
        handoff_fault(p, None, agent) is Ok,
{
    lemma_handoff_named(p.handoffs, id, 0);
    let h = handoff_named(p.handoffs, id, 0);
    if let Some(g) = h {
        let k = choose|k: int|
            0 <= k < p.handoffs.len() && #[trigger] p.handoffs[k] == g && g.id == id && forall|
                j: int,
            |
                0 <= j < k ==> (#[trigger] p.handoffs[j]).id != id;
        if k < i {
            assert(p.handoffs[k].id != id);
        }
        if i < k {
            assert(p.handoffs[i].id != id);
        }
    } else {
        assert(p.handoffs[i].id != id);
    }
}

/// What was never handed off cannot be taken up.
pub proof fn law_unknown_handoff(p: ProjectionView, id: Seq<char>, agent: Seq<char>)
    requires
        forall|j: int| 0 <= j < p.handoffs.len() ==> (#[trigger] p.handoffs[j]).id != id,
    ensures
        handoff_fault(p, Some(id), agent) is Err,
{
    lemma_handoff_named(p.handoffs, id, 0);
    if let Some(h) = handoff_named(p.handoffs, id, 0) {
        let k = choose|k: int|
            0 <= k < p.handoffs.len() && #[trigger] p.handoffs[k] == h && h.id == id && forall|
                j: int,
            |
                0 <= j < k ==> (#[trigger] p.handoffs[j]).id != id;
        assert(p.handoffs[k].id != id);
    }
}

// ---------------------------------------------------------------------------
// Which calls are accepted

/// Whether a call comes from one who is present and has the lease.
pub open spec fn holds_lease(p: ProjectionView, j: Json, id: Seq<char>) -> bool {
    at(p.agents, id) matches Some(a) && a.state != "checked_out"@ && need(j, "lease_id"@) == Ok::<
        Seq<char>,
        Seq<char>,
    >(a.lease_id)
}

/// A check-in is accepted where nothing is wrong with it: the lease is granted, the
/// revision agrees, the claims can be read, and what is taken up may be taken up.
pub proof fn law_check_in_is_accepted(p: ProjectionView, j: Json, w: AroundView, id: Seq<char>)
    requires
        crate::izakaya::model::payload_fault(j) is Ok,
        agent_named(j) == Ok::<Seq<char>, Seq<char>>(id),
        earlier(p, j) is None,
    ensures
        checked_in(p, j, w) is Ok <==> lease_for(p, id, j, w.now) is Ok && revision_fault(
            j,
            revision_of(p, id),
        ) is Ok && claims_given(j) is Ok && handoff_fault(p, arg(j, "handoff_id"@), id) is Ok,
        checked_in(p, j, w) matches Ok(CommittedView::Appended(_, e, _)) ==> {
            &&& e.kind == "check_in"@
            &&& e.agent_id == id
            &&& e.lease_id == lease_for(p, id, j, w.now)->Ok_0.0
            &&& e.ts == w.now
            &&& e.seq == (p.seq + 1) as u64
        },
{
}

/// A change is accepted from one who is present and has the lease, to a state other than
/// having left; dirty work is set aside only with a checkpoint.
pub proof fn law_update_is_accepted(p: ProjectionView, j: Json, w: AroundView, id: Seq<char>)
    requires
        crate::izakaya::model::payload_fault(j) is Ok,
        agent_named(j) == Ok::<Seq<char>, Seq<char>>(id),
        earlier(p, j) is None,
        at(p.agents, id) is Some ==> state_named(at(p.agents, id)->Some_0.state) is Ok && (
        at(p.agents, id)->Some_0.state != "checked_out"@ ==> state_named(
            at(p.agents, id)->Some_0.state,
        )->Ok_0 != AgentState::CheckedOut),
    ensures
        ({
            let a = at(p.agents, id)->Some_0;
            let from = state_named(a.state)->Ok_0;
            let named = as_str(get(j, "state"@));
            let to = match named {
                Some(s) => state_named(s)->Ok_0,
                None => from,
            };
            let dirty = dirty_after(j, observed(j, w.git, w.root), a);
            let kept = checkpoint_after(j, a);
            updated(p, j, w) is Ok <==> {
                &&& holds_lease(p, j, id)
                &&& revision_fault(j, a.revision) is Ok
                &&& named matches Some(s) ==> state_named(s) is Ok
                &&& to != AgentState::CheckedOut
                &&& !(to == AgentState::Suspended && dirty.len() > 0 && !(kept matches Some(c)
                    && c.len() > 0))
                &&& get(j, "claims"@) is Some ==> claims_given(j) is Ok
            }
        }),
        updated(p, j, w) matches Ok(CommittedView::Appended(_, e, _)) ==> {
            &&& e.kind == "update"@
            &&& e.agent_id == id
            &&& e.lease_id == at(p.agents, id)->Some_0.lease_id
            &&& e.ts == w.now
            &&& e.seq == (p.seq + 1) as u64
        },
{
}

/// One who is present leaves with the lease in hand, for a known reason; handing work off
/// takes a capsule that says something. One who has left stays gone.
pub proof fn law_check_out_is_accepted(p: ProjectionView, j: Json, w: AroundView, id: Seq<char>)
    requires
        crate::izakaya::model::payload_fault(j) is Ok,
        agent_named(j) == Ok::<Seq<char>, Seq<char>>(id),
        earlier(p, j) is None,
    ensures
        at(p.agents, id) is None ==> checked_out(p, j, w) is Err,
        (at(p.agents, id) matches Some(a) && a.state == "checked_out"@) ==> (checked_out(p, j, w)
            matches Ok(CommittedView::Answered(_))),
        (at(p.agents, id) matches Some(a) && a.state != "checked_out"@) ==> (checked_out(
            p,
            j,
            w,
        ) is Ok <==> {
            &&& holds_lease(p, j, id)
            &&& revision_fault(j, at(p.agents, id)->Some_0.revision) is Ok
            &&& reason_for(j) is Ok
            &&& match handoff_given(j) {
                None => reason_for(j)->Ok_0 != "handed_off"@,
                Some(h) => crate::izakaya::presence::capsule_says(h),
            }
        }),
        checked_out(p, j, w) matches Ok(CommittedView::Appended(_, e, _)) ==> {
            &&& e.kind == "check_out"@
            &&& e.agent_id == id
            &&& e.ts == w.now
            &&& e.seq == (p.seq + 1) as u64
        },
{
}

/// Why one leaves: what is said, else that work was handed off where a capsule is given,
/// else that it is completed. Three reasons are known.
pub proof fn law_reasons_to_leave(j: Json)
    ensures
        as_str(get(j, "reason"@)) is None && (get(j, "handoff"@) is None || get(j, "handoff"@)
            == Some(Json::Null)) ==> reason_for(j) == Ok::<Seq<char>, Seq<char>>("completed"@),
        as_str(get(j, "reason"@)) is None && get(j, "handoff"@) is Some && get(j, "handoff"@)
            != Some(Json::Null) ==> reason_for(j) == Ok::<Seq<char>, Seq<char>>("handed_off"@),
        as_str(get(j, "reason"@)) matches Some(s) ==> (reason_for(j) is Ok <==> {
            let t = crate::text::trimmed(s);
            t == "completed"@ || t == "handed_off"@ || t == "abandoned"@
        }) && (reason_for(j) is Ok ==> reason_for(j)->Ok_0 == crate::text::trimmed(s)),
{
}

proof fn lemma_stray(selected: Seq<Seq<char>>, legal: Seq<Json>, from: int)
    requires
        0 <= from <= selected.len(),
    ensures
        stray(selected, legal, from) is None <==> forall|i: int|
            from <= i < selected.len() ==> is_legal(legal, #[trigger] selected[i]),
    decreases selected.len() - from,
{
    if from < selected.len() {
        if is_legal(legal, selected[from]) {
            lemma_stray(selected, legal, from + 1);
            if stray(selected, legal, from + 1) is None {
                assert forall|i: int| from <= i < selected.len() implies is_legal(
                    legal,
                    #[trigger] selected[i],
                ) by {}
            }
        } else {
            assert(!is_legal(legal, selected[from]));
        }
    }
}

/// A batch is recorded where something could be done, something was started, and all of
/// that was among what could be done.
pub proof fn law_batches_are_legal(j: Json, legal: Seq<Json>)
    ensures
        batch_fault(j, legal) is Ok <==> legal.len() > 0 && arg_list(j, "selected"@).len() > 0
            && forall|i: int|
            0 <= i < arg_list(j, "selected"@).len() ==> exists|k: int|
                0 <= k < legal.len() && as_str(get(#[trigger] legal[k], "id"@)) == Some(
                    #[trigger] arg_list(j, "selected"@)[i],
                ),
{
    let s = arg_list(j, "selected"@);
    lemma_stray(s, legal, 0);
    if forall|i: int| 0 <= i < s.len() ==> is_legal(legal, #[trigger] s[i]) {
        assert forall|i: int| 0 <= i < s.len() implies exists|k: int|
            0 <= k < legal.len() && as_str(get(#[trigger] legal[k], "id"@)) == Some(
                #[trigger] s[i],
            ) by {
            assert(is_legal(legal, s[i]));
        }
    } else {
        let i = choose|i: int| 0 <= i < s.len() && !is_legal(legal, #[trigger] s[i]);
        assert(!exists|k: int|
            0 <= k < legal.len() && as_str(get(#[trigger] legal[k], "id"@)) == Some(s[i]));
    }
}

/// A decision is recorded for one who is present and has the lease.
pub proof fn law_decision_is_accepted(p: ProjectionView, j: Json, now: u64, id: Seq<char>)
    requires
        crate::izakaya::model::payload_fault(j) is Ok,
        agent_named(j) == Ok::<Seq<char>, Seq<char>>(id),
        earlier(p, j) is None,
    ensures
        decided(p, j, now) is Ok <==> {
            &&& holds_lease(p, j, id)
            &&& episode_for(j, id) is Ok
            &&& decision_for(j, p.seq) is Ok
            &&& actions_given(j, "legal_actions"@) is Ok
            &&& batch_fault(j, actions_given(j, "legal_actions"@)->Ok_0) is Ok
        },
        decided(p, j, now) matches Ok(CommittedView::Appended(_, e, _)) ==> e.kind == "decision"@
            && e.agent_id == id && e.ts == now,
{
}

/// An outcome is recorded for one who is present and has the lease, of a decision that
/// was recorded.
pub proof fn law_outcome_is_accepted(
    p: ProjectionView,
    events: Seq<EventView>,
    j: Json,
    now: u64,
    metrics: Seq<(Seq<char>, Json)>,
    id: Seq<char>,
)
    requires
        crate::izakaya::model::payload_fault(j) is Ok,
        agent_named(j) == Ok::<Seq<char>, Seq<char>>(id),
        earlier(p, j) is None,
    ensures
        concluded(p, events, j, now, metrics) is Ok <==> {
            &&& holds_lease(p, j, id)
            &&& slug_needed(j, "decision_id"@, "decision_id"@) is Ok
            &&& slug_needed(j, "action"@, "action"@) is Ok
            &&& exists|i: int|
                0 <= i < events.len() && (#[trigger] events[i]).kind == "decision"@ && as_str(
                    get(events[i].body, "decision_id"@),
                ) == Some(slug_needed(j, "decision_id"@, "decision_id"@)->Ok_0)
        },
        concluded(p, events, j, now, metrics) matches Ok(CommittedView::Appended(_, e, _)) ==> e.kind
            == "outcome"@ && e.agent_id == id && e.ts == now,
{
}

/// A call that was answered before is answered the same, and changes nothing.
pub proof fn law_answered_calls_change_nothing(p: ProjectionView, j: Json, w: AroundView)
    requires
        earlier(p, j) is Some,
    ensures
        !(checked_in(p, j, w) matches Ok(CommittedView::Appended(_, _, _))),
        !(updated(p, j, w) matches Ok(CommittedView::Appended(_, _, _))),
        !(checked_out(p, j, w) matches Ok(CommittedView::Appended(_, _, _))),
        !(decided(p, j, w.now) matches Ok(CommittedView::Appended(_, _, _))),
        earlier(p, j) matches Some(t) ==> (checked_in(p, j, w) matches Ok(
            CommittedView::Answered(v),
        ) ==> get(v, "text"@) == Some(Json::Str(t))),
{
    reveal_strlit("agent_id");
    reveal_strlit("idempotent");
    reveal_strlit("text");
    assert("agent_id"@.len() == 8 && "idempotent"@.len() == 10 && "text"@.len() == 4);
    if let Some(t) = earlier(p, j) {
        if let Ok(id) = agent_named(j) {
            let ms = seq![
                ("agent_id"@, Json::Str(id)),
                ("idempotent"@, Json::Bool(true)),
                ("text"@, Json::Str(t)),
            ];
            assert(again(t, id) == Json::Object(ms));
            crate::smap::lemma_at_index(ms, "text"@, 2);
            crate::json::lemma_lookup_at(ms, "text"@);
        }
    }
}

// ---------------------------------------------------------------------------
// What is written

/// What is written of a check-in: what was asked for, what was observed, and how long it
/// lasts.
pub proof fn law_what_a_check_in_writes(
    p: ProjectionView,
    j: Json,
    w: AroundView,
    id: Seq<char>,
    lease: (Seq<char>, u64, bool),
    claims: Seq<ClaimView>,
)
    ensures
        ({
            let b = record(check_in_members(p, j, w, id, lease, claims));
            &&& get(b, "accept_handoff"@) == Some(json_opt_str(arg(j, "handoff_id"@)))
            &&& get(b, "base_oid"@) == Some(Json::Str(observed(j, w.git, w.root).base_oid))
            &&& get(b, "blockers"@) == Some(json_strs(arg_list(j, "blockers"@)))
            &&& get(b, "branch"@) == Some(Json::Str(observed(j, w.git, w.root).branch))
            &&& get(b, "checked_in_at"@) == Some(Json::UInt(if lease.2 { w.now } else { at(p.agents, id)->Some_0.checked_in_at }))
            &&& get(b, "checkpoint"@) == Some(json_opt_str(arg(j, "checkpoint"@)))
            &&& get(b, "claims"@) == Some(claims_json(claims))
            &&& get(b, "dirty_paths"@) == Some(json_strs(observed(j, w.git, w.root).dirty_paths))
            &&& get(b, "expires_at"@) == Some(Json::UInt(lasting(w.now, u64_or(j, "ttl_secs"@, w.ttl_secs))))
            &&& get(b, "head_oid"@) == Some(Json::Str(observed(j, w.git, w.root).head_oid))
            &&& get(b, "mas_note"@) == Some(Json::Str(session_note(arg(j, "mas_session"@), w.session)))
            &&& get(b, "mas_session"@) == Some(json_opt_str(arg(j, "mas_session"@)))
            &&& get(b, "revision"@) == Some(Json::UInt(lease.1))
            &&& get(b, "role"@) == Some(Json::Str(arg_text(j, "role"@)))
            &&& get(b, "state"@) == Some(Json::Str("checked_in"@))
            &&& get(b, "summary"@) == Some(Json::Str(arg_text(j, "summary"@)))
            &&& get(b, "task"@) == Some(Json::Str(arg_text(j, "task"@)))
            &&& get(b, "ttl_secs"@) == Some(Json::UInt(one_at_least(u64_or(j, "ttl_secs"@, w.ttl_secs))))
            &&& get(b, "workspace_id"@) == Some(Json::Str(w.workspace_id))
            &&& get(b, "worktree"@) == Some(Json::Str(observed(j, w.git, w.root).worktree))
        }),
{
    let ms = check_in_members(p, j, w, id, lease, claims);
    reveal_strlit("accept_handoff");
    reveal_strlit("base_oid");
    reveal_strlit("blockers");
    reveal_strlit("branch");
    reveal_strlit("checked_in_at");
    reveal_strlit("checkpoint");
    reveal_strlit("claims");
    reveal_strlit("dirty_paths");
    reveal_strlit("expires_at");
    reveal_strlit("head_oid");
    reveal_strlit("mas_note");
    reveal_strlit("mas_session");
    reveal_strlit("revision");
    reveal_strlit("role");
    reveal_strlit("state");
    reveal_strlit("summary");
    reveal_strlit("task");
    reveal_strlit("ttl_secs");
    reveal_strlit("workspace_id");
    reveal_strlit("worktree");
    assert("accept_handoff"@.len() == 14);
    assert("base_oid"@.len() == 8);
    assert("blockers"@.len() == 8);
    assert("branch"@.len() == 6);
    assert("checked_in_at"@.len() == 13);
    assert("checkpoint"@.len() == 10);
    assert("claims"@.len() == 6);
    assert("dirty_paths"@.len() == 11);
    assert("expires_at"@.len() == 10);
    assert("head_oid"@.len() == 8);
    assert("mas_note"@.len() == 8);
    assert("mas_session"@.len() == 11);
    assert("revision"@.len() == 8);
    assert("role"@.len() == 4);
    assert("state"@.len() == 5);
    assert("summary"@.len() == 7);
    assert("task"@.len() == 4);
    assert("ttl_secs"@.len() == 8);
    assert("workspace_id"@.len() == 12);
    assert("worktree"@.len() == 8);
    assert("base_oid"@[0] == 'b');
    assert("base_oid"@[1] == 'a');
    assert("blockers"@[0] == 'b');
    assert("blockers"@[1] == 'l');
    assert("branch"@[0] == 'b');
    assert("checkpoint"@[0] == 'c');
    assert("claims"@[0] == 'c');
    assert("dirty_paths"@[0] == 'd');
    assert("expires_at"@[0] == 'e');
    assert("head_oid"@[0] == 'h');
    assert("mas_note"@[0] == 'm');
    assert("mas_session"@[0] == 'm');
    assert("revision"@[0] == 'r');
    assert("role"@[0] == 'r');
    assert("task"@[0] == 't');
    assert("ttl_secs"@[0] == 't');
    assert("worktree"@[0] == 'w');
    assert(ms[0].0 == "accept_handoff"@);
    assert(ms[1].0 == "base_oid"@);
    assert(ms[2].0 == "blockers"@);
    assert(ms[3].0 == "branch"@);
    assert(ms[4].0 == "checked_in_at"@);
    assert(ms[5].0 == "checkpoint"@);
    assert(ms[6].0 == "claims"@);
    assert(ms[7].0 == "dirty_paths"@);
    assert(ms[8].0 == "expires_at"@);
    assert(ms[9].0 == "head_oid"@);
    assert(ms[10].0 == "mas_note"@);
    assert(ms[11].0 == "mas_session"@);
    assert(ms[12].0 == "revision"@);
    assert(ms[13].0 == "role"@);
    assert(ms[14].0 == "state"@);
    assert(ms[15].0 == "summary"@);
    assert(ms[16].0 == "task"@);
    assert(ms[17].0 == "ttl_secs"@);
    assert(ms[18].0 == "workspace_id"@);
    assert(ms[19].0 == "worktree"@);
    lemma_record_get(ms, 0);
    lemma_record_get(ms, 1);
    lemma_record_get(ms, 2);
    lemma_record_get(ms, 3);
    lemma_record_get(ms, 4);
    lemma_record_get(ms, 5);
    lemma_record_get(ms, 6);
    lemma_record_get(ms, 7);
    lemma_record_get(ms, 8);
    lemma_record_get(ms, 9);
    lemma_record_get(ms, 10);
    lemma_record_get(ms, 11);
    lemma_record_get(ms, 12);
    lemma_record_get(ms, 13);
    lemma_record_get(ms, 14);
    lemma_record_get(ms, 15);
    lemma_record_get(ms, 16);
    lemma_record_get(ms, 17);
    lemma_record_get(ms, 18);
    lemma_record_get(ms, 19);
}

/// A number of seconds, one at least.
pub open spec fn one_at_least(n: u64) -> u64 {
    if n == 0 {
        1
    } else {
        n
    }
}

/// When something ends that lasts some seconds, one at least.
pub open spec fn lasting(now: u64, secs: u64) -> u64 {
    let end = now + one_at_least(secs);
    if end > u64::MAX {
        u64::MAX
    } else {
        end as u64
    }
}

/// How long a lease lasts after a change: a lease that is set aside for the time that is
/// kept for that, any other for what is asked for, else as long as before but no shorter
/// than usual.
pub proof fn law_lease_lasts(j: Json, w: AroundView, a: AgentRecord, to: AgentState)
    ensures
        to == AgentState::Suspended ==> ttl_after(j, w, a, to) == one_at_least(w.suspend_ttl_secs),
        to != AgentState::Suspended && get(j, "ttl_secs"@) is None ==> ttl_after(j, w, a, to)
            == one_at_least(
            if a.ttl_secs > w.ttl_secs {
                a.ttl_secs
            } else {
                w.ttl_secs
            },
        ),
        to != AgentState::Suspended && as_u64(get(j, "ttl_secs"@)) is Some ==> ttl_after(
            j,
            w,
            a,
            to,
        ) == one_at_least(as_u64(get(j, "ttl_secs"@))->Some_0),
{
}

/// What is written of a decision: what could be done, what was started, and under which
/// policy.
pub proof fn law_what_a_decision_writes(
    j: Json,
    episode: Seq<char>,
    decision: Seq<char>,
    legal: Seq<Json>,
)
    ensures
        ({
            let b = record(decision_members(j, episode, decision, legal));
            &&& get(b, "budget"@) == Some(Json::UInt(u64_or(j, "budget"@, 1)))
            &&& get(b, "decision_id"@) == Some(Json::Str(decision))
            &&& get(b, "episode_id"@) == Some(Json::Str(episode))
            &&& get(b, "fingerprints"@) == Some(fingerprints_given(j))
            &&& get(b, "legal_actions"@) == Some(Json::Array(legal))
            &&& get(b, "observation_hash"@) == Some(Json::Str(arg_text(j, "observation_hash"@)))
            &&& get(b, "policy_id"@) == Some(Json::Str(str_or(j, "policy_id"@, "manual"@)))
            &&& get(b, "profile_id"@) == Some(Json::Str(str_or(j, "profile"@, "coordination"@)))
            &&& get(b, "selected"@) == Some(json_strs(arg_list(j, "selected"@)))
            &&& get(b, "task"@) == Some(Json::Str(arg_text(j, "task"@)))
            &&& get(b, "workers"@) == Some(Json::UInt(u64_or(j, "workers"@, 1)))
        }),
{
    let ms = decision_members(j, episode, decision, legal);
    reveal_strlit("budget");
    reveal_strlit("decision_id");
    reveal_strlit("episode_id");
    reveal_strlit("fingerprints");
    reveal_strlit("legal_actions");
    reveal_strlit("observation_hash");
    reveal_strlit("policy_id");
    reveal_strlit("profile_id");
    reveal_strlit("selected");
    reveal_strlit("task");
    reveal_strlit("workers");
    assert("budget"@.len() == 6);
    assert("decision_id"@.len() == 11);
    assert("episode_id"@.len() == 10);
    assert("fingerprints"@.len() == 12);
    assert("legal_actions"@.len() == 13);
    assert("observation_hash"@.len() == 16);
    assert("policy_id"@.len() == 9);
    assert("profile_id"@.len() == 10);
    assert("selected"@.len() == 8);
    assert("task"@.len() == 4);
    assert("workers"@.len() == 7);
    assert("episode_id"@[0] == 'e');
    assert("profile_id"@[0] == 'p');
    assert(ms[0].0 == "budget"@);
    assert(ms[1].0 == "decision_id"@);
    assert(ms[2].0 == "episode_id"@);
    assert(ms[3].0 == "fingerprints"@);
    assert(ms[4].0 == "legal_actions"@);
    assert(ms[5].0 == "observation_hash"@);
    assert(ms[6].0 == "policy_id"@);
    assert(ms[7].0 == "profile_id"@);
    assert(ms[8].0 == "selected"@);
    assert(ms[9].0 == "task"@);
    assert(ms[10].0 == "workers"@);
    lemma_record_get(ms, 0);
    lemma_record_get(ms, 1);
    lemma_record_get(ms, 2);
    lemma_record_get(ms, 3);
    lemma_record_get(ms, 4);
    lemma_record_get(ms, 5);
    lemma_record_get(ms, 6);
    lemma_record_get(ms, 7);
    lemma_record_get(ms, 8);
    lemma_record_get(ms, 9);
    lemma_record_get(ms, 10);
}

/// What is written of an outcome.
pub proof fn law_what_an_outcome_writes(
    j: Json,
    decision: Seq<char>,
    action: Seq<char>,
    metrics: Seq<(Seq<char>, Json)>,
)
    ensures
        ({
            let b = record(outcome_members(j, decision, action, metrics));
            &&& get(b, "action"@) == Some(Json::Str(action))
            &&& get(b, "artifacts"@) == Some(json_strs(arg_list(j, "artifacts"@)))
            &&& get(b, "censored"@) == Some(Json::Bool(bool_or(j, "censored"@, false)))
            &&& get(b, "decision_id"@) == Some(Json::Str(decision))
            &&& get(b, "fingerprints"@) == Some(fingerprints_given(j))
            &&& get(b, "metrics"@) == Some(Json::Object(metrics))
            &&& get(b, "profile_id"@) == Some(Json::Str(str_or(j, "profile"@, "coordination"@)))
            &&& get(b, "run_ids"@) == Some(json_strs(arg_list(j, "run_ids"@)))
        }),
{
    let ms = outcome_members(j, decision, action, metrics);
    reveal_strlit("action");
    reveal_strlit("artifacts");
    reveal_strlit("censored");
    reveal_strlit("decision_id");
    reveal_strlit("fingerprints");
    reveal_strlit("metrics");
    reveal_strlit("profile_id");
    reveal_strlit("run_ids");
    assert("action"@.len() == 6);
    assert("artifacts"@.len() == 9);
    assert("censored"@.len() == 8);
    assert("decision_id"@.len() == 11);
    assert("fingerprints"@.len() == 12);
    assert("metrics"@.len() == 7);
    assert("profile_id"@.len() == 10);
    assert("run_ids"@.len() == 7);
    assert("metrics"@[0] == 'm');
    assert("run_ids"@[0] == 'r');
    assert(ms[0].0 == "action"@);
    assert(ms[1].0 == "artifacts"@);
    assert(ms[2].0 == "censored"@);
    assert(ms[3].0 == "decision_id"@);
    assert(ms[4].0 == "fingerprints"@);
    assert(ms[5].0 == "metrics"@);
    assert(ms[6].0 == "profile_id"@);
    assert(ms[7].0 == "run_ids"@);
    lemma_record_get(ms, 0);
    lemma_record_get(ms, 1);
    lemma_record_get(ms, 2);
    lemma_record_get(ms, 3);
    lemma_record_get(ms, 4);
    lemma_record_get(ms, 5);
    lemma_record_get(ms, 6);
    lemma_record_get(ms, 7);
}

/// Whether members are those that a change may leave out.
spec fn left_out(ms: Seq<(Seq<char>, Json)>) -> bool {
    forall|i: int|
        0 <= i < ms.len() ==> {
            let k = (#[trigger] ms[i]).0;
            k == "note"@ || k == "summary"@ || k == "role"@ || k == "task"@ || k == "mas_session"@ || k == "base_oid"@ || k == "branch"@ || k == "head_oid"@
        }
}

proof fn lemma_left_out(a: Seq<(Seq<char>, Json)>, b: Seq<(Seq<char>, Json)>)
    requires
        left_out(a),
        left_out(b),
    ensures
        left_out(a + b),
{
    let s = a + b;
    assert forall|i: int| 0 <= i < s.len() implies {
        let k = (#[trigger] s[i]).0;
        k == "note"@ || k == "summary"@ || k == "role"@ || k == "task"@ || k == "mas_session"@ || k == "base_oid"@ || k == "branch"@ || k == "head_oid"@
    } by {
        if i < a.len() {
            assert(s[i] == a[i]);
        } else {
            assert(s[i] == b[i - a.len()]);
        }
    }
}

proof fn lemma_update_rest(
    j: Json,
    w: AroundView,
    a: AgentRecord,
    to: AgentState,
    claims: Seq<ClaimView>,
) -> (rest: Seq<(Seq<char>, Json)>)
    ensures
        left_out(rest),
        update_members(j, w, a, to, claims) == update_core(j, w, a, to, claims) + rest,
{
    let core = update_core(j, w, a, to, claims);
    let note = crate::izakaya::presence::if_given(
        j,
        "note"@,
        crate::izakaya::presence::note_given(j),
    );
    let summary = crate::izakaya::presence::if_given(
        j,
        "summary"@,
        crate::izakaya::presence::summary_given(j),
    );
    let role = crate::izakaya::presence::if_given(j, "role"@, json_opt_str(arg(j, "role"@)));
    let task = crate::izakaya::presence::if_given(j, "task"@, json_opt_str(arg(j, "task"@)));
    let mas = crate::izakaya::presence::if_given(
        j,
        "mas_session"@,
        json_opt_str(arg(j, "mas_session"@)),
    );
    let git = crate::izakaya::presence::git_members(observed(j, w.git, w.root));
    lemma_left_out(note, summary);
    lemma_left_out(note + summary, role);
    lemma_left_out(note + summary + role, task);
    lemma_left_out(note + summary + role + task, mas);
    lemma_left_out(note + summary + role + task + mas, git);
    let rest = note + summary + role + task + mas + git;
    assert(update_members(j, w, a, to, claims) =~= core + rest);
    rest
}

/// What is written of a change: the new state, when the lease ends, and what replaces
/// what.
pub proof fn law_what_a_change_writes(
    j: Json,
    w: AroundView,
    a: AgentRecord,
    to: AgentState,
    claims: Seq<ClaimView>,
)
    ensures
        ({
            let b = record(update_members(j, w, a, to, claims));
            &&& get(b, "ack_seqs"@) == Some(match get(j, "ack_seqs"@) { Some(v) => v, None => Json::Array(Seq::empty()) })
            &&& get(b, "blockers"@) == Some(json_strs(arg_list(j, "blockers"@)))
            &&& get(b, "checkpoint"@) == Some(json_opt_str(match arg(j, "checkpoint"@) { Some(c) => Some(c), None => a.checkpoint }))
            &&& get(b, "claims"@) == Some(claims_json(claims))
            &&& get(b, "dirty_paths"@) == Some(json_strs(if get(j, "dirty_paths"@) is Some { arg_list(j, "dirty_paths"@) } else if bool_or(j, "observe_git"@, true) { w.git.dirty_paths } else { a.dirty_paths }))
            &&& get(b, "expires_at"@) == Some(Json::UInt(lasting(w.now, ttl_after(j, w, a, to))))
            &&& get(b, "replace_blockers"@) == Some(Json::Bool(get(j, "blockers"@) is Some))
            &&& get(b, "replace_claims"@) == Some(Json::Bool(get(j, "claims"@) is Some))
            &&& get(b, "replace_dirty"@) == Some(Json::Bool(get(j, "dirty_paths"@) is Some || bool_or(j, "observe_git"@, true)))
            &&& get(b, "revision"@) == Some(Json::UInt((a.revision + 1) as u64))
            &&& get(b, "state"@) == Some(Json::Str(state_name(to)))
        }),
{
    let core = update_core(j, w, a, to, claims);
    let rest = lemma_update_rest(j, w, a, to, claims);
    let ms = core + rest;
    reveal_strlit("ack_seqs");
    reveal_strlit("blockers");
    reveal_strlit("checkpoint");
    reveal_strlit("claims");
    reveal_strlit("dirty_paths");
    reveal_strlit("expires_at");
    reveal_strlit("replace_blockers");
    reveal_strlit("replace_claims");
    reveal_strlit("replace_dirty");
    reveal_strlit("revision");
    reveal_strlit("state");
    reveal_strlit("note");
    reveal_strlit("summary");
    reveal_strlit("role");
    reveal_strlit("task");
    reveal_strlit("mas_session");
    reveal_strlit("base_oid");
    reveal_strlit("branch");
    reveal_strlit("head_oid");
    assert("ack_seqs"@.len() == 8);
    assert("blockers"@.len() == 8);
    assert("checkpoint"@.len() == 10);
    assert("claims"@.len() == 6);
    assert("dirty_paths"@.len() == 11);
    assert("expires_at"@.len() == 10);
    assert("replace_blockers"@.len() == 16);
    assert("replace_claims"@.len() == 14);
    assert("replace_dirty"@.len() == 13);
    assert("revision"@.len() == 8);
    assert("state"@.len() == 5);
    assert("note"@.len() == 4);
    assert("summary"@.len() == 7);
    assert("role"@.len() == 4);
    assert("task"@.len() == 4);
    assert("mas_session"@.len() == 11);
    assert("base_oid"@.len() == 8);
    assert("branch"@.len() == 6);
    assert("head_oid"@.len() == 8);
    assert("ack_seqs"@[0] == 'a');
    assert("blockers"@[0] == 'b');
    assert("blockers"@[1] == 'l');
    assert("checkpoint"@[0] == 'c');
    assert("claims"@[0] == 'c');
    assert("dirty_paths"@[0] == 'd');
    assert("expires_at"@[0] == 'e');
    assert("revision"@[0] == 'r');
    assert("note"@[0] == 'n');
    assert("role"@[0] == 'r');
    assert("task"@[0] == 't');
    assert("mas_session"@[0] == 'm');
    assert("base_oid"@[0] == 'b');
    assert("base_oid"@[1] == 'a');
    assert("branch"@[0] == 'b');
    assert("head_oid"@[0] == 'h');
    assert(ms[0].0 == "ack_seqs"@);
    assert(ms[1].0 == "blockers"@);
    assert(ms[2].0 == "checkpoint"@);
    assert(ms[3].0 == "claims"@);
    assert(ms[4].0 == "dirty_paths"@);
    assert(ms[5].0 == "expires_at"@);
    assert(ms[6].0 == "replace_blockers"@);
    assert(ms[7].0 == "replace_claims"@);
    assert(ms[8].0 == "replace_dirty"@);
    assert(ms[9].0 == "revision"@);
    assert(ms[10].0 == "state"@);
    assert forall|i: int| 0 < i < ms.len() implies (#[trigger] ms[i]).0 != "ack_seqs"@ by {
        if i >= 11 {
            assert(ms[i] == rest[i - 11]);
        }
    }
    lemma_record_get(ms, 0);
    assert forall|i: int| 1 < i < ms.len() implies (#[trigger] ms[i]).0 != "blockers"@ by {
        if i >= 11 {
            assert(ms[i] == rest[i - 11]);
        }
    }
    lemma_record_get(ms, 1);
    assert forall|i: int| 2 < i < ms.len() implies (#[trigger] ms[i]).0 != "checkpoint"@ by {
        if i >= 11 {
            assert(ms[i] == rest[i - 11]);
        }
    }
    lemma_record_get(ms, 2);
    assert forall|i: int| 3 < i < ms.len() implies (#[trigger] ms[i]).0 != "claims"@ by {
        if i >= 11 {
            assert(ms[i] == rest[i - 11]);
        }
    }
    lemma_record_get(ms, 3);
    assert forall|i: int| 4 < i < ms.len() implies (#[trigger] ms[i]).0 != "dirty_paths"@ by {
        if i >= 11 {
            assert(ms[i] == rest[i - 11]);
        }
    }
    lemma_record_get(ms, 4);
    assert forall|i: int| 5 < i < ms.len() implies (#[trigger] ms[i]).0 != "expires_at"@ by {
        if i >= 11 {
            assert(ms[i] == rest[i - 11]);
        }
    }
    lemma_record_get(ms, 5);
    assert forall|i: int| 6 < i < ms.len() implies (#[trigger] ms[i]).0 != "replace_blockers"@ by {
        if i >= 11 {
            assert(ms[i] == rest[i - 11]);
        }
    }
    lemma_record_get(ms, 6);
    assert forall|i: int| 7 < i < ms.len() implies (#[trigger] ms[i]).0 != "replace_claims"@ by {
        if i >= 11 {
            assert(ms[i] == rest[i - 11]);
        }
    }
    lemma_record_get(ms, 7);
    assert forall|i: int| 8 < i < ms.len() implies (#[trigger] ms[i]).0 != "replace_dirty"@ by {
        if i >= 11 {
            assert(ms[i] == rest[i - 11]);
        }
    }
    lemma_record_get(ms, 8);
    assert forall|i: int| 9 < i < ms.len() implies (#[trigger] ms[i]).0 != "revision"@ by {
        if i >= 11 {
            assert(ms[i] == rest[i - 11]);
        }
    }
    lemma_record_get(ms, 9);
    assert forall|i: int| 10 < i < ms.len() implies (#[trigger] ms[i]).0 != "state"@ by {
        if i >= 11 {
            assert(ms[i] == rest[i - 11]);
        }
    }
    lemma_record_get(ms, 10);
}

/// What is written of one who leaves: why, and the capsule where work is handed off.
pub proof fn law_what_a_check_out_writes(
    p: ProjectionView,
    j: Json,
    w: AroundView,
    a: AgentRecord,
    reason: Seq<char>,
)
    ensures
        ({
            let b = record(check_out_members(p, j, w, a, reason));
            &&& get(b, "reason"@) == Some(Json::Str(reason))
            &&& get(b, "revision"@) == Some(Json::UInt((a.revision + 1) as u64))
            &&& match handoff_given(j) {
                Some(h) => get(b, "handoff"@) == Some(
                    record(crate::izakaya::presence::capsule(h, "h"@ + dec((p.seq + 1) as nat))),
                ),
                None => get(b, "handoff"@) is None,
            }
        }),
{
    let ms = check_out_members(p, j, w, a, reason);
    reveal_strlit("mas_note");
    reveal_strlit("reason");
    reveal_strlit("revision");
    reveal_strlit("handoff");
    assert("mas_note"@.len() == 8);
    assert("reason"@.len() == 6);
    assert("revision"@.len() == 8);
    assert("handoff"@.len() == 7);
    assert("mas_note"@[0] == 'm');
    assert("revision"@[0] == 'r');
    assert(ms[1].0 == "reason"@ && ms[2].0 == "revision"@ && ms[0].0 == "mas_note"@);
    lemma_record_get(ms, 1);
    lemma_record_get(ms, 2);
    match handoff_given(j) {
        Some(h) => {
            assert(ms[3].0 == "handoff"@);
            lemma_record_get(ms, 3);
        },
        None => {
            assert(ms.len() == 3);
            crate::json::lemma_record_none(ms, "handoff"@);
        },
    }
}

/// What a capsule for a handoff holds.
pub proof fn law_what_a_capsule_holds(
    h: Json,
    id: Seq<char>,
)
    ensures
        ({
            let b = record(crate::izakaya::presence::capsule(h, id));
            &&& get(b, "anchors"@) == Some(json_strs(arg_list(h, "anchors"@)))
            &&& get(b, "artifacts"@) == Some(json_strs(arg_list(h, "artifacts"@)))
            &&& get(b, "checkpoint"@) == Some(json_opt_str(as_str(get(h, "checkpoint"@))))
            &&& get(b, "commands"@) == Some(json_strs(arg_list(h, "commands"@)))
            &&& get(b, "constraints"@) == Some(json_strs(arg_list(h, "constraints"@)))
            &&& get(b, "id"@) == Some(Json::Str(id))
            &&& get(b, "mas_entry_id"@) == Some(crate::json::json_opt_u64(as_u64(get(h, "mas_entry_id"@))))
            &&& get(b, "mas_session"@) == Some(json_opt_str(some_str(h, "mas_session"@)))
            &&& get(b, "note_ref"@) == Some(json_opt_str(as_str(get(h, "note_ref"@))))
            &&& get(b, "run_ids"@) == Some(json_strs(arg_list(h, "run_ids"@)))
            &&& get(b, "summary"@) == Some(Json::Str(crate::izakaya::model::bounded(str_or(h, "summary"@, ""@), crate::izakaya::model::MAX_SUMMARY as nat)))
            &&& get(b, "to"@) == Some(Json::Str(str_or(h, "to"@, ""@)))
        }),
{
    let ms = crate::izakaya::presence::capsule(h, id);
    reveal_strlit("anchors");
    reveal_strlit("artifacts");
    reveal_strlit("checkpoint");
    reveal_strlit("commands");
    reveal_strlit("constraints");
    reveal_strlit("id");
    reveal_strlit("mas_entry_id");
    reveal_strlit("mas_session");
    reveal_strlit("note_ref");
    reveal_strlit("run_ids");
    reveal_strlit("summary");
    reveal_strlit("to");
    assert("anchors"@.len() == 7);
    assert("artifacts"@.len() == 9);
    assert("checkpoint"@.len() == 10);
    assert("commands"@.len() == 8);
    assert("constraints"@.len() == 11);
    assert("id"@.len() == 2);
    assert("mas_entry_id"@.len() == 12);
    assert("mas_session"@.len() == 11);
    assert("note_ref"@.len() == 8);
    assert("run_ids"@.len() == 7);
    assert("summary"@.len() == 7);
    assert("to"@.len() == 2);
    assert("anchors"@[0] == 'a');
    assert("commands"@[0] == 'c');
    assert("constraints"@[0] == 'c');
    assert("id"@[0] == 'i');
    assert("mas_session"@[0] == 'm');
    assert("note_ref"@[0] == 'n');
    assert("run_ids"@[0] == 'r');
    assert("summary"@[0] == 's');
    assert("to"@[0] == 't');
    assert(ms[0].0 == "anchors"@);
    assert(ms[1].0 == "artifacts"@);
    assert(ms[2].0 == "checkpoint"@);
    assert(ms[3].0 == "commands"@);
    assert(ms[4].0 == "constraints"@);
    assert(ms[5].0 == "id"@);
    assert(ms[6].0 == "mas_entry_id"@);
    assert(ms[7].0 == "mas_session"@);
    assert(ms[8].0 == "note_ref"@);
    assert(ms[9].0 == "run_ids"@);
    assert(ms[10].0 == "summary"@);
    assert(ms[11].0 == "to"@);
    lemma_record_get(ms, 0);
    lemma_record_get(ms, 1);
    lemma_record_get(ms, 2);
    lemma_record_get(ms, 3);
    lemma_record_get(ms, 4);
    lemma_record_get(ms, 5);
    lemma_record_get(ms, 6);
    lemma_record_get(ms, 7);
    lemma_record_get(ms, 8);
    lemma_record_get(ms, 9);
    lemma_record_get(ms, 10);
    lemma_record_get(ms, 11);
}

/// Observed is the state of the work tree, unless that is declined.
pub proof fn law_work_tree_is_observed(j: Json, git: crate::izakaya::store::GitView, root: Seq<char>)
    ensures
        bool_or(j, "observe_git"@, true) ==> observed(j, git, root) == git,
        !bool_or(j, "observe_git"@, true) ==> {
            let g = observed(j, git, root);
            g.branch.len() == 0 && g.head_oid.len() == 0 && g.base_oid.len() == 0
                && g.dirty_paths.len() == 0 && g.worktree == root
        },
{
    reveal_strlit("");
}

// ---------------------------------------------------------------------------
// What becomes of it

proof fn lemma_offer_at(hs: Seq<HandoffView>, id: Seq<char>, from: int)
    requires
        0 <= from <= hs.len(),
    ensures
        match offer_at(hs, id, from) {
            Some(i) => from <= i < hs.len() && hs[i].id == id && hs[i].status == "offered"@
                && forall|j: int|
                from <= j < i ==> !((#[trigger] hs[j]).id == id && hs[j].status == "offered"@),
            None => forall|j: int|
                from <= j < hs.len() ==> !((#[trigger] hs[j]).id == id && hs[j].status
                    == "offered"@),
        },
    decreases hs.len() - from,
{
    if from < hs.len() && !(hs[from].id == id && hs[from].status == "offered"@) {
        lemma_offer_at(hs, id, from + 1);
    }
}

/// Taking up what was handed off changes the first open offer of that name and nothing
/// else: it is accepted, by the one who takes it up.
pub proof fn law_taken_up_handoff(
    hs: Seq<HandoffView>,
    id: Seq<char>,
    agent: Seq<char>,
    i: int,
)
    requires
        0 <= i < hs.len(),
    ensures
        ({
            let t = taken_up(hs, Some(id), agent);
            let open = hs[i].id == id && hs[i].status == "offered"@;
            let first = forall|j: int|
                0 <= j < i ==> !((#[trigger] hs[j]).id == id && hs[j].status == "offered"@);
            &&& t.len() == hs.len()
            &&& open && first ==> t[i].status == "accepted"@ && t[i].accepted_by == Some(agent)
                && t[i].id == hs[i].id && t[i].from == hs[i].from && t[i].to == hs[i].to
                && t[i].summary == hs[i].summary
            &&& !(open && first) ==> t[i] == hs[i]
        }),
        taken_up(hs, None, agent) == hs,
{
    lemma_offer_at(hs, id, 0);
}

/// A list with a limit takes up what is new at its end, and drops its first item where it
/// is full.
pub proof fn law_full_lists_drop_the_oldest<T>(s: Seq<T>, x: T, max: nat)
    requires
        max > 0,
    ensures
        pushed(s, x, max).last() == x,
        s.len() < max ==> pushed(s, x, max) == s.push(x),
        s.len() >= max ==> pushed(s, x, max) == s.skip(1).push(x),
{
    if s.len() >= max {
        assert(s.drop_first() =~= s.skip(1));
    }
}

/// A note is read once its number is acknowledged by the one it is for, or, for all, by
/// anyone; and it stays read.
pub proof fn law_notes_are_read(m: NoteView, acks: Seq<Json>, agent: Seq<char>)
    ensures
        ({
            let r = acknowledged(m, acks, agent);
            &&& r.seq == m.seq && r.from == m.from && r.to == m.to && r.body == m.body
            &&& r.acked <==> m.acked || ((m.to == agent || m.to.len() == 0) && exists|i: int|
                0 <= i < acks.len() && as_u64(Some(#[trigger] acks[i])) == Some(m.seq))
        }),
{
}

/// A promoted policy is the active one, and the one that was active before is retired.
pub proof fn law_promoted_policy_is_active(p: ProjectionView, e: EventView, i: int)
    requires
        e.kind == "policy_promote"@,
        0 <= i < p.policies.len(),
    ensures
        ({
            let id = str_or(e.body, "id"@, ""@);
            let q = applied(p, e);
            &&& id.len() > 0 ==> q.active_policy == Some(id) && q.policies.len() == p.policies.len()
                + 1 && q.policies.last().id == id && q.policies.last().status == "active"@
                && q.policies[i].id == p.policies[i].id && q.policies[i].status == (if p.policies[i].status
                == "active"@ {
                "retired"@
            } else {
                p.policies[i].status
            })
            &&& id.len() == 0 ==> q.policies == p.policies && q.active_policy == p.active_policy
        }),
{
    reveal_strlit("check_in");
    reveal_strlit("update");
    reveal_strlit("check_out");
    reveal_strlit("policy_promote");
    reveal_strlit("policy_retire");
    reveal_strlit("decision");
    reveal_strlit("outcome");
    reveal_strlit("malformed");
    assert("check_in"@.len() == 8);
    assert("update"@.len() == 6);
    assert("check_out"@.len() == 9);
    assert("policy_promote"@.len() == 14);
    assert("policy_retire"@.len() == 13);
    assert("decision"@.len() == 8);
    assert("outcome"@.len() == 7);
    assert("malformed"@.len() == 9);
    assert("check_in"@[0] == 'c');
    assert("check_out"@[0] == 'c');
    assert("decision"@[0] == 'd');
    assert("malformed"@[0] == 'm');
}

/// A retired policy is active no more, and the others stay as they are.
pub proof fn law_retired_policy_is_not_active(p: ProjectionView, e: EventView, i: int)
    requires
        e.kind == "policy_retire"@,
        0 <= i < p.policies.len(),
    ensures
        ({
            let id = str_or(e.body, "id"@, ""@);
            let q = applied(p, e);
            &&& q.policies.len() == p.policies.len()
            &&& p.policies[i].id == id ==> q.policies[i].status == "retired"@
            &&& p.policies[i].id != id ==> q.policies[i] == p.policies[i]
            &&& q.active_policy == if p.active_policy == Some(id) {
                None
            } else {
                p.active_policy
            }
        }),
{
    reveal_strlit("check_in");
    reveal_strlit("update");
    reveal_strlit("check_out");
    reveal_strlit("policy_promote");
    reveal_strlit("policy_retire");
    reveal_strlit("decision");
    reveal_strlit("outcome");
    reveal_strlit("malformed");
    assert("check_in"@.len() == 8);
    assert("update"@.len() == 6);
    assert("check_out"@.len() == 9);
    assert("policy_promote"@.len() == 14);
    assert("policy_retire"@.len() == 13);
    assert("decision"@.len() == 8);
    assert("outcome"@.len() == 7);
    assert("malformed"@.len() == 9);
    assert("check_in"@[0] == 'c');
    assert("check_out"@[0] == 'c');
    assert("decision"@[0] == 'd');
    assert("malformed"@[0] == 'm');
}

/// Decisions and outcomes leave the group as it is, and what is of no known kind is
/// counted.
pub proof fn law_what_changes_nothing(p: ProjectionView, e: EventView)
    ensures
        e.kind == "decision"@ || e.kind == "outcome"@ ==> applied(p, e).agents == p.agents
            && applied(p, e).handoffs == p.handoffs && applied(p, e).messages == p.messages
            && applied(p, e).policies == p.policies && applied(p, e).malformed == p.malformed
            && applied(p, e).updated_at == e.ts,
        e.kind != "check_in"@ && e.kind != "update"@ && e.kind != "check_out"@ && e.kind
            != "policy_promote"@ && e.kind != "policy_retire"@ && e.kind != "decision"@ && e.kind
            != "outcome"@ ==> applied(p, e).malformed == p.malformed + 1 && applied(p, e).agents
            == p.agents && applied(p, e).handoffs == p.handoffs,
        e.kind == "check_in"@ || e.kind == "update"@ || e.kind == "check_out"@ || e.kind
            == "policy_promote"@ || e.kind == "policy_retire"@ ==> applied(p, e).malformed
            == p.malformed,
        e.kind != "malformed"@ && e.seq > 0 ==> applied(p, e).seq == e.seq,
        e.kind != "malformed"@ && e.seq == 0 ==> applied(p, e).seq == p.seq,
{
    reveal_strlit("check_in");
    reveal_strlit("update");
    reveal_strlit("check_out");
    reveal_strlit("policy_promote");
    reveal_strlit("policy_retire");
    reveal_strlit("decision");
    reveal_strlit("outcome");
    reveal_strlit("malformed");
    assert("check_in"@.len() == 8);
    assert("update"@.len() == 6);
    assert("check_out"@.len() == 9);
    assert("policy_promote"@.len() == 14);
    assert("policy_retire"@.len() == 13);
    assert("decision"@.len() == 8);
    assert("outcome"@.len() == 7);
    assert("malformed"@.len() == 9);
    assert("check_in"@[0] == 'c');
    assert("check_out"@[0] == 'c');
    assert("decision"@[0] == 'd');
    assert("malformed"@[0] == 'm');
}

/// What is said of a handoff: once accepted it is accepted; offered, it is orphaned where
/// the giver and the taker are gone and it is old enough; else it is offered.
pub proof fn law_status_of_a_handoff(
    h: HandoffView,
    agents: Seq<(Seq<char>, AgentRecord)>,
    now: u64,
    orphan_secs: u64,
)
    ensures
        ({
            let here = |id: Seq<char>|
                at(agents, id) matches Some(a) && a.state != "checked_out"@;
            let old = (if now > h.created_at {
                now - h.created_at
            } else {
                0
            }) >= orphan_secs;
            let lost = !here(h.from) && (h.to.len() == 0 || !here(h.to)) && old;
            let s = handoff_status(h, agents, now, orphan_secs);
            &&& h.status == "accepted"@ ==> s == "accepted"@
            &&& h.status != "accepted"@ && lost ==> s == "orphaned"@
            &&& h.status != "accepted"@ && !lost ==> s == "offered"@
        }),
{
}

} // verus!

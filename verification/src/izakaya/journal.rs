//! What is written to the journal, and what is kept of the projection, comes back
//! as it was.
use vstd::prelude::*;
use crate::izakaya::model::{claim_from, claim_json, ClaimView, SCHEMA_VERSION};
use crate::izakaya::records::{
    agent_from, agent_json, claims_json, handoff_from, handoff_json, note_from, note_json,
    policy_from, policy_json, AgentRecord, HandoffView, HitView, NoteView, PolicyView,
};
use crate::izakaya::store::{
    agents_from, event_from, event_json, hit_json, hits_from, journal_events, journal_lines,
    line_event, list_at, projection_from, projection_json, torn, Event, EventView, ProjectionView,
};
use crate::json::{
    compact, get, json_compact, json_strs, lemma_texts_of_strs, plain, serde_held,
    strings_at, Json,
};
use crate::smap::{ascending, lemma_put_index, put};
use crate::text::{has_char, is_char, lemma_split_concat, lemma_split_one, split_on, trimmed};

verus! {

// ---------------------------------------------------------------------------
// Members

/// No text occurs twice.
spec fn distinct(v: Seq<Seq<char>>) -> bool {
    forall|i: int, j: int| 0 <= i < j < v.len() ==> (#[trigger] v[i]) != (#[trigger] v[j])
}

/// Every member of an object whose names are distinct is found under its name.
proof fn lemma_members(ms: Seq<(Seq<char>, Json)>, keys: Seq<Seq<char>>)
    requires
        distinct(keys),
        ms.len() == keys.len(),
        forall|i: int| 0 <= i < ms.len() ==> (#[trigger] ms[i]).0 == keys[i],
    ensures
        forall|i: int|
            0 <= i < ms.len() ==> get(Json::Object(ms), (#[trigger] ms[i]).0) == Some(ms[i].1),
{
    assert forall|i: int| 0 <= i < ms.len() implies get(Json::Object(ms), (#[trigger] ms[i]).0)
        == Some(ms[i].1) by {
        assert forall|j: int| 0 <= j < i implies (#[trigger] ms[j]).0 != ms[i].0 by {
            assert(keys[j] != keys[i]);
        }
        crate::json::lemma_lookup_at(ms, ms[i].0);
        crate::smap::lemma_at_index(ms, ms[i].0, i);
    }
}

/// The texts at a member are read as they were written.
proof fn lemma_texts_back(j: Json, key: Seq<char>, v: Seq<Seq<char>>)
    requires
        get(j, key) == Some(json_strs(v)),
    ensures
        strings_at(j, key) == v,
{
    lemma_texts_of_strs(v);
    assert(Seq::new(v.len(), |i: int| Json::Str(v[i])) =~= v.map_values(
        |s: Seq<char>| Json::Str(s),
    ));
}

/// Values that are all read, each as it was.
proof fn lemma_all_back<A, B>(s: Seq<A>, f: spec_fn(A) -> Option<B>, t: Seq<B>)
    requires
        s.len() == t.len(),
        forall|i: int| 0 <= i < s.len() ==> f(#[trigger] s[i]) == Some(t[i]),
    ensures
        s.filter_map(f) == t,
    decreases s.len(),
{
    reveal(Seq::filter_map);
    if s.len() > 0 {
        assert forall|i: int| 0 <= i < s.drop_last().len() implies f(#[trigger] s.drop_last()[i])
            == Some(t.drop_last()[i]) by {
            assert(f(s[i]) == Some(t[i]));
        }
        lemma_all_back(s.drop_last(), f, t.drop_last());
        assert(f(s[s.len() - 1]) == Some(t[t.len() - 1]));
        assert(t.drop_last() + seq![t.last()] =~= t);
    } else {
        assert(s.filter_map(f) =~= t);
    }
}

// ---------------------------------------------------------------------------
// The journal

/// An event that the journal gives back: of a known version, its key not empty, and
/// its body made of what a line can hold.
pub open spec fn journaled(e: EventView) -> bool {
    &&& e.v <= SCHEMA_VERSION
    &&& tidy(e.idempotency_key)
    &&& plain(event_json(e), 100)
}

/// A text that, where there is one, is not empty.
pub open spec fn tidy(s: Option<Seq<char>>) -> bool {
    s matches Some(t) ==> t.len() > 0
}

/// The names of the members of an event, in order.
spec fn event_keys() -> Seq<Seq<char>> {
    seq![
        "agent_id"@,
        "body"@,
        "id"@,
        "idempotency_key"@,
        "kind"@,
        "lease_id"@,
        "result"@,
        "seq"@,
        "ts"@,
        "v"@,
    ]
}

proof fn lemma_event_keys()
    ensures
        distinct(event_keys()),
{
    reveal_strlit("agent_id");
    reveal_strlit("body");
    reveal_strlit("id");
    reveal_strlit("idempotency_key");
    reveal_strlit("kind");
    reveal_strlit("lease_id");
    reveal_strlit("result");
    reveal_strlit("seq");
    reveal_strlit("ts");
    reveal_strlit("v");
    assert("agent_id"@.len() == 8 && "agent_id"@[0] == 'a');
    assert("body"@.len() == 4 && "body"@[0] == 'b');
    assert("id"@.len() == 2 && "id"@[0] == 'i');
    assert("idempotency_key"@.len() == 15);
    assert("kind"@.len() == 4 && "kind"@[0] == 'k');
    assert("lease_id"@.len() == 8 && "lease_id"@[0] == 'l');
    assert("result"@.len() == 6);
    assert("seq"@.len() == 3);
    assert("ts"@.len() == 2 && "ts"@[0] == 't');
    assert("v"@.len() == 1);
}

/// An event comes back as it was written.
pub proof fn law_event_comes_back(e: EventView)
    requires
        e.v <= SCHEMA_VERSION,
        tidy(e.idempotency_key),
    ensures
        event_from(event_json(e)) == Ok::<EventView, Seq<char>>(e),
{
    let ms = event_json(e)->Object_0;
    lemma_event_keys();
    assert forall|i: int| 0 <= i < ms.len() implies (#[trigger] ms[i]).0 == event_keys()[i] by {}
    lemma_members(ms, event_keys());
    assert(get(event_json(e), ms[0].0) == Some(ms[0].1));
    assert(get(event_json(e), ms[1].0) == Some(ms[1].1));
    assert(get(event_json(e), ms[2].0) == Some(ms[2].1));
    assert(get(event_json(e), ms[3].0) == Some(ms[3].1));
    assert(get(event_json(e), ms[4].0) == Some(ms[4].1));
    assert(get(event_json(e), ms[5].0) == Some(ms[5].1));
    assert(get(event_json(e), ms[6].0) == Some(ms[6].1));
    assert(get(event_json(e), ms[7].0) == Some(ms[7].1));
    assert(get(event_json(e), ms[8].0) == Some(ms[8].1));
    assert(get(event_json(e), ms[9].0) == Some(ms[9].1));
}

/// The line that journals an event. Nothing is said of reading back an event whose
/// body holds a number that is no integer of 64 bits or is nested very deep.
pub fn journal_line(e: &Event) -> (r: String)
    ensures
        r@ == json_compact(serde_held(event_json(e@))),
        journal_entry(r@),
        journaled(e@) ==> line_event(r@) == Some(e@),
{
    proof {
        if journaled(e@) {
            law_event_comes_back(e@);
        }
    }
    compact(&e.to_value())
}

/// A line that can stand in a journal: it is not blank, and it is one line.
pub open spec fn journal_entry(line: Seq<char>) -> bool {
    !has_char(line, '\n') && trimmed(line).len() > 0
}

proof fn lemma_more_lines(lines: Seq<Seq<char>>, line: Seq<char>, n: nat)
    requires
        n <= lines.len(),
        !torn(lines),
    ensures
        journal_events(lines.push(line), n) == journal_events(lines, n),
    decreases n,
{
    if n > 0 {
        lemma_more_lines(lines, line, (n - 1) as nat);
        assert(lines.push(line)[n - 1] == lines[n - 1]);
    }
}

/// A journal to which the line of an event is appended reads as before, with that
/// event behind the others.
pub proof fn law_appended_event_is_read(text: Seq<char>, line: Seq<char>, e: EventView)
    requires
        text.len() == 0 || text.last() == '\n',
        !torn(journal_lines(text)),
        journal_entry(line),
        line_event(line) == Some(e),
    ensures
        ({
            let before = journal_lines(text);
            let after = journal_lines(text + line.push('\n'));
            &&& journal_events(after, after.len()) == journal_events(before, before.len()).push(e)
            &&& !torn(after)
        }),
{
    let ended = line.push('\n');
    lemma_split_concat(text, ended, is_char('\n'));
    lemma_split_one(line);
    assert(ended.drop_last() =~= line);
    assert(split_on(ended, '\n') =~= seq![line, Seq::<char>::empty()]);
    let before = journal_lines(text);
    let after = journal_lines(text + ended);
    assert(before =~= split_on(text, '\n').drop_last());
    let all = split_on(text + ended, '\n');
    assert(all.last().len() == 0);
    assert(after =~= before.push(line));
    lemma_more_lines(before, line, before.len());
    assert(after[after.len() - 1] == line);
}

/// Lines written one behind the other.
pub open spec fn journal_text(lines: Seq<Seq<char>>) -> Seq<char>
    decreases lines.len(),
{
    if lines.len() == 0 {
        Seq::empty()
    } else {
        journal_text(lines.drop_last()) + lines.last().push('\n')
    }
}

/// A journal gives back the events that were written to it, line for line.
pub proof fn law_journal_comes_back(lines: Seq<Seq<char>>, events: Seq<EventView>)
    requires
        lines.len() == events.len(),
        forall|i: int| 0 <= i < lines.len() ==> journal_entry(#[trigger] lines[i]),
        forall|i: int|
            0 <= i < lines.len() ==> line_event(#[trigger] lines[i]) == Some(events[i]),
    ensures
        ({
            let read = journal_lines(journal_text(lines));
            &&& journal_events(read, read.len()) == events
            &&& !torn(read)
        }),
        journal_text(lines).len() == 0 || journal_text(lines).last() == '\n',
    decreases lines.len(),
{
    if lines.len() == 0 {
        assert(split_on(journal_text(lines), '\n') =~= seq![Seq::<char>::empty()]);
        let read = journal_lines(journal_text(lines));
        assert(read.len() == 0);
        assert(journal_events(read, 0) =~= events);
    } else {
        let front = lines.drop_last();
        let less = events.drop_last();
        assert forall|i: int| 0 <= i < front.len() implies journal_entry(#[trigger] front[i]) by {
            assert(journal_entry(lines[i]));
        }
        assert forall|i: int| 0 <= i < front.len() implies line_event(#[trigger] front[i])
            == Some(less[i]) by {
            assert(line_event(lines[i]) == Some(events[i]));
        }
        law_journal_comes_back(front, less);
        assert(journal_entry(lines[lines.len() - 1]));
        assert(line_event(lines[lines.len() - 1]) == Some(events[events.len() - 1]));
        law_appended_event_is_read(journal_text(front), lines.last(), events.last());
        assert(less.push(events.last()) =~= events);
    }
}

// ---------------------------------------------------------------------------
// The records of the projection

/// An agent that is read as it was written: the texts that it may have are not
/// empty, and its claims are as they are read.
pub open spec fn tidy_agent(a: AgentRecord) -> bool {
    &&& tidy(a.mas_session)
    &&& tidy(a.checkpoint)
    &&& tidy(a.checkout_reason)
    &&& forall|i: int|
        0 <= i < a.claims.len() ==> claim_from(claim_json(#[trigger] a.claims[i])) == Some(
            a.claims[i],
        )
}

/// The names of the members of an agent, in order.
spec fn agent_keys() -> Seq<Seq<char>> {
    seq![
        "agent_id"@,
        "base_oid"@,
        "blockers"@,
        "branch"@,
        "checked_in_at"@,
        "checkout_reason"@,
        "checkpoint"@,
        "claims"@,
        "dirty_paths"@,
        "expires_at"@,
        "head_oid"@,
        "last_seen_at"@,
        "lease_id"@,
        "mas_session"@,
        "revision"@,
        "role"@,
        "state"@,
        "summary"@,
        "task"@,
        "ttl_secs"@,
        "workspace_id"@,
        "worktree"@,
    ]
}

proof fn lemma_agent_keys()
    ensures
        distinct(agent_keys()),
{
    reveal_strlit("agent_id");
    reveal_strlit("base_oid");
    reveal_strlit("blockers");
    reveal_strlit("branch");
    reveal_strlit("checked_in_at");
    reveal_strlit("checkout_reason");
    reveal_strlit("checkpoint");
    reveal_strlit("claims");
    reveal_strlit("dirty_paths");
    reveal_strlit("expires_at");
    reveal_strlit("head_oid");
    reveal_strlit("last_seen_at");
    reveal_strlit("lease_id");
    reveal_strlit("mas_session");
    reveal_strlit("revision");
    reveal_strlit("role");
    reveal_strlit("state");
    reveal_strlit("summary");
    reveal_strlit("task");
    reveal_strlit("ttl_secs");
    reveal_strlit("workspace_id");
    reveal_strlit("worktree");
    assert("agent_id"@.len() == 8 && "agent_id"@[0] == 'a');
    assert("base_oid"@.len() == 8 && "base_oid"@[0] == 'b' && "base_oid"@[1] == 'a');
    assert("blockers"@.len() == 8 && "blockers"@[0] == 'b' && "blockers"@[1] == 'l');
    assert("branch"@.len() == 6 && "branch"@[0] == 'b');
    assert("checked_in_at"@.len() == 13);
    assert("checkout_reason"@.len() == 15);
    assert("checkpoint"@.len() == 10 && "checkpoint"@[0] == 'c');
    assert("claims"@.len() == 6 && "claims"@[0] == 'c');
    assert("dirty_paths"@.len() == 11 && "dirty_paths"@[0] == 'd');
    assert("expires_at"@.len() == 10 && "expires_at"@[0] == 'e');
    assert("head_oid"@.len() == 8 && "head_oid"@[0] == 'h');
    assert("last_seen_at"@.len() == 12 && "last_seen_at"@[0] == 'l');
    assert("lease_id"@.len() == 8 && "lease_id"@[0] == 'l');
    assert("mas_session"@.len() == 11 && "mas_session"@[0] == 'm');
    assert("revision"@.len() == 8 && "revision"@[0] == 'r');
    assert("role"@.len() == 4 && "role"@[0] == 'r');
    assert("state"@.len() == 5);
    assert("summary"@.len() == 7);
    assert("task"@.len() == 4 && "task"@[0] == 't');
    assert("ttl_secs"@.len() == 8 && "ttl_secs"@[0] == 't');
    assert("workspace_id"@.len() == 12 && "workspace_id"@[0] == 'w');
    assert("worktree"@.len() == 8 && "worktree"@[0] == 'w');
}

/// An agent comes back as it was kept.
pub proof fn law_agent_comes_back(a: AgentRecord)
    requires
        tidy_agent(a),
    ensures
        agent_from(agent_json(a)) == Some(a),
{
    let j = agent_json(a);
    let ms = j->Object_0;
    lemma_agent_keys();
    assert forall|i: int| 0 <= i < ms.len() implies (#[trigger] ms[i]).0 == agent_keys()[i] by {}
    lemma_members(ms, agent_keys());
    assert(get(j, ms[0].0) == Some(ms[0].1));
    assert(get(j, ms[1].0) == Some(ms[1].1));
    assert(get(j, ms[2].0) == Some(ms[2].1));
    assert(get(j, ms[3].0) == Some(ms[3].1));
    assert(get(j, ms[4].0) == Some(ms[4].1));
    assert(get(j, ms[5].0) == Some(ms[5].1));
    assert(get(j, ms[6].0) == Some(ms[6].1));
    assert(get(j, ms[7].0) == Some(ms[7].1));
    assert(get(j, ms[8].0) == Some(ms[8].1));
    assert(get(j, ms[9].0) == Some(ms[9].1));
    assert(get(j, ms[10].0) == Some(ms[10].1));
    assert(get(j, ms[11].0) == Some(ms[11].1));
    assert(get(j, ms[12].0) == Some(ms[12].1));
    assert(get(j, ms[13].0) == Some(ms[13].1));
    assert(get(j, ms[14].0) == Some(ms[14].1));
    assert(get(j, ms[15].0) == Some(ms[15].1));
    assert(get(j, ms[16].0) == Some(ms[16].1));
    assert(get(j, ms[17].0) == Some(ms[17].1));
    assert(get(j, ms[18].0) == Some(ms[18].1));
    assert(get(j, ms[19].0) == Some(ms[19].1));
    assert(get(j, ms[20].0) == Some(ms[20].1));
    assert(get(j, ms[21].0) == Some(ms[21].1));
    lemma_texts_back(j, "blockers"@, a.blockers);
    lemma_texts_back(j, "dirty_paths"@, a.dirty_paths);
    let items = claims_json(a.claims)->Array_0;
    let f = |c: Json| claim_from(c);
    assert forall|i: int| 0 <= i < items.len() implies f(#[trigger] items[i]) == Some(
        a.claims[i],
    ) by {
        assert(claim_from(claim_json(a.claims[i])) == Some(a.claims[i]));
    }
    lemma_all_back(items, f, a.claims);
}

/// A handoff that is read as it was written.
pub open spec fn tidy_handoff(h: HandoffView) -> bool {
    &&& h.status.len() > 0
    &&& tidy(h.mas_session)
    &&& tidy(h.note_ref)
    &&& tidy(h.checkpoint)
    &&& tidy(h.accepted_by)
}

/// The names of the members of a handoff, in order.
spec fn handoff_keys() -> Seq<Seq<char>> {
    seq![
        "accepted_by"@,
        "anchors"@,
        "artifacts"@,
        "checkpoint"@,
        "commands"@,
        "constraints"@,
        "created_at"@,
        "created_seq"@,
        "from"@,
        "id"@,
        "mas_entry_id"@,
        "mas_session"@,
        "note_ref"@,
        "run_ids"@,
        "status"@,
        "summary"@,
        "to"@,
    ]
}

proof fn lemma_handoff_keys()
    ensures
        distinct(handoff_keys()),
{
    reveal_strlit("accepted_by");
    reveal_strlit("anchors");
    reveal_strlit("artifacts");
    reveal_strlit("checkpoint");
    reveal_strlit("commands");
    reveal_strlit("constraints");
    reveal_strlit("created_at");
    reveal_strlit("created_seq");
    reveal_strlit("from");
    reveal_strlit("id");
    reveal_strlit("mas_entry_id");
    reveal_strlit("mas_session");
    reveal_strlit("note_ref");
    reveal_strlit("run_ids");
    reveal_strlit("status");
    reveal_strlit("summary");
    reveal_strlit("to");
    assert("accepted_by"@.len() == 11 && "accepted_by"@[0] == 'a');
    assert("anchors"@.len() == 7 && "anchors"@[0] == 'a');
    assert("artifacts"@.len() == 9);
    assert("checkpoint"@.len() == 10 && "checkpoint"@[1] == 'h');
    assert("commands"@.len() == 8 && "commands"@[0] == 'c');
    assert("constraints"@.len() == 11 && "constraints"@[0] == 'c' && "constraints"@[1] == 'o');
    assert("created_at"@.len() == 10 && "created_at"@[1] == 'r');
    assert("created_seq"@.len() == 11 && "created_seq"@[0] == 'c' && "created_seq"@[1] == 'r');
    assert("from"@.len() == 4);
    assert("id"@.len() == 2 && "id"@[0] == 'i');
    assert("mas_entry_id"@.len() == 12);
    assert("mas_session"@.len() == 11 && "mas_session"@[0] == 'm');
    assert("note_ref"@.len() == 8 && "note_ref"@[0] == 'n');
    assert("run_ids"@.len() == 7 && "run_ids"@[0] == 'r');
    assert("status"@.len() == 6);
    assert("summary"@.len() == 7 && "summary"@[0] == 's');
    assert("to"@.len() == 2 && "to"@[0] == 't');
}

/// A handoff comes back as it was kept.
pub proof fn law_handoff_comes_back(h: HandoffView)
    requires
        tidy_handoff(h),
    ensures
        handoff_from(handoff_json(h)) == Some(h),
{
    let j = handoff_json(h);
    let ms = j->Object_0;
    lemma_handoff_keys();
    assert forall|i: int| 0 <= i < ms.len() implies (#[trigger] ms[i]).0 == handoff_keys()[i] by {}
    lemma_members(ms, handoff_keys());
    assert(get(j, ms[0].0) == Some(ms[0].1));
    assert(get(j, ms[1].0) == Some(ms[1].1));
    assert(get(j, ms[2].0) == Some(ms[2].1));
    assert(get(j, ms[3].0) == Some(ms[3].1));
    assert(get(j, ms[4].0) == Some(ms[4].1));
    assert(get(j, ms[5].0) == Some(ms[5].1));
    assert(get(j, ms[6].0) == Some(ms[6].1));
    assert(get(j, ms[7].0) == Some(ms[7].1));
    assert(get(j, ms[8].0) == Some(ms[8].1));
    assert(get(j, ms[9].0) == Some(ms[9].1));
    assert(get(j, ms[10].0) == Some(ms[10].1));
    assert(get(j, ms[11].0) == Some(ms[11].1));
    assert(get(j, ms[12].0) == Some(ms[12].1));
    assert(get(j, ms[13].0) == Some(ms[13].1));
    assert(get(j, ms[14].0) == Some(ms[14].1));
    assert(get(j, ms[15].0) == Some(ms[15].1));
    assert(get(j, ms[16].0) == Some(ms[16].1));
    lemma_texts_back(j, "run_ids"@, h.run_ids);
    lemma_texts_back(j, "artifacts"@, h.artifacts);
    lemma_texts_back(j, "anchors"@, h.anchors);
    lemma_texts_back(j, "commands"@, h.commands);
    lemma_texts_back(j, "constraints"@, h.constraints);
}

/// The names of the members of a message, in order.
spec fn note_keys() -> Seq<Seq<char>> {
    seq![
        "acked"@,
        "body"@,
        "from"@,
        "seq"@,
        "to"@,
    ]
}

proof fn lemma_note_keys()
    ensures
        distinct(note_keys()),
{
    reveal_strlit("acked");
    reveal_strlit("body");
    reveal_strlit("from");
    reveal_strlit("seq");
    reveal_strlit("to");
    assert("acked"@.len() == 5);
    assert("body"@.len() == 4 && "body"@[0] == 'b');
    assert("from"@.len() == 4 && "from"@[0] == 'f');
    assert("seq"@.len() == 3);
    assert("to"@.len() == 2);
}

/// A message comes back as it was kept.
pub proof fn law_note_comes_back(n: NoteView)
    ensures
        note_from(note_json(n)) == n,
{
    let ms = note_json(n)->Object_0;
    lemma_note_keys();
    assert forall|i: int| 0 <= i < ms.len() implies (#[trigger] ms[i]).0 == note_keys()[i] by {}
    lemma_members(ms, note_keys());
    assert(get(note_json(n), ms[0].0) == Some(ms[0].1));
    assert(get(note_json(n), ms[1].0) == Some(ms[1].1));
    assert(get(note_json(n), ms[2].0) == Some(ms[2].1));
    assert(get(note_json(n), ms[3].0) == Some(ms[3].1));
    assert(get(note_json(n), ms[4].0) == Some(ms[4].1));
}

/// The names of the members of a policy, in order.
spec fn policy_keys() -> Seq<Seq<char>> {
    seq![
        "id"@,
        "profile"@,
        "report_hash"@,
        "spec"@,
        "status"@,
        "support"@,
    ]
}

proof fn lemma_policy_keys()
    ensures
        distinct(policy_keys()),
{
    reveal_strlit("id");
    reveal_strlit("profile");
    reveal_strlit("report_hash");
    reveal_strlit("spec");
    reveal_strlit("status");
    reveal_strlit("support");
    assert("id"@.len() == 2);
    assert("profile"@.len() == 7 && "profile"@[0] == 'p');
    assert("report_hash"@.len() == 11);
    assert("spec"@.len() == 4);
    assert("status"@.len() == 6);
    assert("support"@.len() == 7 && "support"@[0] == 's');
}

/// A policy whose support is a double comes back as it was kept.
pub proof fn law_policy_comes_back(p: PolicyView)
    requires
        p.support is Real,
    ensures
        policy_from(policy_json(p)) == Some(p),
{
    let ms = policy_json(p)->Object_0;
    lemma_policy_keys();
    assert forall|i: int| 0 <= i < ms.len() implies (#[trigger] ms[i]).0 == policy_keys()[i] by {}
    lemma_members(ms, policy_keys());
    assert(get(policy_json(p), ms[0].0) == Some(ms[0].1));
    assert(get(policy_json(p), ms[1].0) == Some(ms[1].1));
    assert(get(policy_json(p), ms[2].0) == Some(ms[2].1));
    assert(get(policy_json(p), ms[3].0) == Some(ms[3].1));
    assert(get(policy_json(p), ms[4].0) == Some(ms[4].1));
    assert(get(policy_json(p), ms[5].0) == Some(ms[5].1));
}

/// The names of the members of a stored answer, in order.
spec fn hit_keys() -> Seq<Seq<char>> {
    seq![
        "key"@,
        "result"@,
        "seq"@,
    ]
}

proof fn lemma_hit_keys()
    ensures
        distinct(hit_keys()),
{
    reveal_strlit("key");
    reveal_strlit("result");
    reveal_strlit("seq");
    assert("key"@.len() == 3 && "key"@[0] == 'k');
    assert("result"@.len() == 6);
    assert("seq"@.len() == 3 && "seq"@[0] == 's');
}

proof fn lemma_hits_back(s: Seq<(Seq<char>, HitView)>, items: Seq<Json>)
    requires
        ascending(s),
        items.len() == s.len(),
        forall|i: int| 0 <= i < s.len() ==> (#[trigger] items[i]) == hit_json(s[i].0, s[i].1),
    ensures
        hits_from(items) == s,
    decreases s.len(),
{
    if s.len() > 0 {
        let (key, h) = s.last();
        let front = s.drop_last();
        lemma_front(s);
        lemma_hits_back(front, items.drop_last());
        let j = hit_json(key, h);
        assert(items[items.len() - 1] == j);
        lemma_hit_members(key, h);
        lemma_put_last(front, key, h);
        assert(front.push((key, h)) =~= s);
    } else {
        assert(hits_from(items) =~= s);
    }
}

proof fn lemma_hit_members(key: Seq<char>, h: HitView)
    ensures
        get(hit_json(key, h), "key"@) == Some(Json::Str(key)),
        get(hit_json(key, h), "result"@) == Some(Json::Str(h.result)),
        get(hit_json(key, h), "seq"@) == Some(Json::UInt(h.seq)),
{
    let ms = hit_json(key, h)->Object_0;
    lemma_hit_keys();
    assert forall|i: int| 0 <= i < ms.len() implies (#[trigger] ms[i]).0 == hit_keys()[i] by {}
    lemma_members(ms, hit_keys());
    assert(get(hit_json(key, h), ms[0].0) == Some(ms[0].1));
    assert(get(hit_json(key, h), ms[1].0) == Some(ms[1].1));
    assert(get(hit_json(key, h), ms[2].0) == Some(ms[2].1));
}

proof fn lemma_front<T>(s: Seq<(Seq<char>, T)>)
    requires
        ascending(s),
        s.len() > 0,
    ensures
        ascending(s.drop_last()),
        forall|i: int|
            0 <= i < s.len() - 1 ==> crate::text::lex_lt((#[trigger] s[i]).0, s.last().0),
{
    let front = s.drop_last();
    assert forall|i: int, j: int| 0 <= i < j < front.len() implies crate::text::lex_lt(
        (#[trigger] front[i]).0,
        (#[trigger] front[j]).0,
    ) by {
        assert(crate::text::lex_lt(s[i].0, s[j].0));
    }
    assert forall|i: int| 0 <= i < s.len() - 1 implies crate::text::lex_lt(
        (#[trigger] s[i]).0,
        s.last().0,
    ) by {
        assert(crate::text::lex_lt(s[i].0, s[s.len() - 1].0));
    }
}

/// What is put behind all others stands last.
proof fn lemma_put_last<T>(s: Seq<(Seq<char>, T)>, key: Seq<char>, v: T)
    requires
        forall|i: int| 0 <= i < s.len() ==> crate::text::lex_lt((#[trigger] s[i]).0, key),
    ensures
        put(s, key, v) == s.push((key, v)),
{
    lemma_put_index(s, key, v, s.len() as int);
    assert(s.insert(s.len() as int, (key, v)) =~= s.push((key, v)));
}

proof fn lemma_agents_back(s: Seq<(Seq<char>, AgentRecord)>, items: Seq<Json>)
    requires
        ascending(s),
        items.len() == s.len(),
        forall|i: int| 0 <= i < s.len() ==> (#[trigger] items[i]) == agent_json(s[i].1),
        forall|i: int|
            0 <= i < s.len() ==> (#[trigger] s[i]).0 == s[i].1.agent_id && tidy_agent(s[i].1),
    ensures
        agents_from(items) == s,
    decreases s.len(),
{
    if s.len() > 0 {
        let (key, a) = s.last();
        let front = s.drop_last();
        lemma_front(s);
        assert forall|i: int| 0 <= i < front.len() implies (#[trigger] front[i]).0
            == front[i].1.agent_id && tidy_agent(front[i].1) by {
            assert(s[i].0 == s[i].1.agent_id && tidy_agent(s[i].1));
        }
        lemma_agents_back(front, items.drop_last());
        assert(items[items.len() - 1] == agent_json(a));
        assert(s[s.len() - 1].0 == a.agent_id && tidy_agent(a));
        law_agent_comes_back(a);
        lemma_put_last(front, key, a);
        assert(front.push((key, a)) =~= s);
    } else {
        assert(agents_from(items) =~= s);
    }
}

// ---------------------------------------------------------------------------
// The projection

/// A projection that is read as it was written: of a known version, its agents under
/// their ids, and its records in order.
pub open spec fn tidy_projection(p: ProjectionView) -> bool {
    &&& 0 < p.version <= SCHEMA_VERSION
    &&& 0 <= p.malformed <= u64::MAX
    &&& tidy(p.active_policy)
    &&& ascending(p.agents)
    &&& forall|i: int|
        0 <= i < p.agents.len() ==> (#[trigger] p.agents[i]).0 == p.agents[i].1.agent_id
            && tidy_agent(p.agents[i].1)
    &&& forall|i: int| 0 <= i < p.handoffs.len() ==> tidy_handoff(#[trigger] p.handoffs[i])
    &&& forall|i: int| 0 <= i < p.policies.len() ==> (#[trigger] p.policies[i]).support is Real
    &&& ascending(p.idempotency)
}

/// The names of the members of a projection, in order.
spec fn projection_keys() -> Seq<Seq<char>> {
    seq![
        "active_policy"@,
        "agents"@,
        "coordination_id"@,
        "handoffs"@,
        "idempotency"@,
        "malformed"@,
        "messages"@,
        "policies"@,
        "seq"@,
        "updated_at"@,
        "version"@,
    ]
}

proof fn lemma_projection_keys()
    ensures
        distinct(projection_keys()),
{
    reveal_strlit("active_policy");
    reveal_strlit("agents");
    reveal_strlit("coordination_id");
    reveal_strlit("handoffs");
    reveal_strlit("idempotency");
    reveal_strlit("malformed");
    reveal_strlit("messages");
    reveal_strlit("policies");
    reveal_strlit("seq");
    reveal_strlit("updated_at");
    reveal_strlit("version");
    assert("active_policy"@.len() == 13);
    assert("agents"@.len() == 6);
    assert("coordination_id"@.len() == 15);
    assert("handoffs"@.len() == 8 && "handoffs"@[0] == 'h');
    assert("idempotency"@.len() == 11);
    assert("malformed"@.len() == 9);
    assert("messages"@.len() == 8 && "messages"@[0] == 'm');
    assert("policies"@.len() == 8 && "policies"@[0] == 'p');
    assert("seq"@.len() == 3);
    assert("updated_at"@.len() == 10);
    assert("version"@.len() == 7);
}

/// A projection comes back as it was kept.
pub proof fn law_projection_comes_back(p: ProjectionView)
    requires
        tidy_projection(p),
    ensures
        projection_from(projection_json(p)) == Some(p),
{
    let j = projection_json(p);
    let ms = j->Object_0;
    lemma_projection_keys();
    assert forall|i: int| 0 <= i < ms.len() implies (#[trigger] ms[i]).0 == projection_keys()[i] by {}
    lemma_members(ms, projection_keys());
    assert(get(j, ms[0].0) == Some(ms[0].1));
    assert(get(j, ms[1].0) == Some(ms[1].1));
    assert(get(j, ms[2].0) == Some(ms[2].1));
    assert(get(j, ms[3].0) == Some(ms[3].1));
    assert(get(j, ms[4].0) == Some(ms[4].1));
    assert(get(j, ms[5].0) == Some(ms[5].1));
    assert(get(j, ms[6].0) == Some(ms[6].1));
    assert(get(j, ms[7].0) == Some(ms[7].1));
    assert(get(j, ms[8].0) == Some(ms[8].1));
    assert(get(j, ms[9].0) == Some(ms[9].1));
    assert(get(j, ms[10].0) == Some(ms[10].1));
    lemma_agents_back(p.agents, list_at(j, "agents"@));
    lemma_hits_back(p.idempotency, list_at(j, "idempotency"@));
    let hs = list_at(j, "handoffs"@);
    let fh = |h: Json| handoff_from(h);
    assert forall|i: int| 0 <= i < hs.len() implies fh(#[trigger] hs[i]) == Some(p.handoffs[i]) by {
        assert(tidy_handoff(p.handoffs[i]));
        law_handoff_comes_back(p.handoffs[i]);
    }
    lemma_all_back(hs, fh, p.handoffs);
    let ps = list_at(j, "policies"@);
    let fp = |q: Json| policy_from(q);
    assert forall|i: int| 0 <= i < ps.len() implies fp(#[trigger] ps[i]) == Some(p.policies[i]) by {
        assert(p.policies[i].support is Real);
        law_policy_comes_back(p.policies[i]);
    }
    lemma_all_back(ps, fp, p.policies);
    let ns = list_at(j, "messages"@);
    assert forall|i: int| 0 <= i < ns.len() implies note_from(#[trigger] ns[i])
        == p.messages[i] by {
        law_note_comes_back(p.messages[i]);
    }
    assert(ns.map_values(|m: Json| note_from(m)) =~= p.messages);
}

} // verus!

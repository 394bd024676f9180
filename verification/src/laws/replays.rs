//! What a policy may say, what is played again of what was recorded, and what is
//! reported of it.
use vstd::prelude::*;
use crate::izakaya::model::slug;
use crate::izakaya::presence::{arg_list, arg_text, decision_members, outcome_members};
use crate::izakaya::profiles::ProfileView;
use crate::izakaya::replay::{
    all_prints, agents_seen, apart, arranged, batch_of, batch_upto, cell, decision_of, episodes,
    first_task, gate_fails, grade_of, has_feature, held_out, held_positions, held_task,
    hold_positions, known_feature, objectives_json, of_episode, outcome_for, outcome_of,
    pareto_json, play_batch, prefers_upto, promotable, ranked, rank_keys, report_members,
    report_name, report_text, rounds, seq_keys, spec_from, step, studied, supported, takers,
    task_names, world_keys, world_of, world_order, worlds_of, worlds_unsorted, ActionView,
    DecisionView, FiguresView, GateFact, Grade, OutcomeView, PlayedView, SpecView, StudyView,
    WorldView,
};
use crate::izakaya::store::{EventView, ProjectionView};
use crate::json::{
    bool_or, get, json_strs, lemma_record_get, record, str_or, strings_at, u64_or, Json,
};
use crate::laws::lists::{lemma_arranged_items, lemma_contains_push};
use crate::laws::presences::{law_what_a_decision_writes, law_what_an_outcome_writes};
use crate::laws::primitives::law_distinct_names;
use crate::order::{key_lt, lemma_sort_order, positioned, sort_order};
use crate::smap::at;
use crate::text::{among, dec, joined};

verus! {

// ---------------------------------------------------------------------------
// Policies

proof fn lemma_prefers(items: Seq<Json>, n: nat)
    requires
        n <= items.len(),
    ensures
        prefers_upto(items, n) is Ok <==> forall|i: int|
            0 <= i < n ==> known_feature(str_or(#[trigger] items[i], "feature"@, ""@)),
        prefers_upto(items, n) is Ok ==> prefers_upto(items, n)->Ok_0.len() == n,
    decreases n,
{
    if n > 0 {
        let m = (n - 1) as nat;
        lemma_prefers(items, m);
        let known = known_feature(str_or(items[n - 1], "feature"@, ""@));
        assert(prefers_upto(items, n) is Ok <==> prefers_upto(items, m) is Ok && known);
        if prefers_upto(items, n) is Ok {
            assert forall|i: int| 0 <= i < n implies known_feature(
                str_or(#[trigger] items[i], "feature"@, ""@),
            ) by {}
        }
        if forall|i: int|
            0 <= i < n ==> known_feature(str_or(#[trigger] items[i], "feature"@, ""@)) {
            assert forall|i: int| 0 <= i < m implies known_feature(
                str_or(#[trigger] items[i], "feature"@, ""@),
            ) by {}
            assert(known_feature(str_or(items[n - 1], "feature"@, ""@)));
        }
    }
}

/// The features that a policy may prefer.
pub proof fn law_known_features(f: Seq<char>, overlapping: bool, kind: Seq<char>)
    ensures
        known_feature(f) <==> f == "non_overlapping"@ || f == "continue"@ || f == "root"@ || f
            == "handoff"@,
        has_feature("non_overlapping"@, overlapping, kind) <==> !overlapping,
        has_feature("continue"@, overlapping, kind) <==> kind == "continue"@,
        has_feature("root"@, overlapping, kind) <==> kind == "root"@,
        has_feature("handoff"@, overlapping, kind) <==> kind == "handoff"@,
        !known_feature(f) ==> !has_feature(f, overlapping, kind),
{
    reveal_strlit("non_overlapping");
    reveal_strlit("continue");
    reveal_strlit("root");
    reveal_strlit("handoff");
    assert("non_overlapping"@.len() == 15);
    assert("continue"@.len() == 8);
    assert("root"@.len() == 4);
    assert("handoff"@.len() == 7);
}

/// A policy is accepted where it has a name, is of the one version, selects what was
/// recorded or by score, keeps within the bounds of a batch and of the rounds, and prefers
/// known features.
pub proof fn law_policy_is_accepted(j: Json)
    requires
        crate::izakaya::profiles::executable_fault(j) is Ok,
        slug("policy.id"@, str_or(j, "id"@, "policy"@)) is Ok,
        !crate::izakaya::replay::beta_too_low(j),
    ensures
        ({
            let sel = str_or(j, "selection"@, "score"@);
            let batch = u64_or(j, "max_batch"@, 1);
            let n = u64_or(j, "max_rounds"@, 32);
            let items = crate::izakaya::profiles::items_at(j, "prefer"@);
            &&& spec_from(j) is Ok <==> {
                &&& u64_or(j, "version"@, 1) == 1
                &&& sel == "recorded"@ || sel == "score"@
                &&& 1 <= batch <= 32
                &&& 1 <= n <= 10_000
                &&& forall|i: int|
                    0 <= i < items.len() ==> known_feature(
                        str_or(#[trigger] items[i], "feature"@, ""@),
                    )
            }
            &&& spec_from(j) matches Ok(s) ==> {
                &&& s.id == slug("policy.id"@, str_or(j, "id"@, "policy"@))->Ok_0
                &&& s.selection == sel
                &&& s.max_batch == batch
                &&& s.max_rounds == n
                &&& s.prefer.len() == items.len()
            }
        }),
{
    let items = crate::izakaya::profiles::items_at(j, "prefer"@);
    lemma_prefers(items, items.len());
}

/// A policy with a factor that is not positive is refused.
pub proof fn law_factor_is_positive(j: Json)
    ensures
        get(j, "beta"@) == Some(Json::UInt(0)) ==> spec_from(j) is Err,
        (get(j, "beta"@) matches Some(Json::NInt(_))) ==> spec_from(j) is Err,
        get(j, "beta"@) matches Some(Json::Real(t)) ==> (t == "0.0"@ || (t.len() > 0 && t[0] == '-')
            ==> spec_from(j) is Err),
{
    reveal_strlit("-");
    assert("-"@ =~= seq!['-']);
    if let Some(Json::Real(t)) = get(j, "beta"@) {
        if t.len() > 0 && t[0] == '-' {
            assert(t.take(1) =~= "-"@);
        }
    }
}

// ---------------------------------------------------------------------------
// What was recorded

proof fn lemma_strings_back(v: Seq<Seq<char>>, j: Json, key: Seq<char>)
    requires
        get(j, key) == Some(json_strs(v)),
    ensures
        strings_at(j, key) == v,
{
    crate::json::lemma_texts_of_strs(v);
    assert(Seq::new(v.len(), |i: int| Json::Str(v[i])) =~= v.map_values(
        |s: Seq<char>| Json::Str(s),
    ));
}

/// A decision that was written is read as it was made.
pub proof fn law_written_decision_is_read(
    e: EventView,
    j: Json,
    episode: Seq<char>,
    decision: Seq<char>,
    legal: Seq<Json>,
)
    requires
        e.kind == "decision"@,
        e.body == record(decision_members(j, episode, decision, legal)),
    ensures
        decision_of()(e) matches Some(d) && {
            &&& d.seq == e.seq
            &&& d.id == decision
            &&& d.agent_id == e.agent_id
            &&& d.episode_id == episode
            &&& d.task == arg_text(j, "task"@)
            &&& d.selected == arg_list(j, "selected"@)
            &&& d.ts == e.ts
        },
{
    law_what_a_decision_writes(j, episode, decision, legal);
    lemma_strings_back(arg_list(j, "selected"@), e.body, "selected"@);
}

/// An outcome that was written is read as it came out.
pub proof fn law_written_outcome_is_read(
    e: EventView,
    j: Json,
    decision: Seq<char>,
    action: Seq<char>,
    metrics: Seq<(Seq<char>, Json)>,
)
    requires
        e.kind == "outcome"@,
        e.body == record(outcome_members(j, decision, action, metrics)),
    ensures
        outcome_of()(e) matches Some(o) && {
            &&& o.decision == decision
            &&& o.action == action
            &&& o.censored == bool_or(j, "censored"@, false)
        },
{
    law_what_an_outcome_writes(j, decision, action, metrics);
}

/// Events of other kinds are neither decisions nor outcomes.
pub proof fn law_other_events_are_passed_over(e: EventView)
    ensures
        e.kind != "decision"@ ==> decision_of()(e) is None,
        e.kind != "outcome"@ ==> outcome_of()(e) is None,
{
}

/// Of several outcomes of one action the last counts.
pub proof fn law_last_outcome_counts(
    os: Seq<OutcomeView>,
    decision: Seq<char>,
    action: Seq<char>,
    n: nat,
)
    requires
        n <= os.len(),
    ensures
        match outcome_for(os, decision, action, n) {
            Some(o) => exists|i: int|
                0 <= i < n && #[trigger] os[i] == o && o.decision == decision && o.action == action
                    && forall|k: int|
                    i < k < n ==> !((#[trigger] os[k]).decision == decision && os[k].action
                        == action),
            None => forall|k: int|
                0 <= k < n ==> !((#[trigger] os[k]).decision == decision && os[k].action == action),
        },
    decreases n,
{
    if n > 0 {
        if os[n - 1].decision == decision && os[n - 1].action == action {
            assert(os[n - 1] == os[n - 1]);
        } else {
            let m = (n - 1) as nat;
            law_last_outcome_counts(os, decision, action, m);
            if let Some(o) = outcome_for(os, decision, action, m) {
                let i = choose|i: int|
                    0 <= i < m && #[trigger] os[i] == o && o.decision == decision && o.action
                        == action && forall|k: int|
                        i < k < m ==> !((#[trigger] os[k]).decision == decision && os[k].action
                            == action);
                assert(os[i] == o);
                assert forall|k: int| i < k < n implies !((#[trigger] os[k]).decision == decision
                    && os[k].action == action) by {}
            }
        }
    }
}

// ---------------------------------------------------------------------------
// Episodes

/// An episode has the decisions of its name, in their sequence, begins with the first of
/// them, and is open while one of those who took part has not left.
pub proof fn law_episode_has_its_decisions(
    id: Seq<char>,
    ds: Seq<DecisionView>,
    p: ProjectionView,
    d: DecisionView,
)
    ensures
        ({
            let w = world_of(id, ds, p);
            &&& w.episode_id == id
            &&& w.decisions.contains(d) <==> ds.contains(d) && d.episode_id == id
            &&& forall|i: int, k: int|
                0 <= i < k < w.decisions.len() ==> (#[trigger] w.decisions[i]).seq <= (
                #[trigger] w.decisions[k]).seq
            &&& w.decisions.len() > 0 ==> w.ts == w.decisions[0].ts
            &&& w.censored <==> exists|i: int|
                0 <= i < w.decisions.len() && present(p, (#[trigger] w.decisions[i]).agent_id)
        }),
{
    let f = of_episode(id);
    let v = ds.filter(f);
    let keys = seq_keys(v);
    let w = world_of(id, ds, p);
    assert(positioned(keys));
    lemma_arranged_items(v, keys);
    lemma_sort_order(keys);
    if v.contains(d) {
        let i = choose|i: int| 0 <= i < v.len() && v[i] == d;
        ds.lemma_filter_pred(f, i);
        ds.lemma_filter_contains_rev(f, d);
    }
    if ds.contains(d) && d.episode_id == id {
        let i = choose|i: int| 0 <= i < ds.len() && ds[i] == d;
        ds.lemma_filter_contains(f, i);
    }
    assert forall|i: int, k: int| 0 <= i < k < w.decisions.len() implies (
    #[trigger] w.decisions[i]).seq <= (#[trigger] w.decisions[k]).seq by {
        let a = sort_order(keys)[i];
        let b = sort_order(keys)[k];
        assert(w.decisions[i] == v[a] && w.decisions[k] == v[b]);
        assert(!key_lt(keys[b], keys[a]));
    }
    lemma_open(p, w.decisions);
}

/// Whether someone has not left.
pub open spec fn present(p: ProjectionView, id: Seq<char>) -> bool {
    !(at(p.agents, id) matches Some(a) && a.state == "checked_out"@)
}

proof fn lemma_open(p: ProjectionView, ds: Seq<DecisionView>)
    ensures
        crate::izakaya::replay::any_open(p.agents, takers(ds)) <==> exists|i: int|
            0 <= i < ds.len() && present(p, (#[trigger] ds[i]).agent_id),
{
    let ids = Seq::new(ds.len(), |i: int| ds[i].agent_id);
    let t = takers(ds);
    if crate::izakaya::replay::any_open(p.agents, t) {
        let k = choose|k: int|
            0 <= k < t.len() && crate::izakaya::replay::still_open(p.agents, #[trigger] t[k]);
        assert(t.contains(t[k]));
        law_distinct_names(ids, t[k]);
        let i = choose|i: int| 0 <= i < ids.len() && ids[i] == t[k];
        assert(present(p, ds[i].agent_id));
    }
    if exists|i: int| 0 <= i < ds.len() && present(p, (#[trigger] ds[i]).agent_id) {
        let i = choose|i: int| 0 <= i < ds.len() && present(p, (#[trigger] ds[i]).agent_id);
        law_distinct_names(ids, ids[i]);
        assert(ids.contains(ids[i]));
        let k = choose|k: int| 0 <= k < t.len() && t[k] == ids[i];
        assert(crate::izakaya::replay::still_open(p.agents, t[k]));
    }
}

/// Whether one of the decisions belongs to an episode.
pub open spec fn begun_by(ds: Seq<DecisionView>, p: ProjectionView, i: int, w: WorldView) -> bool {
    w == world_of(ds[i].episode_id, ds, p)
}

/// There is an episode for each name that a decision gives, and no other.
pub proof fn law_episodes_of_decisions(ds: Seq<DecisionView>, p: ProjectionView, w: WorldView)
    ensures
        arranged(worlds_unsorted(ds, p), world_order(worlds_unsorted(ds, p))).contains(w)
            <==> exists|i: int| 0 <= i < ds.len() && #[trigger] begun_by(ds, p, i, w),
{
    let ws = worlds_unsorted(ds, p);
    let keys = world_keys(ws);
    let all = arranged(ws, world_order(ws));
    assert(positioned(keys));
    lemma_arranged_items(ws, keys);
    let ids = Seq::new(ds.len(), |i: int| ds[i].episode_id);
    let es = episodes(ds);
    if all.contains(w) {
        assert(ws.contains(w));
        let k = choose|k: int| 0 <= k < ws.len() && ws[k] == w;
        assert(es.contains(es[k]));
        law_distinct_names(ids, es[k]);
        let i = choose|i: int| 0 <= i < ids.len() && ids[i] == es[k];
        assert(begun_by(ds, p, i, w));
    }
    if exists|i: int| 0 <= i < ds.len() && #[trigger] begun_by(ds, p, i, w) {
        let i = choose|i: int| 0 <= i < ds.len() && #[trigger] begun_by(ds, p, i, w);
        law_distinct_names(ids, ids[i]);
        assert(ids.contains(ids[i]));
        assert(es.contains(ids[i]));
        let k = choose|k: int| 0 <= k < es.len() && es[k] == ids[i];
        assert(ws[k] == w);
        assert(ws.contains(w));
    }
}

/// The earliest episode comes first.
pub proof fn law_earliest_episode_first(ds: Seq<DecisionView>, p: ProjectionView, i: int, k: int)
    requires
        0 <= i < k < worlds_unsorted(ds, p).len(),
    ensures
        ({
            let ws = worlds_unsorted(ds, p);
            let all = arranged(ws, world_order(ws));
            all[i].ts <= all[k].ts
        }),
{
    let ws = worlds_unsorted(ds, p);
    let keys = world_keys(ws);
    let all = arranged(ws, world_order(ws));
    assert(positioned(keys));
    lemma_sort_order(keys);
    let a = sort_order(keys)[i];
    let b = sort_order(keys)[k];
    assert(all[i] == ws[a] && all[k] == ws[b]);
    assert(!key_lt(keys[b], keys[a]));
}

/// An episode is about the first task that its decisions name.
pub proof fn law_task_of_an_episode(ds: Seq<DecisionView>, i: int)
    requires
        0 <= i < ds.len(),
        ds[i].task.len() > 0,
        forall|k: int| 0 <= k < i ==> (#[trigger] ds[k]).task.len() == 0,
    ensures
        first_task(ds, 0) == ds[i].task,
{
    lemma_first_task(ds, 0, i);
}

proof fn lemma_first_task(ds: Seq<DecisionView>, from: int, i: int)
    requires
        0 <= from <= i < ds.len(),
        ds[i].task.len() > 0,
        forall|k: int| from <= k < i ==> (#[trigger] ds[k]).task.len() == 0,
    ensures
        first_task(ds, from) == ds[i].task,
    decreases i - from,
{
    if from < i {
        lemma_first_task(ds, from + 1, i);
    }
}

// ---------------------------------------------------------------------------
// Batches

/// What was recorded is played again as it was recorded: what could be done and was
/// started.
pub proof fn law_recorded_batch(d: DecisionView, s: SpecView, g: Seq<Grade>, a: ActionView)
    requires
        s.selection == "recorded"@,
    ensures
        batch_of(d, s, g).contains(a) <==> d.legal.contains(a) && d.selected.contains(a.id),
{
    let f = crate::izakaya::replay::is_selected(d.selected);
    let b = d.legal.filter(f);
    assert(among(d.selected, a.id) <==> d.selected.contains(a.id));
    if b.contains(a) {
        let i = choose|i: int| 0 <= i < b.len() && b[i] == a;
        d.legal.lemma_filter_pred(f, i);
        d.legal.lemma_filter_contains_rev(f, a);
    }
    if d.legal.contains(a) && d.selected.contains(a.id) {
        let i = choose|i: int| 0 <= i < d.legal.len() && d.legal[i] == a;
        d.legal.lemma_filter_contains(f, i);
    }
}

/// Whether two actions are in each other's way: one follows from the other, or they
/// touch paths that overlap.
pub open spec fn in_the_way(a: ActionView, b: ActionView) -> bool {
    a.causal_parents.contains(b.id) || b.causal_parents.contains(a.id) || exists|i: int, k: int|
        0 <= i < a.paths.len() && 0 <= k < b.paths.len() && crate::izakaya::model::overlap(
            #[trigger] a.paths[i],
            #[trigger] b.paths[k],
        )
}

proof fn lemma_apart(a: ActionView, b: ActionView)
    ensures
        apart(a, b) <==> !in_the_way(a, b),
{
    assert(among(a.causal_parents, b.id) <==> a.causal_parents.contains(b.id));
    assert(among(b.causal_parents, a.id) <==> b.causal_parents.contains(a.id));
}

/// A batch by score takes what is eligible and in nobody's way, as long as there is room:
/// what is left out is not eligible, in the way of what was taken, or beyond the room.
pub proof fn law_scored_batch_is_full(
    acts: Seq<ActionView>,
    g: Seq<Grade>,
    max: nat,
    n: nat,
    i: int,
)
    requires
        0 <= i < n <= acts.len(),
    ensures
        ({
            let b = batch_upto(acts, g, max, n);
            b.contains(acts[i]) || !grade_of(g, acts[i]).eligible || b.len() >= max || exists|
                k: int,
            |
                0 <= k < b.len() && in_the_way(#[trigger] b[k], acts[i])
        }),
    decreases n,
{
    let m = (n - 1) as nat;
    let rest = batch_upto(acts, g, max, m);
    let b = batch_upto(acts, g, max, n);
    let a = acts[n - 1];
    if i < m {
        law_scored_batch_is_full(acts, g, max, m, i);
        if b != rest {
            lemma_contains_push(rest, a, acts[i]);
            if exists|k: int| 0 <= k < rest.len() && in_the_way(#[trigger] rest[k], acts[i]) {
                let k = choose|k: int|
                    0 <= k < rest.len() && in_the_way(#[trigger] rest[k], acts[i]);
                assert(b[k] == rest[k]);
            }
        }
    } else if grade_of(g, a).eligible && rest.len() < max {
        if crate::izakaya::replay::apart_from_all(rest, a) {
            lemma_contains_push(rest, a, a);
        } else {
            let k = choose|k: int| 0 <= k < rest.len() && !apart(#[trigger] rest[k], a);
            lemma_apart(rest[k], a);
            assert(in_the_way(b[k], acts[i]));
        }
    }
}

/// By score, what ranks first is looked at first, and nothing is lost by ranking.
pub proof fn law_ranked_actions(acts: Seq<ActionView>, g: Seq<Grade>, a: ActionView)
    ensures
        ranked(acts, g).contains(a) <==> acts.contains(a),
        forall|i: int, k: int|
            0 <= i < k < ranked(acts, g).len() ==> grade_of(g, #[trigger] ranked(acts, g)[i]).rank
                <= grade_of(g, #[trigger] ranked(acts, g)[k]).rank,
{
    let keys = rank_keys(acts, g);
    let r = ranked(acts, g);
    assert(positioned(keys));
    lemma_arranged_items(acts, keys);
    lemma_sort_order(keys);
    assert forall|i: int, k: int| 0 <= i < k < r.len() implies grade_of(
        g,
        #[trigger] r[i],
    ).rank <= grade_of(g, #[trigger] r[k]).rank by {
        let x = sort_order(keys)[i];
        let y = sort_order(keys)[k];
        assert(r[i] == acts[x] && r[k] == acts[y]);
        assert(!key_lt(keys[y], keys[x]));
    }
}

/// Actions are graded by whether they overlap and of what kind they are, and by nothing
/// else; what differs in that has a grade of its own.
pub proof fn law_grades_by_kind(o1: bool, k1: Seq<char>, o2: bool, k2: Seq<char>)
    ensures
        ({
            let kind = |k: Seq<char>|
                if k == "continue"@ {
                    1int
                } else if k == "root"@ {
                    2
                } else if k == "handoff"@ {
                    3
                } else {
                    4
                };
            &&& cell(o1, k1) == cell(o2, k2) <==> o1 == o2 && kind(k1) == kind(k2)
            &&& 0 <= cell(o1, k1) < 8
        }),
{
}

// ---------------------------------------------------------------------------
// Playing

/// How many of the first `n` actions were started.
pub open spec fn started(d: DecisionView, batch: Seq<ActionView>, n: nat) -> nat
    decreases n,
{
    if n == 0 {
        0
    } else {
        started(d, batch, (n - 1) as nat) + if d.selected.contains(batch[n - 1].id) {
            1nat
        } else {
            0
        }
    }
}

/// What was started counts as supported, what was not as unsupported, and each leaves its
/// mark in order.
pub proof fn law_playing_counts_support(
    p: PlayedView,
    d: DecisionView,
    batch: Seq<ActionView>,
    os: Seq<OutcomeView>,
    n: nat,
)
    requires
        n <= batch.len(),
    ensures
        ({
            let q = play_batch(p, d, batch, os, n);
            &&& q.in_support == p.in_support + started(d, batch, n)
            &&& q.out_of_support == p.out_of_support + (n - started(d, batch, n))
            &&& q.trace == p.trace + Seq::new(n, |i: int| mark(d, batch[i]))
        }),
    decreases n,
{
    if n > 0 {
        let m = (n - 1) as nat;
        law_playing_counts_support(p, d, batch, os, m);
        let a = batch[n - 1];
        assert(among(d.selected, a.id) <==> d.selected.contains(a.id));
        let q = play_batch(p, d, batch, os, m);
        let r = play_batch(p, d, batch, os, n);
        assert(r == step(q, d, a, os));
        assert(r.trace == q.trace.push(mark(d, a)));
        assert(r.trace =~= p.trace + Seq::new(n, |i: int| mark(d, batch[i])));
    } else {
        assert(p.trace + Seq::new(0, |i: int| mark(d, batch[i])) =~= p.trace);
    }
}

/// The mark that an action leaves.
pub open spec fn mark(d: DecisionView, a: ActionView) -> Seq<char> {
    if d.selected.contains(a.id) {
        d.id + ":"@ + a.id
    } else {
        d.id + ":"@ + a.id + ":out_of_support"@
    }
}

/// An action reveals its last outcome where it was started and the outcome was seen to the
/// end, and nothing else.
pub proof fn law_what_an_action_reveals(
    p: PlayedView,
    d: DecisionView,
    a: ActionView,
    os: Seq<OutcomeView>,
)
    ensures
        ({
            let q = step(p, d, a, os);
            let o = outcome_for(os, d.id, a.id, os.len());
            &&& d.selected.contains(a.id) && o is Some && !o->Some_0.censored ==> q.revealed
                == p.revealed.push(o->Some_0)
            &&& !(d.selected.contains(a.id) && o is Some && !o->Some_0.censored) ==> q.revealed
                == p.revealed
        }),
{
    assert(among(d.selected, a.id) <==> d.selected.contains(a.id));
}

/// An episode is played until its decisions or the rounds run out, or nothing is to be
/// done.
pub proof fn law_rounds_that_are_played(ds: Seq<DecisionView>, s: SpecView, g: Seq<Grade>)
    ensures
        ({
            let n = rounds(ds, s, g, 0);
            &&& n <= ds.len()
            &&& n <= s.max_rounds
            &&& n == ds.len() || n == s.max_rounds || batch_of(ds[n as int], s, g).len() == 0
            &&& forall|i: int|
                0 <= i < n ==> batch_of(#[trigger] ds[i], s, g).len() > 0
        }),
{
    lemma_rounds(ds, s, g, 0);
}

proof fn lemma_rounds(ds: Seq<DecisionView>, s: SpecView, g: Seq<Grade>, i: nat)
    requires
        i <= ds.len(),
        i <= s.max_rounds,
        forall|k: int| 0 <= k < i ==> batch_of(#[trigger] ds[k], s, g).len() > 0,
    ensures
        ({
            let n = rounds(ds, s, g, i);
            &&& i <= n <= ds.len()
            &&& n <= s.max_rounds
            &&& n == ds.len() || n == s.max_rounds || batch_of(ds[n as int], s, g).len() == 0
            &&& forall|k: int|
                0 <= k < n ==> batch_of(#[trigger] ds[k], s, g).len() > 0
        }),
    decreases ds.len() - i,
{
    if i < ds.len() && i < s.max_rounds && batch_of(ds[i as int], s, g).len() > 0 {
        lemma_rounds(ds, s, g, i + 1);
    }
}

// ---------------------------------------------------------------------------
// Holding out

/// A fifth of the episodes is held out, rounded up, but never all of them, and none of a
/// single one.
pub proof fn law_a_fifth_is_held_out(n: nat)
    ensures
        n < 2 ==> held_out(n) == 0,
        n >= 2 ==> 5 * held_out(n) >= n && 5 * (held_out(n) - 1) < n,
{
}

/// What is held out are the latest episodes.
pub proof fn law_latest_episodes_are_held_out(ws: Seq<WorldView>, i: int, k: int)
    requires
        0 <= i < ws.len(),
        !hold_positions(ws).contains(i),
        hold_positions(ws).contains(k),
    ensures
        0 <= k < ws.len(),
        ws[i].ts <= ws[k].ts,
        hold_positions(ws).len() == held_out(ws.len()),
{
    let keys = world_keys(ws);
    let o = world_order(ws);
    let h = hold_positions(ws);
    assert(positioned(keys));
    lemma_sort_order(keys);
    crate::order::lemma_sort_covers(keys);
    let cut = ws.len() - held_out(ws.len());
    let b = choose|b: int| 0 <= b < h.len() && h[b] == k;
    assert(o[cut + b] == k);
    assert(o.contains(i));
    let a = choose|a: int| 0 <= a < o.len() && o[a] == i;
    if a >= cut {
        assert(h[a - cut] == i);
    }
    assert(!key_lt(keys[o[cut + b]], keys[o[a]]));
}

/// One task is held out where there are two at least: the last in the order of the names;
/// and of it, all episodes.
pub proof fn law_one_task_is_held_out(ws: Seq<WorldView>, n: nat, i: int)
    requires
        0 <= i < n <= ws.len(),
    ensures
        held_positions(ws, n).contains(i) <==> held_task(ws) == Some(ws[i].task),
        held_task(ws) is Some <==> task_names(ws).len() >= 2,
        held_task(ws) matches Some(t) ==> task_names(ws).contains(t) && forall|k: int|
            0 <= k < task_names(ws).len() - 1 ==> crate::text::lex_lt(
                #[trigger] task_names(ws)[k],
                t,
            ),
    decreases n,
{
    let m = (n - 1) as nat;
    let rest = held_positions(ws, m);
    lemma_contains_push(rest, m as int, i);
    if i < m {
        law_one_task_is_held_out(ws, m, i);
    } else {
        lemma_held_below(ws, m);
    }
    let ts = task_names(ws);
    let v = Seq::new(ws.len(), |k: int| ws[k].task).filter(|t: Seq<char>| t.len() > 0);
    law_distinct_names(v, ts.last());
    if ts.len() >= 2 {
        assert(ts[ts.len() - 1] == ts.last());
    }
}

proof fn lemma_held_below(ws: Seq<WorldView>, n: nat)
    ensures
        forall|i: int| n <= i ==> !held_positions(ws, n).contains(i),
    decreases n,
{
    if n > 0 {
        lemma_held_below(ws, (n - 1) as nat);
        assert forall|i: int| n <= i implies !held_positions(ws, n).contains(i) by {
            lemma_contains_push(held_positions(ws, (n - 1) as nat), n - 1, i);
        }
    }
}

/// A gate holds a policy back where the one in place has a value and the new one has none
/// or a worse one.
pub proof fn law_gates_hold_back(f: GateFact)
    ensures
        gate_fails(f) <==> f.incumbent && !(f.candidate && !f.worse),
{
}

/// Support is enough from seven in ten on.
pub proof fn law_enough_support(in_support: nat, total: nat)
    ensures
        supported(in_support, total) <==> 100 * in_support >= 70 * total,
{
}

/// What a study counts: the episodes, those held out, and those left to learn from.
pub proof fn law_study_counts_episodes(
    events: Seq<EventView>,
    p: ProjectionView,
    s: SpecView,
    g: Seq<Grade>,
    inc: SpecView,
    ig: Seq<Grade>,
)
    ensures
        ({
            let st = studied(events, p, s, g, inc, ig);
            &&& st.worlds == worlds_of(events, p)
            &&& st.train + st.holdout == st.worlds.len()
            &&& st.holdout == held_out(st.worlds.len())
            &&& st.task_holdout == held_positions(st.worlds, st.worlds.len()).len()
        }),
{
}

/// What a report says of a policy.
pub proof fn law_what_a_report_says(
    s: SpecView,
    profile: ProfileView,
    st: StudyView,
    fig: FiguresView,
    hold_gates: bool,
    task_gates: bool,
    version: Seq<char>,
)
    ensures
        ({
            let b = record(report_members(s, profile, st, fig, hold_gates, task_gates, version));
            &&& get(b, "agents_seen"@) == Some(Json::UInt(agents_seen(st.worlds, st.worlds.len()) as u64))
            &&& get(b, "beta"@) == Some(s.beta)
            &&& get(b, "beta_sweep"@) == Some(Json::Bool(false))
            &&& get(b, "censored_episodes"@) == Some(json_strs(st.full_candidate.censored_ids))
            &&& get(b, "fingerprints"@) == Some(Json::Object(all_prints(st.worlds, st.worlds.len())))
            &&& get(b, "gates_ok"@) == Some(Json::Bool(hold_gates && task_gates))
            &&& get(b, "holdout_support"@) == Some(fig.holdout_support)
            &&& get(b, "holdout_worlds"@) == Some(Json::UInt(st.holdout as u64))
            &&& get(b, "mode"@) == Some(Json::Str("historical_supported_replay"@))
            &&& get(b, "objectives"@) == Some(objectives_json(profile.objectives))
            &&& get(b, "out_of_support"@) == Some(Json::UInt(st.full_candidate.played.out_of_support as u64))
            &&& get(b, "pareto"@) == Some(pareto_json(fig))
            &&& get(b, "policy_id"@) == Some(Json::Str(s.id))
            &&& get(b, "profile"@) == Some(Json::Str(profile.id))
            &&& get(b, "promotion_ok"@) == Some(Json::Bool(hold_gates && task_gates && st.holdout > 0 && st.hold_candidate.played.out_of_support == 0))
            &&& get(b, "report_hash"@) == Some(Json::Str(report_name(st)))
            &&& get(b, "revealed_actions"@) == Some(json_strs(Seq::new(st.full_candidate.played.revealed.len(), |i: int| st.full_candidate.played.revealed[i].action)))
            &&& get(b, "support"@) == Some(fig.support)
            &&& get(b, "task_holdout_worlds"@) == Some(Json::UInt(st.task_holdout as u64))
            &&& get(b, "text"@) == Some(Json::Str(report_text(s, profile, st, fig, promotable(st.holdout, st.hold_candidate.played, hold_gates, task_gates))))
            &&& get(b, "traces"@) == Some(json_strs(st.full_candidate.played.trace))
            &&& get(b, "train_worlds"@) == Some(Json::UInt(st.train as u64))
            &&& get(b, "wordkeep"@) == Some(Json::Str(version))
        }),
{
    let ms = report_members(s, profile, st, fig, hold_gates, task_gates, version);
    let shown = st.full_candidate.played.revealed;
    assert(shown.map_values(|o: OutcomeView| o.action) =~= Seq::new(
        shown.len(),
        |i: int| shown[i].action,
    ));
    reveal_strlit("agents_seen");
    reveal_strlit("beta");
    reveal_strlit("beta_sweep");
    reveal_strlit("censored_episodes");
    reveal_strlit("fingerprints");
    reveal_strlit("gates_ok");
    reveal_strlit("holdout_support");
    reveal_strlit("holdout_worlds");
    reveal_strlit("mode");
    reveal_strlit("objectives");
    reveal_strlit("out_of_support");
    reveal_strlit("pareto");
    reveal_strlit("policy_id");
    reveal_strlit("profile");
    reveal_strlit("promotion_ok");
    reveal_strlit("report_hash");
    reveal_strlit("revealed_actions");
    reveal_strlit("support");
    reveal_strlit("task_holdout_worlds");
    reveal_strlit("text");
    reveal_strlit("traces");
    reveal_strlit("train_worlds");
    reveal_strlit("wordkeep");
    assert("agents_seen"@.len() == 11);
    assert("beta"@.len() == 4);
    assert("beta_sweep"@.len() == 10);
    assert("censored_episodes"@.len() == 17);
    assert("fingerprints"@.len() == 12);
    assert("gates_ok"@.len() == 8);
    assert("holdout_support"@.len() == 15);
    assert("holdout_worlds"@.len() == 14);
    assert("mode"@.len() == 4);
    assert("objectives"@.len() == 10);
    assert("out_of_support"@.len() == 14);
    assert("pareto"@.len() == 6);
    assert("policy_id"@.len() == 9);
    assert("profile"@.len() == 7);
    assert("promotion_ok"@.len() == 12);
    assert("report_hash"@.len() == 11);
    assert("revealed_actions"@.len() == 16);
    assert("support"@.len() == 7);
    assert("task_holdout_worlds"@.len() == 19);
    assert("text"@.len() == 4);
    assert("traces"@.len() == 6);
    assert("train_worlds"@.len() == 12);
    assert("wordkeep"@.len() == 8);
    assert("agents_seen"@[0] == 'a');
    assert("beta"@[0] == 'b');
    assert("beta_sweep"@[0] == 'b');
    assert("fingerprints"@[0] == 'f');
    assert("gates_ok"@[0] == 'g');
    assert("holdout_worlds"@[0] == 'h');
    assert("mode"@[0] == 'm');
    assert("objectives"@[0] == 'o');
    assert("out_of_support"@[0] == 'o');
    assert("pareto"@[0] == 'p');
    assert("profile"@[0] == 'p');
    assert("promotion_ok"@[0] == 'p');
    assert("report_hash"@[0] == 'r');
    assert("support"@[0] == 's');
    assert("text"@[0] == 't');
    assert("traces"@[0] == 't');
    assert("train_worlds"@[0] == 't');
    assert("wordkeep"@[0] == 'w');
    assert(ms[0].0 == "agents_seen"@);
    assert(ms[1].0 == "beta"@);
    assert(ms[2].0 == "beta_sweep"@);
    assert(ms[3].0 == "censored_episodes"@);
    assert(ms[4].0 == "fingerprints"@);
    assert(ms[5].0 == "gates_ok"@);
    assert(ms[6].0 == "holdout_support"@);
    assert(ms[7].0 == "holdout_worlds"@);
    assert(ms[8].0 == "mode"@);
    assert(ms[9].0 == "objectives"@);
    assert(ms[10].0 == "out_of_support"@);
    assert(ms[11].0 == "pareto"@);
    assert(ms[12].0 == "policy_id"@);
    assert(ms[13].0 == "profile"@);
    assert(ms[14].0 == "promotion_ok"@);
    assert(ms[15].0 == "report_hash"@);
    assert(ms[16].0 == "revealed_actions"@);
    assert(ms[17].0 == "support"@);
    assert(ms[18].0 == "task_holdout_worlds"@);
    assert(ms[19].0 == "text"@);
    assert(ms[20].0 == "traces"@);
    assert(ms[21].0 == "train_worlds"@);
    assert(ms[22].0 == "wordkeep"@);
    lemma_record_get(ms, 0);
    lemma_record_get(ms, 1);
    lemma_record_get(ms, 2);
    lemma_record_get(ms, 3);
    lemma_record_get(ms, 4);
    lemma_record_get(ms, 5);
    lemma_record_get(ms, 6);
    lemma_record_get(ms, 7);
    lemma_record_get(ms, 8);
    lemma_record_get(ms, 9);
    lemma_record_get(ms, 10);
    lemma_record_get(ms, 11);
    lemma_record_get(ms, 12);
    lemma_record_get(ms, 13);
    lemma_record_get(ms, 14);
    lemma_record_get(ms, 15);
    lemma_record_get(ms, 16);
    lemma_record_get(ms, 17);
    lemma_record_get(ms, 18);
    lemma_record_get(ms, 19);
    lemma_record_get(ms, 20);
    lemma_record_get(ms, 21);
    lemma_record_get(ms, 22);
}

/// What the text of a report says.
pub proof fn law_text_of_a_report(
    s: SpecView,
    profile: ProfileView,
    st: StudyView,
    fig: FiguresView,
    ok: bool,
)
    ensures
        report_text(s, profile, st, fig, ok) == "izakaya_replay - policy "@ + s.id + " profile "@
            + profile.id + "\nmode: historical_supported_replay\nbeta_sweep: false\nsupport: "@
            + fig.support_text + "\nholdout_worlds: "@ + dec(st.holdout) + "\npromotion_ok: "@ + (
        if ok {
            "true"@
        } else {
            "false"@
        }) + "\nout_of_support: "@ + dec(st.full_candidate.played.out_of_support)
            + "\ncensored_episodes: "@ + dec(st.full_candidate.censored_ids.len())
            + "\nreport_hash: "@ + report_name(st) + "\nincumbent_trace: "@ + joined(
            st.full_incumbent.played.trace,
            " > "@,
        ) + "\ncandidate_trace: "@ + joined(st.full_candidate.played.trace, " > "@) + "\n"@,
{
}

} // verus!

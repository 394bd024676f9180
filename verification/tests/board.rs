use wordkeep::izakaya::board::status;
use wordkeep::izakaya::cli::{
    answer_tool, choose_policy, clip, complete_check_out, help_text, parse_flags, read_command,
    read_tool, render, Action,
};
use wordkeep::izakaya::commit::{commit, Answer, Committed, Prepared};
use wordkeep::izakaya::journal::journal_line;
use wordkeep::izakaya::policy::{advise, list, promote, retire};
use wordkeep::izakaya::presence::{
    check_in, check_out, given_metrics, record_decision, record_outcome, update,
    Around,
};
use wordkeep::izakaya::profiles::{
    apply_run_adapters, builtin_coordination, first_number, list_ids, load, Profile, RunFacts,
};
use wordkeep::izakaya::replay::{
    choose_batch, feature_hit, gates_ok, incumbent_spec, parse_spec, report, split_holdout, study,
    Agg, Figures, GateFact, Grade, Spec,
};
use wordkeep::izakaya::store::{
    coordination_id, fold, git_dirty, git_snapshot, hash_id, idempotent_result, load_events,
    load_locked, Event, GitSnapshot, Projection,
};
use wordkeep::izakaya::tools::mcp_tools;
use wordkeep::json::{compact, get_bool, get_items, get_str, parse, pretty, Datum};
use wordkeep::smap::StrMap;

fn value(text: &str) -> Datum {
    parse(text).unwrap()
}

fn no_git() -> GitSnapshot {
    GitSnapshot {
        branch: String::new(),
        head_oid: String::new(),
        base_oid: String::new(),
        dirty_paths: Vec::new(),
        worktree: "/w".into(),
    }
}

/// A group that is kept as its journal alone.
struct Group {
    events: Vec<Event>,
    now: u64,
}

impl Group {
    fn new(now: u64) -> Group {
        Group { events: Vec::new(), now }
    }

    fn projection(&self) -> Projection {
        fold(&self.events, "co")
    }

    fn around(&self) -> Around {
        Around {
            now: self.now,
            ttl_secs: 900,
            suspend_ttl_secs: 86_400,
            workspace_id: "ws".into(),
            root: "/w".into(),
            git: no_git(),
            session: None,
        }
    }

    fn take(&mut self, r: Result<Committed, String>) -> Result<Datum, String> {
        match r? {
            Committed::Answered(v) => Ok(v),
            Committed::Appended(v, event, after) => {
                self.events.push(event);
                let replayed = compact(&self.projection().to_value());
                assert_eq!(compact(&after.to_value()), replayed);
                Ok(v)
            }
        }
    }

    fn check_in(&mut self, args: &str) -> Result<Datum, String> {
        let args = value(args);
        let r = check_in(self.projection(), &args, &self.around());
        self.take(r)
    }

    fn update(&mut self, args: &str) -> Result<Datum, String> {
        let args = value(args);
        let r = update(self.projection(), &args, &self.around());
        self.take(r)
    }

    fn check_out(&mut self, args: &str) -> Result<Datum, String> {
        let args = value(args);
        let r = check_out(self.projection(), &args, &self.around());
        self.take(r)
    }

    fn decide(&mut self, args: &str) -> Result<Datum, String> {
        let r = record_decision(self.projection(), &value(args), self.now);
        self.take(r)
    }

    fn conclude(&mut self, args: &str) -> Result<Datum, String> {
        let args = value(args);
        let r =
            record_outcome(self.projection(), &self.events, &args, self.now, None, &vec![]);
        self.take(r)
    }

    fn status(&self, args: &str) -> Datum {
        status(&self.projection(), &self.events, &value(args), self.now, 3_600).unwrap()
    }

    fn evaluate(&self, doc: &Datum) -> Datum {
        let spec = parse_spec(doc).ok().unwrap();
        let incumbent = parse_spec(&incumbent_spec()).ok().unwrap();
        let profile = builtin_coordination();
        let st = study(
            &self.events,
            &self.projection(),
            &spec,
            &grades(&spec),
            &incumbent,
            &grades(&incumbent),
        );
        let hold = gates(&st.hold_candidate, &st.hold_incumbent, &profile);
        let task =
            st.task_holdout == 0 || gates(&st.task_candidate, &st.task_incumbent, &profile);
        let all = support(&st.full_candidate);
        let figures = Figures {
            support: fraction(all),
            support_text: format!("{all:.3}"),
            holdout_support: fraction(support(&st.hold_candidate)),
            candidate: value("{}"),
            incumbent: value("{}"),
        };
        report(&spec, &profile, &st, &figures, hold, task, "0.2.0")
    }
}

fn fraction(x: f64) -> Datum {
    value(&format!("{x:?}"))
}

fn number(v: &Datum) -> f64 {
    compact(v).parse().unwrap()
}

fn support(a: &Agg) -> f64 {
    let total = a.played.in_support + a.played.out_of_support;
    if total == 0 {
        1.0
    } else {
        a.played.in_support as f64 / total as f64
    }
}

fn grades(s: &Spec) -> Vec<Grade> {
    let score = |overlapping: bool, kind: &str| {
        let mut total = 0.0;
        for (feature, weight) in &s.prefer {
            if feature_hit(feature, overlapping, kind) {
                total += number(weight);
            }
        }
        total * number(&s.beta)
    };
    let mut scores = Vec::new();
    for overlapping in [true, false] {
        for kind in ["continue", "root", "handoff", "other"] {
            scores.push(score(overlapping, kind));
        }
    }
    let least = number(&s.min_score);
    scores
        .iter()
        .map(|x| Grade {
            rank: scores.iter().filter(|y| *y > x).count() as u64,
            eligible: *x >= least,
        })
        .collect()
}

fn least(a: &Agg, gate: &str) -> Option<f64> {
    a.played
        .revealed
        .iter()
        .flat_map(|o| o.metrics.iter())
        .filter(|(k, _)| k == gate)
        .map(|(_, v)| number(v))
        .reduce(f64::min)
}

fn gates(candidate: &Agg, incumbent: &Agg, profile: &Profile) -> bool {
    let facts: Vec<GateFact> = profile
        .gates
        .iter()
        .map(|g| {
            let (c, i) = (least(candidate, g), least(incumbent, g));
            GateFact {
                candidate: c.is_some(),
                incumbent: i.is_some(),
                worse: matches!((c, i), (Some(c), Some(i)) if c + 1e-9 < i),
            }
        })
        .collect();
    gates_ok(&facts)
}

fn text_of(v: &Datum) -> &str {
    get_str(v, "text").unwrap()
}

#[test]
fn lifecycle_lease_overlap_and_handoff() {
    let mut g = Group::new(1_000);
    assert!(text_of(&g.status("{}")).contains("none active"));
    assert!(g.events.is_empty());

    let inn = g
        .check_in(
            r#"{"agent_id": "alpha", "task": "presence",
                "claims": [{"path": "src/a.rs", "symbols": ["Foo"]}],
                "idempotency_key": "in-1", "observe_git": false}"#,
        )
        .unwrap();
    let again = g
        .check_in(r#"{"agent_id": "alpha", "idempotency_key": "in-1", "observe_git": false}"#)
        .unwrap();
    assert_eq!(get_bool(&again, "idempotent"), Some(true));
    let lease = get_str(&inn, "lease_id").unwrap().clone();
    assert!(g.check_in(r#"{"agent_id": "alpha", "observe_git": false}"#).is_err());

    g.check_in(
        r#"{"agent_id": "beta", "claims": [{"path": "src/a.rs", "symbols": ["Foo"]}],
            "observe_git": false}"#,
    )
    .unwrap();
    let board = g.status("{}");
    let text = text_of(&board);
    assert!(text.contains("path_overlap"), "{text}");
    assert!(text.contains("symbol_overlap"), "{text}");

    let err = g.update(r#"{"agent_id": "alpha", "lease_id": "nope", "observe_git": false}"#);
    assert!(err.err().unwrap().contains("lease mismatch"));
    g.update(&format!(
        r#"{{"agent_id": "alpha", "lease_id": "{lease}", "state": "live_code",
            "observe_git": false, "note": {{"to": "beta", "body": "taking src/a.rs first"}}}}"#
    ))
    .unwrap();
    let suspend = g.update(&format!(
        r#"{{"agent_id": "alpha", "lease_id": "{lease}", "state": "suspended",
            "dirty_paths": ["src/a.rs"], "observe_git": false}}"#
    ));
    assert!(suspend.err().unwrap().contains("checkpoint"));
    g.update(&format!(
        r#"{{"agent_id": "alpha", "lease_id": "{lease}", "state": "suspended",
            "dirty_paths": ["src/a.rs"], "checkpoint": "stash@{{0}}", "observe_git": false}}"#
    ))
    .unwrap();

    let out = g
        .check_out(&format!(
            r#"{{"agent_id": "alpha", "lease_id": "{lease}", "reason": "handed_off",
                "handoff": {{"to": "beta", "summary": "finish overlap",
                    "mas_session": "not-a-session", "anchors": ["src/a.rs:1"]}}}}"#
        ))
        .unwrap();
    assert!(text_of(&out).contains("does not finalize"));
    let hid = get_str(&out, "handoff_id").unwrap().clone();
    let gamma = g.check_in(&format!(
        r#"{{"agent_id": "gamma", "handoff_id": "{hid}", "observe_git": false}}"#
    ));
    assert!(gamma.err().unwrap().contains("offered to"));
    let beta_lease = g.projection().agents.get("beta").unwrap().lease_id.clone();
    g.check_in(&format!(
        r#"{{"agent_id": "beta", "handoff_id": "{hid}", "lease_id": "{beta_lease}",
            "observe_git": false}}"#
    ))
    .unwrap();
    assert_eq!(g.projection().handoffs[0].status, "accepted");
}

#[test]
fn expiry_does_not_check_out() {
    let mut g = Group::new(1_000);
    let inn = g
        .check_in(r#"{"agent_id": "alpha", "ttl_secs": 10, "observe_git": false}"#)
        .unwrap();
    g.now = 2_000;
    let board = g.status(r#"{"state": "stale"}"#);
    assert!(text_of(&board).contains("alpha"), "{}", compact(&board));
    assert_eq!(g.projection().agents.get("alpha").unwrap().state, "checked_in");
    let lease = get_str(&inn, "lease_id").unwrap();
    g.update(&format!(
        r#"{{"agent_id": "alpha", "lease_id": "{lease}", "state": "live_code",
            "observe_git": false}}"#
    ))
    .unwrap();
    assert_eq!(g.projection().agents.get("alpha").unwrap().state, "live_code");
}

#[test]
fn incumbent_reproduces_and_hides_unselected_outcomes() {
    let mut g = Group::new(5_000);
    let inn = g.check_in(r#"{"agent_id": "alpha", "observe_git": false}"#).unwrap();
    let lease = get_str(&inn, "lease_id").unwrap().clone();
    g.decide(&format!(
        r#"{{"agent_id": "alpha", "lease_id": "{lease}", "episode_id": "ep1",
            "decision_id": "d1",
            "legal_actions": [
                {{"id": "a1", "overlapping": true, "kind": "continue", "paths": ["src/a.rs"]}},
                {{"id": "secret", "overlapping": false, "kind": "root", "paths": ["src/b.rs"]}}],
            "selected": ["a1"],
            "fingerprints": {{"model": "test", "evaluator": "gates"}},
            "observe_git": false}}"#
    ))
    .unwrap();
    g.conclude(&format!(
        r#"{{"agent_id": "alpha", "lease_id": "{lease}", "decision_id": "d1", "action": "a1",
            "metrics": {{"correctness": 1, "integration": 1, "score": 3}}}}"#
    ))
    .unwrap();
    g.conclude(&format!(
        r#"{{"agent_id": "alpha", "lease_id": "{lease}", "decision_id": "d1", "action": "secret",
            "metrics": {{"future_secret": 12345, "correctness": 0}}}}"#
    ))
    .unwrap();
    g.check_out(&format!(
        r#"{{"agent_id": "alpha", "lease_id": "{lease}", "reason": "completed"}}"#
    ))
    .unwrap();
    let report = g.evaluate(&incumbent_spec());
    let text = text_of(&report);
    assert!(text.contains("d1:a1"), "{text}");
    assert!(!text.contains("future_secret"), "{text}");
    assert!(
        !compact(report.get("revealed_actions").unwrap()).contains("secret"),
        "{}",
        compact(&report)
    );
    let again = g.evaluate(&incumbent_spec());
    assert_eq!(get_str(&report, "report_hash"), get_str(&again, "report_hash"));
    assert_eq!(get_bool(&report, "beta_sweep"), Some(false));
}

#[test]
fn unsupported_action_gets_no_reward_and_open_work_is_censored() {
    let mut g = Group::new(5_000);
    let inn = g.check_in(r#"{"agent_id": "alpha", "observe_git": false}"#).unwrap();
    let lease = get_str(&inn, "lease_id").unwrap().clone();
    g.decide(&format!(
        r#"{{"agent_id": "alpha", "lease_id": "{lease}", "episode_id": "ep-open",
            "decision_id": "d9",
            "legal_actions": [{{"id": "keep", "overlapping": true, "kind": "continue"}},
                {{"id": "leap", "overlapping": false, "kind": "root"}}],
            "selected": ["keep"]}}"#
    ))
    .unwrap();
    g.conclude(&format!(
        r#"{{"agent_id": "alpha", "lease_id": "{lease}", "decision_id": "d9", "action": "leap",
            "metrics": {{"future_secret": 99, "correctness": 1}}}}"#
    ))
    .unwrap();
    let doc = value(
        r#"{"id": "avoid-overlap", "version": 1, "selection": "score", "max_batch": 1,
            "prefer": [{"feature": "non_overlapping", "weight": 5}]}"#,
    );
    let open = g.evaluate(&doc);
    assert!(
        compact(open.get("censored_episodes").unwrap()).contains("ep-open"),
        "{}",
        compact(&open)
    );
    assert!(!compact(&open).contains("future_secret"));
    g.check_out(&format!(r#"{{"agent_id": "alpha", "lease_id": "{lease}"}}"#)).unwrap();
    let closed = g.evaluate(&doc);
    let blob = compact(&closed);
    assert!(blob.contains("out_of_support"), "{blob}");
    assert!(!blob.contains("future_secret"), "{blob}");
    assert_eq!(get_bool(&closed, "promotion_ok"), Some(false));
}

fn episode(g: &mut Group, agent: &str, task: &str, decision: &str) {
    let inn = g
        .check_in(&format!(
            r#"{{"agent_id": "{agent}", "task": "{task}", "observe_git": false}}"#
        ))
        .unwrap();
    let lease = get_str(&inn, "lease_id").unwrap().clone();
    g.decide(&format!(
        r#"{{"agent_id": "{agent}", "lease_id": "{lease}", "episode_id": "{decision}",
            "decision_id": "{decision}", "task": "{task}",
            "legal_actions": [{{"id": "step", "overlapping": false, "kind": "continue"}}],
            "selected": ["step"]}}"#
    ))
    .unwrap();
    g.conclude(&format!(
        r#"{{"agent_id": "{agent}", "lease_id": "{lease}", "decision_id": "{decision}",
            "action": "step", "metrics": {{"correctness": 1, "integration": 1, "cost": 2}}}}"#
    ))
    .unwrap();
    g.check_out(&format!(
        r#"{{"agent_id": "{agent}", "lease_id": "{lease}", "reason": "completed"}}"#
    ))
    .unwrap();
}

#[test]
fn promote_requires_holdout_and_advise_is_side_effect_free() {
    let mut g = Group::new(9_000);
    let try_promote = |g: &mut Group| {
        let report = g.evaluate(&incumbent_spec());
        let shown = text_of(&report).to_string();
        let r = promote(
            g.projection(),
            &incumbent_spec(),
            "coordination",
            &report,
            &shown,
            g.now,
        );
        g.take(r)
    };
    episode(&mut g, "alpha", "task-a", "da");
    let err = try_promote(&mut g).err().unwrap();
    assert!(err.contains("holdout"), "{err}");

    episode(&mut g, "beta", "task-b", "db");
    let promoted = try_promote(&mut g).unwrap();
    assert!(text_of(&promoted).contains("does not assign"));
    let advice = advise(&g.projection(), &value("{}"), g.now, 3_600, "1.000").unwrap();
    assert_eq!(get_bool(&advice, "side_effects"), Some(false));
    assert!(text_of(&advice).contains("read-only"));
    let listed = list(&g.projection(), &vec!["coordination".into()], &vec!["1.000".into()]);
    assert!(text_of(&listed).contains("active: incumbent"), "{}", text_of(&listed));
    let r = retire(g.projection(), "incumbent", g.now);
    g.take(r).unwrap();
    assert!(g.projection().active_policy.is_none());
    assert_eq!(
        retire(g.projection(), "other", g.now).err().unwrap(),
        "unknown policy other"
    );
}

#[test]
fn rejects_shell_profiles_and_loads_extension() {
    let dir = ".wordkeep/izakaya/profiles";
    let bad = value(r#"{"id":"bad","shell":"rm -rf /"}"#);
    assert!(load("bad", &vec![Some(bad)], dir).is_err());
    let kernel = value(
        r#"{"id":"betwixt-kernel","version":1,"extends":"coordination","gates":["correctness"],"objectives":[{"metric":"score","direction":"max","weight":1}],"run_adapters":[{"tag":"bench","metric":"score","from":"summary_number","direction":"max"}]}"#,
    );
    let ids = list_ids(&vec![kernel.copy()]);
    assert!(ids.iter().any(|i| i == "betwixt-kernel"), "{ids:?}");
    let p = load("betwixt-kernel", &vec![Some(kernel), None], dir).ok().unwrap();
    assert!(p.gates.iter().any(|g| g == "correctness"));
    assert!(p.gates.iter().any(|g| g == "integration"));
    assert_eq!(p.objectives[0].metric, "score");
    assert_eq!(compact(&p.objectives[0].weight), "1.0");
    assert_eq!(p.run_adapters[0].tag, "bench");

    let mut metrics: StrMap<Datum> = StrMap::new();
    let run = RunFacts {
        status: "passed".into(),
        tags: vec!["bench".into()],
        duration: None,
        number: first_number("took 12.5 ms").map(|n| value(&n)),
    };
    apply_run_adapters(&p.run_adapters, &run, &mut metrics);
    assert_eq!(compact(metrics.get("score").unwrap()), "12.5");
    assert!(load("none", &vec![None], dir).is_err());
}

fn written(e: &Event) -> String {
    format!("{}\n", journal_line(e))
}

#[test]
fn partial_tail_is_dropped_and_earlier_events_remain() {
    let event = Event {
        v: 1,
        seq: 1,
        id: "e1".into(),
        idempotency_key: None,
        ts: 1,
        kind: "check_in".into(),
        agent_id: "a".into(),
        lease_id: "lease".into(),
        result: "ok".into(),
        body: value(
            r#"{"state":"checked_in","revision":1,"checked_in_at":1,"expires_at":99,"ttl_secs":10}"#,
        ),
    };
    let raw = format!("{}{{\"kind\":", written(&event));
    let (events, mended) = load_events(&raw);
    assert_eq!(events.len(), 1);
    assert!(!mended.unwrap().contains("{\"kind\":"));
    let (snap, _) = load_locked(None, events, "co");
    assert!(snap.projection.agents.get("a").is_some());
    let (_, whole) = load_events(&written(&event));
    assert!(whole.is_none());
}

#[test]
fn missing_projection_rebuilds_from_journal() {
    let event = Event {
        v: 1,
        seq: 3,
        id: "e3".into(),
        idempotency_key: Some("k".into()),
        ts: 5,
        kind: "check_in".into(),
        agent_id: "solver".into(),
        lease_id: "L".into(),
        result: "back".into(),
        body: value(r#"{"state":"live_code","revision":2,"task":"izakaya","expires_at":50}"#),
    };
    let (events, _) = load_events(&written(&event));
    let (snap, rewrite) = load_locked(None, events, "co");
    assert_eq!(snap.projection.seq, 3);
    assert_eq!(snap.projection.agents.get("solver").unwrap().task, "izakaya");
    assert!(rewrite);
    assert_eq!(idempotent_result(&snap.projection, "k").as_deref(), Some("back"));
    let stored = snap.projection.to_value();
    let (_, rewrite) = load_locked(Some(&stored), snap.events, "co");
    assert!(!rewrite);
}

#[test]
fn schema_defaults_missing_optional_fields() {
    let v = value(
        r#"{"version": 1, "seq": 1, "agents": [{"agent_id": "a", "state": "checked_in"}]}"#,
    );
    let p = Projection::from_value(&v).unwrap();
    assert!(p.messages.is_empty());
    assert_eq!(p.agents.get("a").unwrap().claims.len(), 0);
    assert!(Projection::from_value(&value(r#"{"version": 99}"#)).is_none());
}

#[test]
fn linked_worktrees_share_coordination_id() {
    let a = coordination_id(Some("/repo/.git"), "one");
    assert_eq!(a, coordination_id(Some("/repo/.git"), "two"));
    assert_ne!(a, coordination_id(Some("/other/.git"), "one"));
    assert_ne!(coordination_id(None, "one"), coordination_id(None, "two"));
    assert_ne!(hash_id("one"), "one");
    assert_eq!(hash_id("one"), hash_id("one"));
}

#[test]
fn git_status_is_read_with_renames() {
    let dirty = git_dirty(b" M src/a.rs\0?? new.txt\0R  b.rs\0old.rs\0");
    assert!(dirty.iter().any(|p| p == "src/a.rs"), "{dirty:?}");
    assert!(dirty.iter().any(|p| p == "new.txt"), "{dirty:?}");
    assert!(dirty.iter().any(|p| p == "b.rs"), "{dirty:?}");
    assert_eq!(git_dirty(&[b'?', b'?', b' ', b'a', 0xff, b'b', 0]), vec!["a\u{fffd}b"]);
    let snap = git_snapshot("main", "abc", "base", "parent", b" M src/a.rs\0", "/w");
    assert_eq!((snap.branch.as_str(), snap.head_oid.as_str()), ("main", "abc"));
    assert_eq!(snap.base_oid, "base");
}

#[test]
fn dependent_actions_are_not_batched() {
    let mut g = Group::new(1);
    let inn = g.check_in(r#"{"agent_id": "a", "observe_git": false}"#).unwrap();
    let lease = get_str(&inn, "lease_id").unwrap().clone();
    g.decide(&format!(
        r#"{{"agent_id": "a", "lease_id": "{lease}", "decision_id": "d",
            "legal_actions": [
                {{"id": "x", "paths": ["src"]}}, {{"id": "y", "paths": ["src/b.rs"]}},
                {{"id": "z", "paths": ["docs"]}}, {{"id": "w", "causal_parents": ["z"]}}],
            "selected": ["x"]}}"#
    ))
    .unwrap();
    let d = wordkeep::izakaya::replay::decision_from(&g.events[1]).unwrap();
    let all = vec![Grade { rank: 0, eligible: true }; 8];
    let ids: Vec<String> = choose_batch(&d.legal, &all, 32).into_iter().map(|a| a.id).collect();
    assert_eq!(ids, vec!["w", "x"]);
    let none = vec![Grade { rank: 0, eligible: false }; 8];
    assert!(choose_batch(&d.legal, &none, 32).is_empty());
}

#[test]
fn a_fifth_of_the_worlds_is_held_out() {
    let mut g = Group::new(1);
    for i in 0..11 {
        g.now = 10 + i;
        episode(&mut g, &format!("agent-{i}"), "t", &format!("d{i:02}"));
    }
    let worlds = wordkeep::izakaya::replay::compile_worlds(&g.events, &g.projection());
    let (train, hold) = split_holdout(&worlds);
    assert_eq!((train.len(), hold.len()), (8, 3));
    assert_eq!(worlds[hold[0]].episode_id, "d08");
}

#[test]
fn bad_specs_are_refused() {
    let fails = |text: &str| parse_spec(&value(text)).err().unwrap();
    assert_eq!(fails(r#"{"version": 2}"#), "unsupported policy version 2");
    assert_eq!(
        fails(r#"{"selection": "best"}"#),
        "policy.selection must be recorded or score"
    );
    assert_eq!(
        fails(r#"{"max_batch": 33}"#),
        "policy max_batch must be 1..=32 and max_rounds 1..=10000"
    );
    assert_eq!(
        fails(r#"{"prefer": [{"feature": "luck"}]}"#),
        "unknown policy feature luck"
    );
    assert_eq!(fails(r#"{"beta": 0}"#), "policy.beta must be > 0");
    assert_eq!(fails(r#"{"beta": -0.5}"#), "policy.beta must be > 0");
    assert!(parse_spec(&value(r#"{"shell": "x"}"#)).is_err());
    assert!(parse_spec(&value(r#"{"id": "../x"}"#)).is_err());
}

fn argv(v: &[&str]) -> Vec<String> {
    v.iter().map(|s| s.to_string()).collect()
}

#[test]
fn commands_are_read_from_the_line() {
    let c = read_command(&argv(&["check-in", "--agent", "a"])).ok().unwrap();
    assert!(matches!(c.action, Action::CheckIn));
    assert_eq!(get_str(&c.args, "agent_id").map(|s| s.as_str()), Some("a"));
    assert!(read_command(&argv(&["dance"])).is_err());
    assert_eq!(
        parse_flags(&argv(&["--task"])).err().unwrap(),
        "--task needs a value"
    );
    assert_eq!(
        parse_flags(&argv(&["--dance", "x"])).err().unwrap(),
        "unknown flag --dance"
    );
    assert!(!help_text().is_empty());
    let flags = parse_flags(&argv(&["--task", "x"])).unwrap();
    assert_eq!(get_str(&flags, "task").map(|s| s.as_str()), Some("x"));
    let done = complete_check_out(value(r#"{"agent_id": "a", "handoff_to": "b"}"#));
    assert_eq!(get_str(&done, "reason").map(|s| s.as_str()), Some("handed_off"));
    assert_eq!(
        compact(done.get("handoff").unwrap()),
        r#"{"checkpoint":null,"mas_session":null,"summary":"","to":"b"}"#
    );
    let done = complete_check_out(value(r#"{"agent_id": "a"}"#));
    assert!(done.get("reason").is_none());
    assert_eq!(compact(&choose_policy(&value("{}"))), compact(&incumbent_spec()));
}

#[test]
fn every_offered_tool_has_an_action() {
    let tools = mcp_tools();
    assert_eq!(tools.len(), 8);
    for t in &tools {
        assert!(read_tool(&t.name).is_ok(), "{}", t.name);
    }
    assert!(read_tool("izakaya_dance").is_err());
    let v = value(r#"{"text": "hello"}"#);
    assert_eq!(answer_tool(&v, &value("{}")), "hello");
    assert_eq!(render(&v, &None).unwrap(), "hello");
    let long = "x".repeat(10_000);
    assert!(clip(long, &value(r#"{"token_budget": 64}"#)).len() < 1_000);
    assert!(get_items(&v, "text").is_none());
}

#[test]
fn an_update_without_a_note_sends_none() {
    let mut g = Group::new(1_000);
    let inn = g.check_in(r#"{"agent_id": "a", "observe_git": false}"#).unwrap();
    let lease = get_str(&inn, "lease_id").unwrap().clone();
    let call = |note: &str| {
        format!(r#"{{"agent_id": "a", "lease_id": "{lease}", "observe_git": false{note}}}"#)
    };
    g.update(&call(r#", "note": {"to": "", "body": "hello"}"#)).unwrap();
    g.update(&call("")).unwrap();
    g.update(&call(r#", "ack_seqs": [2]"#)).unwrap();
    let p = g.projection();
    assert_eq!(p.messages.len(), 1);
    assert_eq!((p.messages[0].seq, p.messages[0].body.as_str()), (2, "hello"));
    assert!(p.messages[0].acked);
    assert!(!compact(&g.events[2].to_value()).contains("\"note\""));
    // An older journal may hold a note that is null.
    let mut old = g.events[1].copy();
    old.body = value(r#"{"state": "checked_in", "revision": 2, "note": null}"#);
    let events = vec![g.events[0].copy(), old];
    assert!(fold(&events, "co").messages.is_empty());
}

#[test]
fn the_journal_gives_back_what_was_written() {
    let mut g = Group::new(1_000);
    let inn = g
        .check_in(
            r#"{"agent_id": "a", "task": "two\nlines", "idempotency_key": "k",
                "claims": ["src/x.rs"], "observe_git": false}"#,
        )
        .unwrap();
    let lease = get_str(&inn, "lease_id").unwrap().clone();
    g.check_out(&format!(
        r#"{{"agent_id": "a", "lease_id": "{lease}", "handoff": {{"summary": "next"}}}}"#
    ))
    .unwrap();
    let text: String = g.events.iter().map(written).collect();
    assert_eq!(text.lines().count(), 2);
    let (events, mended) = load_events(&text);
    assert!(mended.is_none());
    assert_eq!(events.len(), 2);
    for (a, b) in events.iter().zip(&g.events) {
        assert_eq!(compact(&a.to_value()), compact(&b.to_value()));
    }
    let p = g.projection();
    let back = Projection::from_value(&p.to_value()).unwrap();
    assert_eq!(compact(&back.to_value()), compact(&p.to_value()));
    assert_eq!(back.handoffs[0].summary, "next");
    let kept = parse(&pretty(&p.to_value())).unwrap();
    assert_eq!(compact(&kept), compact(&p.to_value()));
}

#[test]
fn a_repeated_call_gets_its_first_answer() {
    let mut g = Group::new(1_000);
    let first = g
        .check_in(r#"{"agent_id": "a", "idempotency_key": "k", "observe_git": false}"#)
        .unwrap();
    g.check_in(r#"{"agent_id": "b", "idempotency_key": "other", "observe_git": false}"#).unwrap();
    let again = g
        .check_in(r#"{"agent_id": "a", "idempotency_key": "k", "observe_git": false}"#)
        .unwrap();
    assert_eq!(get_str(&again, "text"), get_str(&first, "text"));
    assert_eq!(g.events.len(), 2);
}

#[test]
fn claims_stay_below_the_root() {
    let mut g = Group::new(1_000);
    let err = g
        .check_in(r#"{"agent_id": "a", "claims": ["../x"], "observe_git": false}"#)
        .err()
        .unwrap();
    assert!(err.contains(".."), "{err}");
    g.check_in(r#"{"agent_id": "a", "claims": ["./src\\x.rs"], "observe_git": false}"#).unwrap();
    assert_eq!(g.projection().agents.get("a").unwrap().claims[0].path, "src/x.rs");
}

#[test]
fn a_lease_without_an_end_protects_too() {
    let event = Event {
        v: 1,
        seq: 1,
        id: "e1".into(),
        idempotency_key: None,
        ts: 1,
        kind: "check_in".into(),
        agent_id: "a".into(),
        lease_id: "lease".into(),
        result: "ok".into(),
        body: value(r#"{"state":"checked_in","revision":1,"expires_at":0}"#),
    };
    let mut g = Group { events: vec![event], now: 9_000_000 };
    assert!(g.check_in(r#"{"agent_id": "a", "observe_git": false}"#).is_err());
    assert!(g.check_in(r#"{"agent_id": "a", "force": true, "observe_git": false}"#).is_ok());
}

#[test]
fn numbers_are_taken_as_doubles() {
    let spec = parse_spec(&value(
        r#"{"beta": 2, "min_score": -3,
            "prefer": [{"feature": "root", "weight": 5}, {"feature": "handoff", "weight": 0.25}]}"#,
    ))
    .ok()
    .unwrap();
    assert_eq!(compact(&spec.beta), "2.0");
    assert_eq!(compact(&spec.min_score), "-3.0");
    assert_eq!(compact(&spec.prefer[0].1), "5.0");
    assert_eq!(compact(&spec.prefer[1].1), "0.25");
    assert!(parse_spec(&value(r#"{"beta": -1}"#)).is_err());

    let given = given_metrics(&value(
        r#"{"metrics": {"a": 3, "b": "x", "c": 1.5, "d": 1000000000000000, "e": 9007199254740993,
            "f": 18446744073709551615, "g": -9223372036854775808, "h": 0}}"#,
    ));
    let shown: Vec<String> = given.iter().map(|(k, v)| format!("{k}={}", compact(v))).collect();
    let double = |x: f64| serde_json::Value::from(x).to_string();
    assert_eq!(
        shown,
        vec![
            "a=3.0".to_string(),
            "c=1.5".into(),
            "d=1000000000000000.0".into(),
            "e=9007199254740992.0".into(),
            format!("f={}", double(u64::MAX as f64)),
            format!("g={}", double(i64::MIN as f64)),
            "h=0.0".into(),
        ]
    );

    let stored = value(r#"{"support": 1}"#);
    assert_eq!(compact(&wordkeep::izakaya::records::support_of(&stored)), "1.0");
    assert_eq!(compact(&wordkeep::izakaya::records::support_of(&value("{}"))), "0.0");
}

#[test]
fn recorded_metrics_are_doubles() {
    let mut g = Group::new(1_000);
    let inn = g.check_in(r#"{"agent_id": "a", "observe_git": false}"#).unwrap();
    let lease = get_str(&inn, "lease_id").unwrap().clone();
    g.decide(&format!(
        r#"{{"agent_id": "a", "lease_id": "{lease}", "episode_id": "e", "decision_id": "d",
            "legal_actions": [{{"id": "x", "kind": "root"}}], "selected": ["x"]}}"#
    ))
    .unwrap();
    let args = value(&format!(
        r#"{{"agent_id": "a", "lease_id": "{lease}", "decision_id": "d", "action": "x",
            "metrics": {{"score": 3}}}}"#
    ));
    let run = RunFacts {
        status: "passed".into(),
        tags: vec![],
        duration: Some(40),
        number: None,
    };
    let adapters = builtin_coordination().run_adapters;
    let r = record_outcome(g.projection(), &g.events, &args, g.now, Some(&adapters), &vec![run]);
    g.take(r).unwrap();
    assert_eq!(
        compact(g.events.last().unwrap().body.get("metrics").unwrap()),
        r#"{"correctness":1.0,"cost":40.0,"critical_path":40.0,"integration":1.0,"score":3.0}"#
    );
    // Such an event comes back from the journal.
    let event = g.events.last().unwrap();
    let (events, _) = load_events(&written(event));
    assert_eq!(compact(&events[0].to_value()), compact(&event.to_value()));
}

fn change(agent: &str, key: Option<&str>) -> Prepared {
    Prepared {
        kind: "update".into(),
        agent_id: agent.into(),
        lease_id: "l".into(),
        idempotency_key: key.map(String::from),
        body: value("{}"),
        answer: Answer::Update,
    }
}

#[test]
fn a_stored_answer_comes_back_whatever_is_prepared() {
    let mut g = Group::new(1_000);
    let first = g
        .check_in(r#"{"agent_id": "a", "idempotency_key": "k", "observe_git": false}"#)
        .unwrap();
    // The agent of this change is not there, so it could not be answered anew.
    let again = match commit(g.projection(), change("nobody", Some("k")), 9_999) {
        Committed::Answered(v) => v,
        Committed::Appended(..) => panic!("a change was made"),
    };
    assert_eq!(get_bool(&again, "idempotent"), Some(true));
    assert_eq!(compact(again.get("seq").unwrap()), "1");
    assert_eq!(text_of(&again), text_of(&first));
}

#[test]
fn only_the_oldest_answer_is_forgotten() {
    let mut events: Vec<Event> = Vec::new();
    for i in 1..=257u64 {
        events.push(Event {
            v: 1,
            seq: i,
            id: format!("e{i}"),
            idempotency_key: Some(format!("k{i}")),
            ts: i,
            kind: "decision".into(),
            agent_id: "a".into(),
            lease_id: "l".into(),
            result: format!("r{i}"),
            body: value("{}"),
        });
    }
    let full = fold(&events[..256].iter().map(|e| e.copy()).collect(), "co");
    assert_eq!(full.idempotency.entries.len(), 256);
    assert_eq!(idempotent_result(&full, "k1").as_deref(), Some("r1"));
    let over = fold(&events, "co");
    assert_eq!(over.idempotency.entries.len(), 256);
    assert!(idempotent_result(&over, "k1").is_none());
    for i in 2..=257 {
        assert_eq!(idempotent_result(&over, &format!("k{i}")), Some(format!("r{i}")));
    }
    // A key that is there already takes no room.
    events[256].idempotency_key = Some("k5".into());
    let same = fold(&events, "co");
    assert_eq!(idempotent_result(&same, "k1").as_deref(), Some("r1"));
    assert_eq!(idempotent_result(&same, "k5").as_deref(), Some("r257"));
}

use wordkeep::args::{optional_str, required_str, string_array};
use wordkeep::json::{compact, get_items, get_str, parse, pretty, set_member, str_value, Datum};
use wordkeep::mcp::{answer_call, Server, Step, Tool};
use wordkeep::profile_upsert::{
    candidates, config_text, covered_path_prefixes, derive_name, discover, is_covered, merge,
    plan, read_symbol, render,
};
use wordkeep::progress::{progress_enabled, token_from_call_params, Progress};
use wordkeep::runs::{
    cli_args, get, history, load_all, recent, recent_failed, record, run_from_value, run_to_value,
    save_all, validate_status, CliArgs, Run,
};
use wordkeep::session_pressure::{
    last_handoff_ts, level_from_score, mark_handoff, report, Signals,
};
use wordkeep::stats::{event_line, events_since, read_events, Event};
use wordkeep::symbol_context::{indent_clip, read_ask, render_missing};

fn value(text: &str) -> Datum {
    parse(text).unwrap()
}

#[test]
fn token_from_meta() {
    let params = value(
        r#"{"name": "repo_map", "arguments": {}, "_meta": { "progressToken": "abc-1" }}"#,
    );
    assert_eq!(
        token_from_call_params(&params).map(|t| compact(&t)).as_deref(),
        Some("\"abc-1\"")
    );
    let params = value(r#"{"_meta": { "progressToken": null }}"#);
    assert!(token_from_call_params(&params).is_none());
}

#[test]
fn tick_without_token_is_noop() {
    let mut p = Progress { enabled: true, token: None };
    p.clear();
    assert!(p.tick(1, Some(10), "scanning").is_none());
}

#[test]
fn ticks_carry_the_token() {
    let mut p = Progress { enabled: true, token: None };
    p.install(Some(value("7")));
    let note = p.tick(1, Some(10), "scanning").unwrap();
    let params = note.get("params").unwrap();
    assert_eq!(compact(params.get("progressToken").unwrap()), "7");
    assert_eq!(compact(params.get("total").unwrap()), "10");
    assert_eq!(get_str(params, "message").unwrap(), "scanning");
    let mut off = Progress { enabled: false, token: None };
    off.install(Some(value("7")));
    assert!(off.tick(1, None, "x").is_none());
    assert!(progress_enabled(&Some("on".into())));
    assert!(!progress_enabled(&Some("0".into())));
    assert!(!progress_enabled(&None));
}

fn server() -> Server {
    Server {
        tools: vec![Tool {
            name: "outline".into(),
            description: "lists".into(),
            input_schema: value(r#"{"type": "object"}"#),
        }],
        server_name: "wordkeep".into(),
        server_version: "0.2.0".into(),
    }
}

fn answer(req: &str) -> Datum {
    match server().handle(&value(req)) {
        Step::Answer(v) => v,
        _ => panic!("no answer to {req}"),
    }
}

#[test]
fn requests_are_answered_under_their_ids() {
    let v = answer(r#"{"jsonrpc": "2.0", "id": 5, "method": "initialize", "params": {}}"#);
    assert_eq!(compact(v.get("id").unwrap()), "5");
    let info = v.get("result").unwrap().get("serverInfo").unwrap();
    assert_eq!(get_str(info, "name").unwrap(), "wordkeep");
    let v = answer(r#"{"id": "x", "method": "tools/list"}"#);
    let tools = get_items(v.get("result").unwrap(), "tools").unwrap();
    assert_eq!(get_str(&tools[0], "name").unwrap(), "outline");
    let v = answer(r#"{"id": 1, "method": "dance"}"#);
    assert!(v.get("error").is_some(), "{}", compact(&v));
    let v = answer(r#"{"id": 1, "method": "tools/call", "params": {"name": "none"}}"#);
    assert!(compact(&v).contains("none"), "{}", compact(&v));
    assert!(matches!(
        server().handle(&value(r#"{"method": "notifications/initialized"}"#)),
        Step::Quiet
    ));
}

#[test]
fn calls_are_handed_on_and_answered() {
    let req = r#"{"id": 9, "method": "tools/call",
        "params": {"name": "outline", "arguments": {"file": "a"}}}"#;
    match server().handle(&value(req)) {
        Step::Call { id, tool, arguments } => {
            assert_eq!(tool, 0);
            assert_eq!(compact(&arguments), r#"{"file":"a"}"#);
            let v = answer_call(id, &Ok("fine".into()));
            assert_eq!(compact(v.get("id").unwrap()), "9");
            assert!(compact(&v).contains("fine"));
        }
        _ => panic!("no call"),
    }
    let v = answer_call(value("9"), &Err("boom".into()));
    assert!(compact(&v).contains("boom"), "{}", compact(&v));
    assert!(compact(&v).contains("\"isError\":true"), "{}", compact(&v));
}

#[test]
fn record_and_update() {
    let (runs, _) = record(
        vec![],
        &value(r#"{"id":"r1","command":"ctest","status":"running"}"#),
        10,
    )
    .ok()
    .unwrap();
    let (runs, _) = record(
        runs,
        &value(r#"{"id":"r1","command":"ctest","status":"failed","exit_code":1,"summary":"boom"}"#),
        20,
    )
    .ok()
    .unwrap();
    assert_eq!(runs.len(), 1);
    let out = history(&runs, &value(r#"{"status":"failed"}"#), &vec![]);
    assert!(out.contains("r1"));
    assert!(out.contains("boom"));
    let run = get(&runs, "r1").unwrap();
    assert_eq!((run.created, run.updated, run.exit_code), (10, 20, Some(1)));
    assert_eq!(recent_failed(&runs, 5).len(), 1);
    let mut many = runs;
    for (id, status, at) in [("r2", "failed", 5), ("r3", "passed", 40), ("r4", "failed", 20)] {
        let call = format!(r#"{{"id":"{id}","command":"c","status":"{status}"}}"#);
        many = record(many, &value(&call), at).ok().unwrap().0;
    }
    let all = recent(&many, 100);
    let failed: Vec<&str> =
        all.iter().filter(|r| r.status == "failed").map(|r| r.id.as_str()).take(2).collect();
    let few = recent_failed(&many, 2);
    assert_eq!(few.iter().map(|r| r.id.as_str()).collect::<Vec<_>>(), failed);
    let runs = many;
    let again = load_all(Some(&save_all(&runs, "ws", 30)));
    assert_eq!(again[0].summary, "boom");
    let back: Run = run_from_value(&run_to_value(&run)).unwrap();
    assert_eq!(back.command, "ctest");
    assert!(load_all(None).is_empty());
}

#[test]
fn bad_reports_are_refused() {
    assert!(validate_status("running").is_ok());
    assert!(validate_status("dancing").is_err());
    let fails = |text: &str| record(vec![], &value(text), 1).err().unwrap();
    assert!(fails("{}").contains("required"));
    assert!(fails(r#"{"command":"c","status":"dancing"}"#).contains("dancing"));
}

#[test]
fn run_reports_are_read_from_the_line() {
    let line = |v: &[&str]| cli_args(&v.iter().map(|s| s.to_string()).collect());
    assert!(matches!(line(&["--help"]), CliArgs::Help));
    let bad = |v: &[&str]| match line(v) {
        CliArgs::Bad(e) => e,
        _ => panic!("not refused"),
    };
    assert_eq!(bad(&["--dance"]), "unknown flag --dance");
    assert_eq!(bad(&["--id"]), "missing value for --id");
    assert_eq!(bad(&["--exit-code", "x"]), "--exit-code must be an integer");
    match line(&["stray", "--id", "r1", "--command", "make", "--status", "passed", "--exit-code", "0"]) {
        CliArgs::Report(v) => {
            assert_eq!(get_str(&v, "command").unwrap(), "make");
            assert_eq!(compact(v.get("exit_code").unwrap()), "0");
        }
        _ => panic!("no report"),
    }
}

#[test]
fn level_thresholds() {
    assert_eq!(level_from_score(0), "low");
    assert_eq!(level_from_score(4), "medium");
    assert_eq!(level_from_score(7), "high");
    assert_eq!(level_from_score(12), "critical");
}

#[test]
fn events_since_reads_beyond_ring_for_pressure() {
    let lines: Vec<String> = (1..=220u64)
        .map(|i| {
            event_line(&Event {
                ts: i,
                tool: "outline".into(),
                baseline: 1,
                returned: 1,
                elapsed_us: 100,
                outcome: if i % 10 == 0 { "error".into() } else { "ok".into() },
                reason: None,
                workspace_id: "wid".into(),
                bytes_read: 0,
                cache_hits: 0,
                cache_misses: 0,
                wordkeep_version: "0.2.0".into(),
            })
        })
        .collect();
    let events = events_since(&read_events(&lines), "wid", 0);
    assert!(events.len() > 200, "got {}", events.len());
    let signals = Signals {
        since: None,
        outcomes: events.iter().map(|e| e.outcome.clone()).collect(),
        defects: vec![],
        failed_runs: 0,
        session: None,
    };
    let text = report(&signals);
    assert!(text.contains("session_pressure"), "{text}");
}

#[test]
fn markers_tell_the_time_of_a_handoff() {
    assert_eq!(last_handoff_ts(Some(&mark_handoff(77, "ws"))), Some(77));
    assert_eq!(last_handoff_ts(None), None);
}

#[test]
fn derive_name_from_deepest_segment() {
    assert_eq!(derive_name(&vec!["web/bifrost".into()]).unwrap(), "bifrost");
    assert_eq!(derive_name(&vec!["tools/kkbp/".into()]).unwrap(), "kkbp");
}

fn run_plan(args: &str, existing: &[&str]) -> Result<wordkeep::profile_upsert::Plan, String> {
    let existing = existing.iter().map(|s| s.to_string()).collect();
    plan(
        &value(args),
        &Ok(vec!["web/bifrost".into()]),
        &Ok(vec![]),
        &None,
        &existing,
    )
}

#[test]
fn propose_does_not_write() {
    let p = run_plan(r#"{"mode":"propose","paths":["web/bifrost"]}"#, &["engine"]).ok().unwrap();
    assert!(!p.apply);
    let out = render(&p);
    assert!(out.contains("dry-run"), "{out}");
    assert!(out.contains("bifrost"), "{out}");
}

#[test]
fn apply_merges_and_collision_requires_force() {
    let cfg = value(r#"{"path_profiles":{"engine":["src"]},"keep":true}"#);
    let p = run_plan(
        r#"{"mode":"apply","paths":["web/bifrost"],"name":"bifrost"}"#,
        &["engine"],
    )
    .ok()
    .unwrap();
    assert!(p.apply);
    assert!(render(&p).contains("wrote"));
    let cfg = merge(&cfg, &p).ok().unwrap();
    let cfg = value(&config_text(&cfg));
    assert_eq!(compact(cfg.get("keep").unwrap()), "true");
    let profiles = cfg.get("path_profiles").unwrap();
    assert_eq!(compact(profiles.get("bifrost").unwrap()), r#"["web/bifrost"]"#);
    assert_eq!(compact(profiles.get("engine").unwrap()), r#"["src"]"#);
    let hints = get_items(cfg.get("profile_hints").unwrap(), "bifrost").unwrap();
    assert!(!hints.is_empty());
    let scopes = get_items(cfg.get("commit_scopes").unwrap(), "bifrost").unwrap();
    assert_eq!(compact(&scopes[0]), "\"web/bifrost/\"");

    let err = run_plan(
        r#"{"mode":"apply","paths":["web/bifrost"],"name":"bifrost"}"#,
        &["engine", "bifrost"],
    )
    .err()
    .unwrap();
    assert!(err.contains("already exists"), "{err}");

    let p = run_plan(
        r#"{"mode":"apply","paths":["web/bifrost"],"name":"bifrost","force":true,"hints":["wallspin"]}"#,
        &["engine", "bifrost"],
    )
    .ok()
    .unwrap();
    let cfg = merge(&cfg, &p).ok().unwrap();
    let hints = get_items(cfg.get("profile_hints").unwrap(), "bifrost").unwrap();
    assert!(hints.iter().any(|h| compact(h) == "\"wallspin\""));
}

#[test]
fn uncovered_directories_are_candidates() {
    let cfg = value(r#"{"path_profiles":{"site":["web/old"]}}"#);
    let covered = covered_path_prefixes(&cfg);
    assert!(is_covered("web/old/x", &covered));
    assert!(!is_covered("web/older", &covered));
    let found = candidates(
        &vec!["old".into(), "new".into()],
        &vec!["kit".into()],
        false,
        &covered,
    );
    assert_eq!(found, vec!["tools/kit", "web/new"]);
    assert!(discover(vec![], "Widget").is_err());
    assert_eq!(
        read_symbol(&value(r#"{"symbol": "Widget"}"#)).as_deref(),
        Some("Widget")
    );
}

#[test]
fn arguments_are_trimmed_and_required() {
    let a = value(r#"{"a": " x ", "b": "  ", "c": ["p", 3, "q"]}"#);
    assert!(required_str(&a, "missing").unwrap_err().contains("missing is required"));
    assert!(required_str(&a, "b").is_err());
    assert!(required_str(&a, "a").is_ok());
    assert_eq!(optional_str(&a, "b"), None);
    assert_eq!(string_array(&a, "c"), vec!["p", "q"]);
}

#[test]
fn json_is_read_and_written() {
    let text = r#"{"b":[1,-2,1.5,"x\n"],"a":null,"c":true}"#;
    let v = value(text);
    assert_eq!(compact(&v), r#"{"a":null,"b":[1,-2,1.5,"x\n"],"c":true}"#);
    assert_eq!(compact(&value(&pretty(&v))), compact(&v));
    assert!(pretty(&v).contains("\n  \"a\": null"));
    assert!(parse("{").is_none());
    assert_eq!(compact(&value("18446744073709551615")), "18446744073709551615");
    let w = set_member(v, "a", str_value("y"));
    assert_eq!(get_str(&w, "a").unwrap(), "y");
}

#[test]
fn contexts_are_asked_for_and_clipped() {
    assert!(read_ask(&value("{}")).is_none());
    let ask = read_ask(&value(r#"{"symbol": "Widget"}"#)).unwrap();
    assert_eq!(ask.symbol, "Widget");
    let clipped = indent_clip(&"line\n".repeat(100), 3);
    assert!(clipped.len() < 500, "{clipped}");
    let text = render_missing("Widget", &vec!["src".into()], "");
    assert!(text.contains("Widget") && text.contains("no definition found"), "{text}");
}

#[test]
fn the_newest_runs_come_first() {
    let mut all: Vec<Run> = Vec::new();
    for (id, now) in [("old", 1), ("new", 9), ("middle", 5)] {
        let report = value(&format!(r#"{{"id":"{id}","command":"c","status":"failed"}}"#));
        all = record(all, &report, now).ok().unwrap().0;
    }
    let ids: Vec<String> = recent_failed(&all, 2).into_iter().map(|r| r.id).collect();
    assert_eq!(ids, vec!["new", "middle"]);
}

use wordkeep::json::parse;
use wordkeep::smap::StrMap;
use wordkeep::stats::figures::{commafy, elapsed, pct, pct_precise, percentile_us};
use wordkeep::stats::report::{
    call_line, do_totals_fit, read_report, read_snapshot, render, render_insights, render_json,
    report,
};
use wordkeep::stats::{
    classify_outcome, event_from_value, event_line, event_to_value, events_since, finish,
    init_registry, is_net_negative, is_notable_low_yield, outcome_reason, read_events, record,
    record_ext, saved, set_workspace_root, take_meta, tool_from_value, tool_to_value, Event,
    Outcome, Pending, RecordMeta, Store, Tool,
};

#[test]
fn pct_is_saturating_ratio() {
    assert_eq!(pct(0, 0), 0);
    assert_eq!(pct(50, 100), 50);
    assert_eq!(pct(97, 100), 97);
    assert_eq!(pct(100, 0), 0);
}

#[test]
fn pct_precise_keeps_one_decimal_near_100() {
    assert_eq!(pct_precise(0, 0), "0");
    assert_eq!(pct_precise(100, 100), "100");
    assert_eq!(pct_precise(50, 100), "50.0");
    // 99.94% must not round to 100.
    assert_eq!(pct_precise(9_994, 10_000), "99.9");
    assert_eq!(pct_precise(9_995, 10_000), "99.9"); // {:.1} → 100.0 clamped
}

#[test]
fn commafy_groups_thousands_and_abbreviates_large() {
    assert_eq!(commafy(0), "0");
    assert_eq!(commafy(42), "42");
    assert_eq!(commafy(1_000), "1,000");
    assert_eq!(commafy(120_500), "120,500");
    assert_eq!(commafy(999_999), "999,999");
    assert_eq!(commafy(1_000_000), "1M");
    assert_eq!(commafy(3_250_000), "3.25M");
    assert_eq!(commafy(3_200_000), "3.2M");
    assert_eq!(commafy(1_234_567_890), "1.23B");
    assert_eq!(commafy(3_250_000_000_000), "3.25T");
    assert_eq!(commafy(1_500_000_000_000_000), "1.5Q");
}

fn float_pct(saved: u64, baseline: u64) -> String {
    let rounded = format!("{:.1}", saved as f64 / baseline as f64 * 100.0);
    if rounded == "100.0" {
        "99.9".to_string()
    } else {
        rounded
    }
}

fn float_commas(n: u64) -> String {
    let (div, suffix) = if n >= 1_000_000_000_000_000 {
        (1e15, "Q")
    } else if n >= 1_000_000_000_000 {
        (1e12, "T")
    } else if n >= 1_000_000_000 {
        (1e9, "B")
    } else {
        (1e6, "M")
    };
    let raw = format!("{:.2}", n as f64 / div);
    format!("{}{suffix}", raw.trim_end_matches('0').trim_end_matches('.'))
}

#[test]
fn figures_round_as_doubles_do() {
    let mut x: u64 = 88_172_645_463_325_252;
    for i in 0..20_000u32 {
        x ^= x << 13;
        x ^= x >> 7;
        x ^= x << 17;
        let baseline = (x >> (i % 60)).max(2);
        let saved = x.rotate_left(23) % baseline;
        assert_eq!(pct_precise(saved, baseline), float_pct(saved, baseline), "{saved}/{baseline}");
        let n = (x >> (i % 44)).max(1_000_000);
        assert_eq!(commafy(n), float_commas(n), "{n}");
    }
    for n in [1_005_000u64, 1_015_000, 1_025_000, 2_675_000, 1_115_000, u64::MAX] {
        assert_eq!(commafy(n), float_commas(n), "{n}");
    }
}

#[test]
fn ages_are_told_in_their_two_largest_units() {
    assert_eq!(elapsed(100, 50), "0m ago");
    assert_eq!(elapsed(0, 3_540), "59m ago");
    assert_eq!(elapsed(0, 3_700), "1h 1m ago");
    assert_eq!(elapsed(0, 90_000), "1d 1h ago");
}

#[test]
fn percentiles_round_half_up() {
    assert_eq!(percentile_us(&vec![], 50), None);
    assert_eq!(percentile_us(&vec![9, 1, 5], 50), Some(5));
    assert_eq!(percentile_us(&vec![4, 3, 2, 1], 50), Some(3));
    assert_eq!(percentile_us(&(1..=100).collect(), 95), Some(95));
    assert_eq!(percentile_us(&(1..=100).collect(), 101), Some(100));
    assert_eq!(percentile_us(&vec![3, 1, 2], u64::MAX), Some(3));
    for n in 1..300usize {
        for p in [50u64, 95] {
            let v: Vec<u64> = (0..n as u64).collect();
            let at = ((p as f64 / 100.0) * (n as f64 - 1.0)).round() as usize;
            assert_eq!(percentile_us(&v, p), Some(at.min(n - 1) as u64), "{n} {p}");
        }
    }
}

#[test]
fn classify_outcome_tags() {
    assert_eq!(classify_outcome(&Err("x".into()), 100), Outcome::Error);
    assert_eq!(
        classify_outcome(&Err("symbol is required".into()), 0),
        Outcome::Invalid
    );
    assert_eq!(
        classify_outcome(&Err("mode pitfall requires: symptom, fix".into()), 0),
        Outcome::Invalid
    );
    assert_eq!(
        classify_outcome(&Ok("… (truncated by token_budget)\n".into()), 500),
        Outcome::Truncated
    );
    assert_eq!(
        classify_outcome(&Ok("… (+3 more; raise \"max\")\n".into()), 500),
        Outcome::Truncated
    );
    assert_eq!(
        classify_outcome(&Ok("outline - a.txt: unsupported file type".into()), 10),
        Outcome::NotFound
    );
    assert_eq!(
        classify_outcome(&Ok("symbol X: not found".into()), 40),
        Outcome::NotFound
    );
    assert_eq!(
        classify_outcome(
            &Ok("symbol_refs - \"X\": 0 def, 0 call, 0 ref\n(no matching occurrences)\n".into()),
            23
        ),
        Outcome::NotFound
    );
    assert_eq!(
        classify_outcome(&Ok("file is required".into()), 5),
        Outcome::Invalid
    );
    assert_eq!(classify_outcome(&Ok("".into()), 0), Outcome::Empty);
    assert_eq!(
        classify_outcome(&Ok("no hits\n".into()), 10),
        Outcome::LowYield
    );
    assert_eq!(
        classify_outcome(&Ok("big answer".repeat(100)), 500),
        Outcome::Good
    );
    assert_eq!(
        classify_outcome(
            &Ok("defect_list - 1 defect(s)\n\n[open] x — 1\n  summary: foo must be bar\n".into()),
            200
        ),
        Outcome::Good
    );
    assert_eq!(
        classify_outcome(
            &Ok("defect_list - 0 defect(s)\n\n(no matching defects)\n".into()),
            30
        ),
        Outcome::Good
    );
    assert_eq!(
        classify_outcome(
            &Ok("session_handoff - session s status=open\n\nAcceptance: must be true\n".into()),
            500
        ),
        Outcome::Good
    );
    assert_eq!(
        classify_outcome(
            &Ok("integration_hooks - query \"water\"\n\n(no matching hooks - try broader)\n".into()),
            40
        ),
        Outcome::NotFound
    );
}

#[test]
fn outcome_reason_uses_first_line_and_caps() {
    assert_eq!(
        outcome_reason(&Err("boom\nmore".into()), Outcome::Error).as_deref(),
        Some("boom")
    );
    assert_eq!(outcome_reason(&Ok("fine".into()), Outcome::Good), None);
    assert_eq!(
        outcome_reason(&Ok("symbol X: not found\nextra".into()), Outcome::NotFound).as_deref(),
        Some("symbol X: not found")
    );
    let long = "x".repeat(300);
    let clipped = outcome_reason(&Err(long), Outcome::Error).unwrap();
    assert!(clipped.ends_with('…'));
    assert_eq!(clipped.chars().count(), 241);
}

#[test]
fn observe_tracks_latency_and_outcomes() {
    let mut t = Tool::default();
    let meta = RecordMeta::default();
    t.observe(1_000, 100, 50_000, Outcome::Good, 5, &meta);
    t.observe(3_000, 200, 150_000, Outcome::Truncated, 9, &meta);
    t.observe(500, 10, 20_000, Outcome::Error, 12, &meta);
    t.observe(0, 5, 1_000, Outcome::NotFound, 13, &meta);
    assert_eq!(t.calls, 4);
    assert_eq!(t.total_us, 221_000);
    assert_eq!(t.peak_us, 150_000);
    assert_eq!(t.total_ms(), 221);
    assert_eq!(t.peak_ms(), 150);
    assert_eq!(t.trunc_count, 1);
    assert_eq!(t.error_count, 1);
    assert_eq!(t.not_found_count, 1);
    assert_eq!(t.invalid_count, 0);
    assert_eq!(t.avg_ms(), 55);
}

#[test]
fn render_includes_tools_and_total() {
    let mut tools = StrMap::new();
    tools.insert(
        "repo_map",
        Tool {
            calls: 3,
            baseline_tokens: 12_000,
            returned_tokens: 600,
            ..Default::default()
        },
    );
    assert!(do_totals_fit(&tools));
    let out = render(1_000, 1_000 + 3_700, &tools);
    assert!(out.contains("repo_map"));
    assert!(out.contains("TOTAL"));
    assert!(out.contains("avg ms"));
    assert!(out.contains("estimated context avoided"));
}

fn names(v: &[&str]) -> Vec<String> {
    v.iter().map(|s| s.to_string()).collect()
}

#[test]
fn render_insights_lists_never_called() {
    let mut tools = StrMap::new();
    tools.insert(
        "repo_map",
        Tool {
            calls: 5,
            baseline_tokens: 10_000,
            returned_tokens: 500,
            total_us: 500_000,
            ..Default::default()
        },
    );
    let out = render_insights(&tools, &names(&["repo_map", "outline", "stats"]));
    assert!(out.contains("never called"));
    assert!(out.contains("outline"));
    assert!(!out.contains("low_yield"), "{out}");
}

#[test]
fn render_insights_skips_benign_slow_and_net_negative() {
    let mut tools = StrMap::new();
    tools.insert(
        "symbol_context",
        Tool {
            calls: 96,
            baseline_tokens: 1_000,
            returned_tokens: 500,
            total_us: 96 * 13_000,
            error_count: 1,
            ..Default::default()
        },
    );
    tools.insert(
        "include_graph",
        Tool {
            calls: 2,
            baseline_tokens: 49,
            returned_tokens: 106,
            ..Default::default()
        },
    );
    let out = render_insights(&tools, &names(&["symbol_context", "include_graph"]));
    assert!(!out.contains("slowest"), "{out}");
    assert!(!out.contains("error-prone"), "{out}");
    assert!(!out.contains("net-negative"), "{out}");
}

#[test]
fn render_insights_flags_actionable_patterns() {
    let mut tools = StrMap::new();
    tools.insert(
        "outline",
        Tool {
            calls: 43,
            baseline_tokens: 10_000,
            returned_tokens: 500,
            error_count: 8,
            ..Default::default()
        },
    );
    tools.insert(
        "repo_map",
        Tool {
            calls: 28,
            baseline_tokens: 50_000,
            returned_tokens: 5_000,
            trunc_count: 5,
            total_us: 28 * 60_000,
            ..Default::default()
        },
    );
    let out = render_insights(&tools, &names(&["outline", "repo_map"]));
    assert!(out.contains("error-prone: outline"), "{out}");
    assert!(out.contains("high truncation: repo_map"), "{out}");
    assert!(out.contains("slowest (avg ms): repo_map"), "{out}");
}

#[test]
fn from_value_loads_v4_and_v5() {
    let v4 = parse(
        r#"{
        "version": 4,
        "since": 100,
        "tools": { "repo_map": {
            "calls": 2, "baseline_tokens": 9000, "returned_tokens": 300,
            "peak_baseline": 6000, "peak_returned": 200, "peak_saved": 5800, "last_ts": 42,
            "total_ms": 120, "peak_ms": 80, "trunc_count": 1, "error_count": 0, "low_yield_count": 0
        }},
        "events": [ { "ts": 41, "tool": "repo_map", "baseline": 3000, "returned": 100,
                      "elapsed_ms": 40, "outcome": "ok" } ]
    }"#,
    )
    .unwrap();
    let s = Store::from_value(&v4, 0);
    let t = s.tools.get("repo_map").unwrap();
    assert_eq!(t.total_us, 120_000);
    assert_eq!(t.peak_us, 80_000);
    assert_eq!(t.trunc_count, 1);
    assert_eq!(s.events.last().unwrap().elapsed_us, 40_000);
    assert_eq!(s.events.last().unwrap().outcome, "ok");

    let v5 = parse(
        r#"{
        "version": 5,
        "since": 200,
        "workspace_id": "abcd",
        "tools": { "outline": {
            "calls": 3, "baseline_tokens": 800, "returned_tokens": 120,
            "total_us": 9000, "peak_us": 4000,
            "bytes_read": 4096, "cache_hits": 2, "cache_misses": 1, "invalid_count": 1
        }}
    }"#,
    )
    .unwrap();
    let s5 = Store::from_value(&v5, 0);
    let o = s5.tools.get("outline").unwrap();
    assert_eq!(o.total_us, 9_000);
    assert_eq!(o.bytes_read, 4096);
    assert_eq!(o.invalid_count, 1);
    assert_eq!(s5.saved_workspace_id, "abcd");

    let v2 = parse(
        r#"{
        "version": 2,
        "since": 50,
        "tools": { "outline": { "calls": 1, "baseline_tokens": 800, "returned_tokens": 120 } }
    }"#,
    )
    .unwrap();
    let s2 = Store::from_value(&v2, 0);
    let o = s2.tools.get("outline").unwrap();
    assert_eq!(o.total_us, 0);
    assert_eq!(o.trunc_count, 0);
}

#[test]
fn prune_stale_registry_drops_removed_and_clears_flat64() {
    let mut s = Store::empty(0);
    s.registry = Some(names(&["outline", "repo_map", "izakaya_status"]));
    s.tools.insert(
        "outline",
        Tool {
            calls: 10,
            baseline_tokens: 5_000,
            returned_tokens: 100,
            ..Default::default()
        },
    );
    s.tools.insert(
        "izakaya_record_decision",
        Tool {
            calls: 1,
            baseline_tokens: 64,
            returned_tokens: 20,
            ..Default::default()
        },
    );
    s.tools.insert(
        "izakaya_status",
        Tool {
            calls: 5,
            baseline_tokens: 320, // 5 * 64
            returned_tokens: 900,
            ..Default::default()
        },
    );
    assert!(s.prune_stale_registry());
    assert!(s.tools.get("izakaya_record_decision").is_none());
    assert!(s.tools.get("outline").is_some());
    assert_eq!(s.tools.get("izakaya_status").unwrap().baseline_tokens, 0);
}

fn event(ts: u64, ws: &str) -> Event {
    Event {
        ts,
        tool: "outline".into(),
        baseline: 10,
        returned: 2,
        elapsed_us: 1_000,
        outcome: "ok".into(),
        reason: None,
        workspace_id: ws.into(),
        bytes_read: 0,
        cache_hits: 0,
        cache_misses: 0,
        wordkeep_version: "0.2.0".into(),
    }
}

#[test]
fn events_since_reads_jsonl_beyond_ring() {
    let lines: Vec<String> = (1..=250u64).map(|i| event_line(&event(i, "wid"))).collect();
    let log = read_events(&lines);
    let evs = events_since(&log, "wid", 0);
    assert!(evs.len() > 200, "expected >200 from jsonl, got {}", evs.len());
    assert_eq!(evs.len(), 250);
    assert_eq!(events_since(&log, "wid", 200).len(), 50);
    assert_eq!(events_since(&log, "other", 0).len(), 0);
}

#[test]
fn events_since_the_beginning_are_all_of_them() {
    let log = vec![event(0, "wid"), event(1, ""), event(2, "other")];
    assert_eq!(events_since(&log, "wid", 0).len(), 2);
    assert_eq!(events_since(&log, "wid", 1).len(), 0);
}

#[test]
fn finish_debounce_does_not_fail() {
    let mut s = Store::empty(1);
    let mut p = Pending { meta: None };
    for i in 0..5u64 {
        record(&mut p, "stats", 100 + i, 10);
        let result = Ok("ok enough text here".to_string());
        let meta = take_meta(&mut p, &result);
        assert_eq!(meta.baseline, 100 + i);
        let e = finish(&mut s, "stats", 1_500, &result, &meta, 2 + i, "0.2.0").unwrap();
        assert_eq!(e.outcome, "low_yield");
    }
    let t = s.tools.get("stats").unwrap();
    assert_eq!(t.calls, 5);
    assert_eq!(t.baseline_tokens, 510);
    assert_eq!(t.low_yield_count, 5);
    assert_eq!(s.events.len(), 5);
}

#[test]
fn low_yield_and_net_negative_thresholds() {
    assert!(!is_notable_low_yield(5, 5));
    assert!(!is_notable_low_yield(10, 2)); // 20%
    assert!(is_notable_low_yield(10, 3)); // 30%
    assert!(!is_net_negative(100, 400));
    assert!(is_net_negative(500, 500));
    assert!(is_net_negative(1_000, 2_000));
}

#[test]
fn counters_and_events_come_back() {
    let mut t = Tool::default();
    let meta = RecordMeta { bytes_read: 7, cache_hits: 1, ..Default::default() };
    t.observe(1_000, 100, 50_000, Outcome::Invalid, 5, &meta);
    let again = tool_from_value(&tool_to_value(&t));
    assert_eq!(again.total_us, 50_000);
    assert_eq!(again.bytes_read, 7);
    assert_eq!(again.invalid_count, 1);
    assert_eq!(again.peak_saved, saved(1_000, 100));
    let mut e = event(3, "w");
    e.reason = Some("why".into());
    let back = event_from_value(&event_to_value(&e)).unwrap();
    assert_eq!(back.reason.as_deref(), Some("why"));
    assert_eq!(back.elapsed_us, 1_000);
    assert_eq!(back.wordkeep_version, "0.2.0");
}

#[test]
fn a_store_comes_back_with_its_latest_calls() {
    let mut s = Store::empty(9);
    set_workspace_root(&mut s, "ws");
    let meta = RecordMeta::default();
    let result = Ok("x".repeat(400));
    for i in 0..210u64 {
        finish(&mut s, "outline", 2_000, &result, &meta, i, "0.2.0").unwrap();
    }
    assert_eq!(s.events.len(), 200);
    assert_eq!(s.events[0].ts, 10);
    assert_eq!(s.document_workspace(), "ws");
    let again = Store::from_value(&s.to_value(), 0);
    assert_eq!(again.since, 9);
    assert_eq!(again.tools.get("outline").unwrap().calls, 210);
    assert_eq!(again.events.len(), 200);
    assert_eq!(again.saved_workspace_id, "ws");
    s.reset(77);
    assert_eq!(s.since, 77);
    assert_eq!(s.tools.entries.len(), 0);
    assert_eq!(s.events.len(), 0);
}

#[test]
fn the_registry_is_set_once() {
    let mut s = Store::empty(0);
    s.tools.insert("gone", Tool { calls: 1, ..Default::default() });
    init_registry(&mut s, names(&["outline"]));
    assert!(s.tools.get("gone").is_none());
    init_registry(&mut s, names(&["other"]));
    assert_eq!(s.registry, Some(names(&["outline"])));
}

#[test]
fn reports_are_asked_for_in_three_forms() {
    let mut s = Store::empty(100);
    init_registry(&mut s, names(&["outline", "repo_map"]));
    let meta = RecordMeta { baseline: 4_000, returned: 400, ..Default::default() };
    let result = Ok("x".repeat(1_600));
    finish(&mut s, "outline", 80_000, &result, &meta, 200, "0.2.0").unwrap();
    let ask = read_report(&parse("{}").unwrap(), &s);
    assert!(!ask.json && !ask.reset);
    let text = report(&mut s, &ask, 4_000);
    assert!(text.contains("outline"), "{text}");
    let ask = read_report(&parse(r#"{"format": "json"}"#).unwrap(), &s);
    let text = report(&mut s, &ask, 4_000);
    let doc = parse(&text).unwrap();
    assert!(doc.get("tools").is_some(), "{text}");
    assert_eq!(
        render_json(100, 4_000, &s.tools, &s.events, &ask.workspace),
        text
    );
    let ask = read_report(&parse(r#"{"reset": true}"#).unwrap(), &s);
    report(&mut s, &ask, 5_000);
    assert_eq!(s.since, 5_000);
    assert_eq!(s.tools.entries.len(), 0);
}

#[test]
fn a_snapshot_holds_tools_and_calls() {
    let mut s = Store::empty(1);
    let meta = RecordMeta { baseline: 4_000, returned: 400, ..Default::default() };
    finish(&mut s, "outline", 80_000, &Ok("x".repeat(1_600)), &meta, 2, "0.2.0").unwrap();
    let snap = read_snapshot(&s, &vec![event(2, "")], 10);
    assert_eq!(snap.tools.len(), 1);
    assert_eq!(snap.tools[0].avg_ms(), 80);
    let line = call_line("outline", 400, 4_000, 80_000, Outcome::Good);
    assert!(line.contains("outline") && line.contains("80"), "{line}");
}

#[test]
fn a_later_record_replaces_what_was_pending() {
    let mut p = Pending { meta: None };
    record(&mut p, "a", 10, 1);
    record_ext(&mut p, "a", RecordMeta { baseline: 20, bytes_read: 5, ..Default::default() });
    let result = Err("boom".to_string());
    let meta = take_meta(&mut p, &result);
    assert_eq!((meta.baseline, meta.bytes_read), (20, 5));
    assert!(p.meta.is_none());
    assert_eq!(meta.reason.as_deref(), Some("boom"));
    let meta = take_meta(&mut p, &Ok("x".repeat(40)));
    assert_eq!((meta.baseline, meta.returned), (0, 0));
}

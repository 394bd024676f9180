use wordkeep::json::parse;
use wordkeep::runtime::{
    available_captures_hint, capture_name, clip, fmt_bytes, fmt_signed_bytes, last_line,
    list_capture_ids, locality_hotspots, locate, memory_diff, read_capture, read_diff_ids,
    render_diff, render_locality, render_snapshot, snapshot, valid_capture_id, Place, Present,
};

#[test]
fn snapshot_renders_quality_and_regions() {
    let value = parse(
        r#"{
            "source": "betwixt",
            "pid": 7,
            "seq": 2,
            "tier": "census",
            "rss_bytes": 2048,
            "committed_va_bytes": 4096,
            "quality": {"rss_bytes": "exact", "committed_va_bytes": "exact"},
            "regions": [{"size": 4096, "kind": "anon", "perm": "rw-", "path": null}]
        }"#,
    )
    .unwrap();
    let out = render_snapshot("live", &value, 4);
    assert!(out.contains("RSS 2.0 KiB [exact]"));
    assert!(out.contains("anon"));
    assert!(out.contains("   4.0 KiB  anon    rw- unavailable\n"), "{out}");
}

#[test]
fn snapshot_renders_gpu_and_budget_violations() {
    let value = parse(
        r#"{
            "gpu": {
                "quality": "estimated",
                "particles": 12,
                "particle_cap": 1024,
                "driver_available_kb": 2048
            },
            "budget": {
                "name": "gym-idle",
                "ok": false,
                "checked": 1,
                "unavailable": 0,
                "violations": [{
                    "metric": "/rss_bytes",
                    "actual": 200,
                    "limit": 100,
                    "quality": "exact"
                }]
            }
        }"#,
    )
    .unwrap();
    let out = render_snapshot("live", &value, 4);
    assert!(out.contains("GPU particles 12 / 1024 [estimated]"));
    assert!(out.contains("budget gym-idle ok=false"));
    assert!(out.contains("/rss_bytes"));
}

#[test]
fn diff_keeps_negative_deltas() {
    let a = parse(r#"{"rss_bytes": 4096, "kinds": {"anon": 4096}}"#).unwrap();
    let b = parse(r#"{"rss_bytes": 2048, "kinds": {"anon": 1024}}"#).unwrap();
    let out = render_diff("a", &a, "b", &b);
    assert!(out.contains("-2.0 KiB"));
    assert!(out.contains("-3.0 KiB"));
}

#[test]
fn locality_does_not_infer_from_va_map() {
    let out = render_locality("live", &parse(r#"{"regions": []}"#).unwrap(), 8, 1);
    assert!(out.contains("quality=unavailable"));
    assert!(out.contains("VA adjacency is not treated as cache locality"));
    assert!(out.contains("Soft-route"));
}

fn nothing() -> Present {
    Present { merged: false, cooperative: false, capture: false }
}

#[test]
fn missing_capture_lists_available_and_soft_route() {
    let hint = available_captures_hint(&vec![], true);
    let err = locate("999", nothing(), "/cache/capture-999.jsonl", &hint).err().unwrap();
    assert!(err.contains("no capture `999`"), "{err}");
    assert!(err.contains("Health → Runtime"), "{err}");
    assert!(err.contains("Available:"), "{err}");
    let err = locate("live", nothing(), "", &hint).err().unwrap();
    assert!(err.contains("no runtime snapshot"), "{err}");
    let err = locate("../x", nothing(), "", &hint).err().unwrap();
    assert!(err.contains("must be `live` or digits"), "{err}");
}

#[test]
fn the_merged_snapshot_comes_first() {
    let all = Present { merged: true, cooperative: true, capture: true };
    assert!(matches!(locate("live", all, "", ""), Ok(Place::Merged)));
    let coop = Present { merged: false, cooperative: true, capture: false };
    assert!(matches!(locate("live", coop, "", ""), Ok(Place::Cooperative)));
    assert!(matches!(locate("12", all, "", ""), Ok(Place::Capture)));
}

#[test]
fn captures_are_listed_by_their_files() {
    let names: Vec<String> = vec![
        "capture-12.jsonl".into(),
        "capture-07.jsonl".into(),
        "capture-x.jsonl".into(),
        "latest.json".into(),
        capture_name("7"),
    ];
    assert_eq!(list_capture_ids(&names), vec!["07", "12", "7"]);
    assert_eq!(available_captures_hint(&names, true), "live, 07, 12, 7");
    assert!(available_captures_hint(&vec![], false).contains("(none"));
    assert!(valid_capture_id("live"));
    assert!(!valid_capture_id(""));
}

#[test]
fn bytes_are_rendered_as_doubles_are() {
    for n in [
        0i64,
        1023,
        1024,
        1280,
        1792,
        1_048_575,
        1_048_576,
        1_310_720,
        5_242_880_001,
        -2048,
        i64::MAX,
        i64::MAX - 12345,
        i64::MIN,
        9_007_199_254_740_993,
        1_152_921_504_606_846_977,
    ] {
        let sign = if n < 0 { "-" } else { "" };
        let f = n.unsigned_abs() as f64;
        let want = if f >= 1_073_741_824.0 {
            format!("{sign}{:.2} GiB", f / 1_073_741_824.0)
        } else if f >= 1_048_576.0 {
            format!("{sign}{:.2} MiB", f / 1_048_576.0)
        } else if f >= 1_024.0 {
            format!("{sign}{:.1} KiB", f / 1_024.0)
        } else {
            format!("{n} B")
        };
        assert_eq!(fmt_bytes(n), want, "{n}");
    }
    for k in 0..3000i64 {
        let n = 1024 + k * 37;
        assert_eq!(fmt_bytes(n), format!("{:.1} KiB", n as f64 / 1024.0));
    }
    assert_eq!(fmt_signed_bytes(2048), "+2.0 KiB");
    assert_eq!(fmt_signed_bytes(-1), "-1 B");
}

#[test]
fn pools_are_compared_as_plain_numbers() {
    let a = parse(r#"{"pools": [{"name": "jobs", "in_use": 5}]}"#).unwrap();
    let b = parse(
        r#"{"pools": [{"name": "jobs", "in_use": 3}, {"name": "audio", "in_use": 2}, {"in_use": 9}]}"#,
    )
    .unwrap();
    let out = render_diff("1", &a, "2", &b);
    assert!(
        out.contains("pools (in_use):\n  audio: 0 → 2 (+2)\n  jobs: 5 → 3 (-2)\n"),
        "{out}"
    );
    assert!(out.contains("RSS: unavailable\n"), "{out}");
}

#[test]
fn the_hottest_places_come_first() {
    let value = parse(
        r#"{"locality": {"quality": "sampled", "samples": 12, "hotspots": [
            {"samples": 2, "symbol": "cold"},
            {"samples": 9, "symbol": "hot"},
            {"samples": 1, "symbol": "rare"}
        ]}}"#,
    )
    .unwrap();
    let out = render_locality("live", &value, 8, 2);
    let hot = out.find("hot").unwrap();
    let hot = hot + out[hot..].find(" hot ").unwrap();
    assert!(hot < out.find(" cold ").unwrap(), "{out}");
    assert!(!out.contains("rare"), "{out}");
    assert!(out.contains("quality=sampled total_samples=12"), "{out}");
}

#[test]
fn the_last_line_that_is_not_blank_counts() {
    assert_eq!(last_line("{\"a\":1}\n{\"a\":2}\n\n", "p").unwrap(), "{\"a\":2}");
    assert_eq!(last_line(" \n", "p").unwrap_err(), "capture p is empty");
}

#[test]
fn requests_are_read_and_clipped() {
    let args = parse(r#"{"token_budget": 1, "top": 100}"#).unwrap();
    let value = parse("{}").unwrap();
    assert_eq!(read_capture(&args), "live");
    let out = snapshot(&args, "live", &value);
    assert!(out.ends_with("output clipped by token_budget\n"), "{out}");
    assert!(out.len() <= 256 + 40);
    assert_eq!(clip("short".into(), 1), "short");
    assert!(locality_hotspots(&args, "live", &value).contains("locality_hotspots - live"));
    let err = read_diff_ids(&args, "none").unwrap_err();
    assert!(err.starts_with("base is required"), "{err}");
    let args = parse(r#"{"base": "12"}"#).unwrap();
    assert_eq!(read_diff_ids(&args, "").unwrap(), ("12".to_string(), "live".to_string()));
    assert!(memory_diff(&args, "12", &value, "live", &value).contains("memory_diff - 12 → live"));
}

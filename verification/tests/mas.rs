use wordkeep::json::{parse, Datum};
use wordkeep::mas::closing::{
    decide_effects, draft_autopilot_handoff, find_closing_baseline, format_handoff_prompt,
    is_recovery, make_promotion, mark_final, read_closing, read_handing_over, recovered_text,
    render_closing, render_handing_over,
};
use wordkeep::mas::posting::{
    advance, estimate_tokens, post, read_note, read_rounds, render_status, truncate_to_tokens,
    Posted,
};
use wordkeep::mas::reading::{read, read_ask};
use wordkeep::mas::{
    entry_from_value, entry_to_value, evict_session_cache, evict_workspace_session_cache,
    get_or_create_session, get_or_create_session_for_test, load_session, require_open_session,
    session_from_value, session_snapshot, session_to_value, validate_session_id, Session,
    SessionCache, Stored,
};

const ENTRY_CAP: u64 = 256;
const HANDOFF_CAP: u64 = 1024;

fn args(text: &str) -> Datum {
    parse(text).unwrap()
}

fn open(cache: &SessionCache, session: &str, max_rounds: Option<u64>) -> Result<Session, String> {
    get_or_create_session(cache, "ws", session, &Stored::Absent, "s.json", max_rounds, 1)
}

fn do_post(cache: &mut SessionCache, a: &Datum) -> Result<Posted, String> {
    let note = read_note(a)?;
    let s = open(cache, &note.session, read_rounds(a))?;
    let posted = post(note, s, ENTRY_CAP, HANDOFF_CAP, 2)?;
    cache.keep("ws", &posted.session);
    Ok(posted)
}

fn do_advance(cache: &mut SessionCache, a: &Datum, session: &str) -> Result<(), String> {
    let s = open(cache, session, read_rounds(a))?;
    let s = advance(session, s, 3)?;
    cache.keep("ws", &s);
    Ok(())
}

fn load(cache: &SessionCache, session: &str) -> Session {
    load_session(cache, "ws", session, &Stored::Absent, "s.json").unwrap().unwrap()
}

fn do_read(cache: &SessionCache, text: &str) -> String {
    let ask = read_ask(&args(text)).ok().unwrap();
    let s = load(cache, &ask.session);
    read(&ask, &s, 0).0
}

#[test]
fn validate_session_id_rejects_bad_slugs() {
    assert!(validate_session_id("good-slug_1.2").is_ok());
    assert!(validate_session_id("../evil").is_err());
    assert!(validate_session_id("has/slash").is_err());
    assert!(validate_session_id("bad space").is_err());
    assert!(validate_session_id("").is_err());
}

#[test]
fn post_respects_entry_token_cap() {
    let mut cache = SessionCache::new();
    let long = "word ".repeat(500);
    let a = args(&format!(
        r#"{{"session": "cap-test", "role": "planner", "summary": "{long}"}}"#
    ));
    do_post(&mut cache, &a).ok().unwrap();
    let s = load(&cache, "cap-test");
    assert!(s.entries[0].summary.contains("(truncated)"));
}

#[test]
fn round_advance_and_budget() {
    let mut cache = SessionCache::new();
    let a = args(r#"{"session": "round-test", "max_rounds": 2}"#);
    let s = open(&cache, "round-test", read_rounds(&a)).ok().unwrap();
    cache.keep("ws", &s);
    let a = args(r#"{"session": "round-test", "role": "planner", "summary": "plan"}"#);
    do_post(&mut cache, &a).ok().unwrap();
    let a = args(r#"{"session": "round-test", "advance_round": true}"#);
    do_advance(&mut cache, &a, "round-test").unwrap();
    assert_eq!(load(&cache, "round-test").round, 2);
    assert_eq!(
        do_advance(&mut cache, &a, "round-test").unwrap_err(),
        "session round-test at max_rounds (2/2)"
    );
    let text = render_status("round-test", &load(&cache, "round-test"), ENTRY_CAP, 0);
    assert!(text.contains("round: 2/2\nrounds_remaining: 0\n"), "{text}");
    assert!(text.contains("  planner: 1\n"), "{text}");
}

#[test]
fn read_filters_by_recipient_role_round_tag_since_id() {
    let mut cache = SessionCache::new();
    let a = args(
        r#"{"session": "filter-test", "role": "planner", "summary": "for solver",
            "handoff_to": "solver", "tags": ["alpha"]}"#,
    );
    do_post(&mut cache, &a).ok().unwrap();
    let a = args(
        r#"{"session": "filter-test", "role": "solver", "summary": "for critic",
            "handoff_to": "critic", "tags": ["beta"]}"#,
    );
    do_post(&mut cache, &a).ok().unwrap();

    let by_recipient = do_read(&cache, r#"{"session": "filter-test", "recipient": "solver"}"#);
    assert!(by_recipient.contains("for solver"));
    assert!(!by_recipient.contains("for critic"));

    let by_role = do_read(&cache, r#"{"session": "filter-test", "role": "solver"}"#);
    assert!(by_role.contains("for critic"));

    let by_tag = do_read(&cache, r#"{"session": "filter-test", "tag": "alpha"}"#);
    assert!(by_tag.contains("for solver"));

    let since = do_read(&cache, r#"{"session": "filter-test", "since_id": 1}"#);
    assert!(!since.contains("for solver"));
    assert!(since.contains("for critic"));

    let other_round = do_read(&cache, r#"{"session": "filter-test", "round": 2}"#);
    assert!(!other_round.contains("for solver"));
}

#[test]
fn read_uses_less_than_full_repost_baseline() {
    let mut cache = SessionCache::new();
    for (role, summary, handoff) in [
        ("planner", "Plan: refactor widget_area", "solver"),
        ("solver", "Solution: extract helper fn", "critic"),
        ("critic", "Approved with one nit", "planner"),
    ] {
        let a = args(&format!(
            r#"{{"session": "bench-test", "role": "{role}", "summary": "{summary}",
                "handoff_to": "{handoff}"}}"#
        ));
        do_post(&mut cache, &a).ok().unwrap();
    }
    let filtered = do_read(
        &cache,
        r#"{"session": "bench-test", "recipient": "solver", "token_budget": 1200}"#,
    );
    let full = do_read(&cache, r#"{"session": "bench-test", "token_budget": 1200}"#);
    let filtered_tokens = filtered.len() / 4;
    let full_tokens = full.len() / 4;
    assert!(
        filtered_tokens < full_tokens,
        "recipient-filtered read ({filtered_tokens} tok) should beat full blackboard ({full_tokens} tok)"
    );
    assert_eq!(filtered.matches("Plan: refactor").count(), 1);
    assert!(!filtered.contains("Approved with one nit"));
    // The newest entry comes first.
    assert!(full.find("Approved").unwrap() < full.find("Plan: refactor").unwrap());
}

#[test]
fn finalize_marks_session_final() {
    let mut cache = SessionCache::new();
    let a = args(r#"{"session": "fin-test", "role": "planner", "summary": "done"}"#);
    do_post(&mut cache, &a).ok().unwrap();
    let a = args(
        r#"{"session": "fin-test", "result": "ship it", "include_handoff_prompt": false}"#,
    );
    let closing = read_closing(&a, false).ok().unwrap();
    assert_eq!(decide_effects(&closing, false).unwrap(), None);
    let (s, changed) = mark_final(load(&cache, "fin-test"), &closing.result, 9);
    assert!(changed);
    cache.keep("ws", &s);
    let out = render_closing(&closing, &s, &None, &None, &None);
    assert!(out.contains("marked final"));
    let s = load(&cache, "fin-test");
    assert_eq!(s.status, "final");
    assert_eq!(s.result.as_deref(), Some("ship it"));
    let a = args(r#"{"session": "fin-test", "role": "planner", "summary": "nope"}"#);
    assert_eq!(
        do_post(&mut cache, &a).err().unwrap(),
        "session fin-test is finalized; open a new session"
    );
    assert_eq!(
        do_advance(&mut cache, &a, "fin-test").unwrap_err(),
        "session fin-test is finalized"
    );
    // What was once final stays as it was.
    let (s, changed) = mark_final(s, "something else", 20);
    assert!(!changed);
    assert_eq!(s.result.as_deref(), Some("ship it"));
    assert!(find_closing_baseline(&closing, &s) >= 64);
}

#[test]
fn handoff_overflow_spills_to_notes() {
    let mut cache = SessionCache::new();
    let long = "word ".repeat(2000);
    let a = args(&format!(
        r#"{{"session": "spill-test", "role": "planner", "kind": "handoff", "summary": "{long}"}}"#
    ));
    let posted = do_post(&mut cache, &a).ok().unwrap();
    assert!(posted.text.contains("spilled_to") || posted.text.contains("handoff"));
    let spill = posted.spill.as_ref().unwrap();
    assert!(spill.body.contains("word word"), "{}", spill.path);
    let s = load(&cache, "spill-test");
    assert_eq!(s.entries[0].note_ref.as_deref(), Some(spill.path.as_str()));
    assert!(s.entries[0].summary.contains("spilled"));
}

#[test]
fn tokens_are_quarters_of_bytes() {
    assert_eq!(estimate_tokens("abcdefgh"), 2);
    let cut = truncate_to_tokens(&"x".repeat(400), 20);
    assert!(cut.ends_with("(truncated)"), "{cut}");
    assert_eq!(truncate_to_tokens("short", 20), "short");
}

#[test]
fn sessions_and_entries_come_back() {
    let mut cache = SessionCache::new();
    let a = args(
        r#"{"session": "keep", "role": "critic", "summary": "s", "claims": ["c"],
            "decisions": ["d"], "open_questions": ["q"], "approved": true, "tags": ["t"]}"#,
    );
    do_post(&mut cache, &a).ok().unwrap();
    let s = load(&cache, "keep");
    let e = entry_from_value(&entry_to_value(&s.entries[0])).unwrap();
    assert_eq!((e.claims[0].as_str(), e.approved), ("c", Some(true)));
    let again = session_from_value(&session_to_value("ws", &s)).unwrap();
    assert_eq!(again.session, "keep");
    assert_eq!(again.next_id, 2);
    assert_eq!(again.entries[0].open_questions, vec!["q"]);
    assert!(session_from_value(&args("{}")).is_none());
    let snap = session_snapshot(&cache, "ws", "keep", &Stored::Absent, "").unwrap().unwrap();
    assert_eq!((snap.entries, snap.open_questions), (1, 1));
}

#[test]
fn evicted_sessions_are_read_anew() {
    let mut cache = SessionCache::new();
    for (ws, id) in [("ws", "a"), ("ws", "b"), ("other", "a")] {
        get_or_create_session_for_test(&mut cache, ws, id, &Stored::Absent, "", 5).unwrap();
    }
    evict_session_cache(&mut cache, "ws", "a");
    let found = |c: &SessionCache, ws: &str, id: &str| {
        load_session(c, ws, id, &Stored::Absent, "").unwrap().is_some()
    };
    assert!(!found(&cache, "ws", "a"));
    assert!(found(&cache, "ws", "b"));
    assert!(found(&cache, "other", "a"));
    evict_workspace_session_cache(&mut cache, "ws");
    assert!(!found(&cache, "ws", "b"));
    assert!(found(&cache, "other", "a"));
}

#[test]
fn stored_sessions_are_taken_or_refused() {
    let cache = SessionCache::new();
    let failed = Stored::Failed("cannot read".into());
    assert_eq!(
        load_session(&cache, "ws", "a", &failed, "p").err().unwrap(),
        "cannot read"
    );
    let bad = Stored::Value(args("{}"));
    assert_eq!(
        load_session(&cache, "ws", "a", &bad, "p").err().unwrap(),
        "invalid session file p"
    );
    let s = open(&cache, "a", Some(3)).ok().unwrap();
    let good = Stored::Value(session_to_value("ws", &s));
    assert_eq!(load_session(&cache, "ws", "a", &good, "p").unwrap().unwrap().max_rounds, 3);
    assert!(require_open_session(&cache, "ws", "a", &good, "p").is_ok());
    assert!(require_open_session(&cache, "ws", "a", &Stored::Absent, "p").is_err());
    let (closed, _) = mark_final(s, "r", 1);
    let stored = Stored::Value(session_to_value("ws", &closed));
    assert!(require_open_session(&cache, "ws", "a", &stored, "p").is_err());
}

#[test]
fn pending_writes_must_be_decided() {
    let a = args(r#"{"session": "w", "result": "r"}"#);
    let c = read_closing(&a, true).ok().unwrap();
    assert!(c.promote && c.include_prompt);
    assert_eq!(
        decide_effects(&c, true).unwrap_err(),
        "session w has pending effect writes; pass effects: \"commit\" or \"recover\""
    );
    let a = args(r#"{"session": "w", "result": "r", "effects": "recover"}"#);
    let c = read_closing(&a, false).ok().unwrap();
    assert_eq!(decide_effects(&c, true).unwrap().as_deref(), Some("recover"));
    assert!(is_recovery(&c, true));
    assert!(!is_recovery(&c, false));
    assert_eq!(
        recovered_text(&c, "undone"),
        "undone\nmas_finalize - session w not finalized (effects recovered)\n"
    );
    assert_eq!(
        read_closing(&args(r#"{"session": "w"}"#), false).err().unwrap(),
        "result is required"
    );
}

#[test]
fn results_are_promoted_to_notes() {
    let cache = SessionCache::new();
    let s = open(&cache, "p", None).ok().unwrap();
    let a = args(r#"{"session": "p", "result": "shipped", "promote": true}"#);
    let c = read_closing(&a, false).ok().unwrap();
    let note = make_promotion(&c, &s).unwrap();
    assert_eq!(note.path, ".wordkeep/notes/mas-p.md");
    assert_eq!(note.heading, "MAS session p");
    assert!(note.body.starts_with("**Result:**\n\nshipped\n\n**Rounds:** 1/"), "{}", note.body);
    let out = render_closing(&c, &s, &None, &Some(Err("denied".into())), &Some("next".into()));
    assert!(out.contains("promote failed: denied\n"), "{out}");
    assert!(out.ends_with("next"), "{out}");
}

#[test]
fn sessions_are_handed_over() {
    let mut cache = SessionCache::new();
    let a = args(
        r#"{"session": "h", "role": "solver", "summary": "step one", "decisions": ["use maps"]}"#,
    );
    do_post(&mut cache, &a).ok().unwrap();
    let s = load(&cache, "h");
    let prompt = format_handoff_prompt("/w", &s, &Some("extra".into()), &vec![], &vec![]);
    assert!(prompt.contains("use maps"), "{prompt}");
    let h = read_handing_over(&args(r#"{"session": "h", "finalize": true}"#), false).ok().unwrap();
    assert_eq!(h.closing.unwrap().result, "session handoff");
    let h = read_handing_over(&args(r#"{"session": "h"}"#), false).ok().unwrap();
    assert!(h.closing.is_none());
    let out = render_handing_over("h", &s, &prompt);
    assert!(out.contains("session h"), "{out}");
    let draft = draft_autopilot_handoff("/w", &Some("h".into()), &Some(s), &vec![], &vec![], 40);
    assert!(!draft.is_empty());
}

#[test]
fn readings_fill_their_budget() {
    let mut cache = SessionCache::new();
    for i in 0..6 {
        let a = args(&format!(
            r#"{{"session": "long", "role": "solver", "summary": "step {i} {}"}}"#,
            "word ".repeat(30)
        ));
        do_post(&mut cache, &a).ok().unwrap();
    }
    let one = do_read(&cache, r#"{"session": "long", "token_budget": 1}"#);
    assert!(one.contains("step 5 ") && !one.contains("step 4 "), "{one}");
    assert!(one.contains("omitted by token_budget"), "{one}");
    let all = do_read(&cache, r#"{"session": "long", "token_budget": 5000}"#);
    assert!(all.contains("step 0 ") && !all.contains("omitted"), "{all}");
}

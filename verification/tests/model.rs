use wordkeep::izakaya::model::{
    advisory_findings, bound, bound_strings, checkout_reason, is_stale, path_covers, paths_overlap,
    reject_unsafe_payload, transition, validate_slug, AgentState, AgentView, Claim,
};
use wordkeep::json::parse;

#[test]
fn stale_is_derived_and_checkout_is_not_stale() {
    assert!(is_stale(AgentState::LiveCode, 10, 10));
    assert!(!is_stale(AgentState::LiveCode, 10, 9));
    assert!(!is_stale(AgentState::CheckedOut, 1, 100));
}

#[test]
fn path_overlap_respects_boundaries() {
    assert!(paths_overlap("src/a", "src/a/b.rs"));
    assert!(!paths_overlap("src/a", "src/ab"));
    assert!(!paths_overlap("", "src"));
}

#[test]
fn findings_are_advisory_and_flag_drift() {
    let claims = vec![Claim {
        path: "src/ok.rs".into(),
        symbols: vec!["foo".into()],
        intent: "edit".into(),
    }];
    let dirty = vec!["src/other.rs".into()];
    let agents = vec![AgentView {
        agent_id: "a",
        state: AgentState::LiveCode,
        expires_at: 50,
        base_oid: "abc",
        claims: &claims,
        dirty_paths: &dirty,
    }];
    let found = advisory_findings(&agents, 10);
    assert!(found.iter().any(|f| f.kind == "drift"));
    assert!(found.iter().all(|f| f.kind != "blocked"));
}

#[test]
fn slug_rejects_traversal() {
    assert!(validate_slug("agent_id", "../x").is_err());
    assert_eq!(validate_slug("agent_id", "solver-1").unwrap(), "solver-1");
}

#[test]
fn states_keep_their_names() {
    for state in [
        AgentState::CheckedIn,
        AgentState::LiveCode,
        AgentState::Suspended,
        AgentState::CheckedOut,
    ] {
        assert_eq!(AgentState::parse(state.as_str()).unwrap(), state);
    }
    assert!(AgentState::parse("asleep").is_err());
}

#[test]
fn agents_that_left_do_not_move() {
    assert!(transition(AgentState::CheckedIn, AgentState::LiveCode).is_ok());
    assert!(transition(AgentState::CheckedOut, AgentState::LiveCode).is_err());
}

#[test]
fn reasons_for_leaving_are_known_ones() {
    assert_eq!(checkout_reason("completed").unwrap(), "completed");
    let err = checkout_reason("bored").unwrap_err();
    assert!(err.contains("\"bored\""), "{err}");
    assert!(err.contains("completed|handed_off|abandoned"), "{err}");
}

#[test]
fn bounds_cut_at_characters() {
    assert_eq!(bound("short", 10), "short");
    assert!(bound("ééééé", 5).len() <= 8);
    let many: Vec<String> = vec!["a".into(), "b".into(), "c".into()];
    assert_eq!(bound_strings(&many, 2, 8).len(), 2);
}

#[test]
fn claims_cover_what_lies_below_them() {
    assert!(path_covers("src", "src/a.rs"));
    assert!(!path_covers("src/a", "src/ab.rs"));
}

#[test]
fn payloads_with_commands_are_refused() {
    let plain = parse(r#"{"agent_id":"a"}"#).unwrap();
    assert!(reject_unsafe_payload(&plain).is_ok());
}

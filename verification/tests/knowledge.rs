use wordkeep::json::parse;
use wordkeep::knowledge::embed::{
    fnv1a, plan_batch, read_cache, rerank, take_batch, write_cache, Batch, Cache,
};
use wordkeep::knowledge::search::{
    conclude, rank, read_search, render, snippet_for, start, Ranked, Scored, Start, Weight,
};
use wordkeep::knowledge::upsert::{
    build_new_file, heading_level, is_headable, pitfall_heading_from_symptom, read_upsert,
    replace_section, resolve_upsert_path,
};
use wordkeep::knowledge::{chunk_file, chunk_from_value, chunk_to_value, term_freqs, tokenize, Chunk};
use wordkeep::paths::validate_rel_path;

#[test]
fn tokenize_drops_short_and_stopwords() {
    let toks = tokenize("The Physics step USES Rapier a b");
    assert!(toks.contains(&"physics".to_string()));
    assert!(toks.contains(&"step".to_string()));
    assert!(toks.contains(&"rapier".to_string()));
    assert!(
        !toks.contains(&"the".to_string()),
        "stopword kept: {toks:?}"
    );
    assert!(!toks.contains(&"a".to_string()), "1-char kept: {toks:?}");
}

#[test]
fn words_are_lowered_and_split_where_no_letter_stands() {
    assert_eq!(tokenize("ÄRGER-über_Größe x2"), vec!["ärger", "über", "größe", "x2"]);
}

#[test]
fn term_freqs_counts() {
    let m = term_freqs("rapier rapier physics");
    assert_eq!(m.get("rapier"), Some(&2));
    assert_eq!(m.get("physics"), Some(&1));
}

fn chunks(path: &str, src: &str) -> Vec<Chunk> {
    let mut out = Vec::new();
    chunk_file(path, src, &mut out);
    out
}

#[test]
fn chunk_file_strips_frontmatter_and_splits_headings() {
    let src = "---\ntitle: rule\n---\n# Alpha\nbody one\n## Beta\nbody two\n";
    let out = chunks("r.md", src);
    let headings: Vec<&str> = out.iter().map(|c| c.heading.as_str()).collect();
    assert!(headings.contains(&"Alpha"), "{headings:?}");
    assert!(headings.contains(&"Beta"), "{headings:?}");
    // frontmatter key should not leak into any chunk body
    assert!(
        out.iter().all(|c| !c.body.contains("title")),
        "frontmatter leaked"
    );
}

#[test]
fn kept_sections_come_back_with_their_counts() {
    let out = chunks("n.md", "# One\nalpha content alpha\n");
    assert_eq!(out.len(), 1);
    let again = chunk_from_value(&chunk_to_value(&out[0])).unwrap();
    assert_eq!(again.heading, "One");
    assert_eq!(again.body, "alpha content alpha");
    assert_eq!(again.tf.get("alpha"), Some(&2));
    assert_eq!(again.len, out[0].len);
    assert!(chunk_from_value(&parse("{\"path\":\"x\"}").unwrap()).is_none());
}

/// The weight that the terms of a query give to a section.
fn bm25(sections: u64, length: u128, len: u64, hits: &[(u64, u64)]) -> f64 {
    let n = sections as f64;
    let avg = length as f64 / n;
    let mut score = 0.0;
    for (f, with) in hits {
        let (f, with) = (*f as f64, *with as f64);
        let idf = ((n - with + 0.5) / (with + 0.5) + 1.0).ln();
        score += idf * (f * 2.5) / (f + 1.5 * (0.25 + 0.75 * len as f64 / avg));
    }
    score
}

fn search(chunks: &Vec<Chunk>, args: &str) -> Result<String, String> {
    let ask = read_search(&parse(args).unwrap())?;
    let facts = match start(&ask.query, chunks) {
        Start::Answer(text) => return Ok(text),
        Start::Refusal(e) => return Err(e),
        Start::Rank(facts) => facts,
    };
    let scored: Vec<Scored> = facts
        .candidates
        .iter()
        .map(|c| {
            let hits: Vec<(u64, u64)> = c.hits.iter().map(|h| (h.times, h.sections)).collect();
            let score = bm25(facts.sections, facts.length, c.len, &hits);
            Scored { bits: score.to_bits(), at: c.at }
        })
        .collect();
    let ranked: Vec<Ranked> = rank(&scored)
        .iter()
        .map(|s| Ranked { at: s.at, score: format!("{:.2}", f64::from_bits(s.bits)) })
        .collect();
    let weights: Vec<Weight> = scored
        .iter()
        .map(|s| Weight { bits: s.bits, shown: format!("{:.2}", f64::from_bits(s.bits)) })
        .collect();
    let out = conclude(&ask, chunks, &facts, &weights);
    assert_eq!(out, render(&ask, chunks, &facts.terms, &ranked));
    Ok(out)
}

#[test]
fn search_ranks_relevant_chunk_first() {
    let mut docs = chunks(
        "docs/phys.md",
        "# Physics\nThe physics step runs PhysicsStep each tick.\n",
    );
    docs.extend(chunks("docs/audio.md", "# Audio\nAudio emitters mix sound buffers.\n"));
    let out = search(&docs, r#"{"query": "physics step", "roots": ["docs"]}"#).unwrap();
    let phys = out.find("phys.md").unwrap();
    let audio = out.find("audio.md");
    // Physics doc must appear and rank ahead of any audio match.
    assert!(audio.map_or(true, |a| phys < a), "{out}");
}

#[test]
fn searches_say_why_they_find_nothing() {
    let docs = chunks("docs/a.md", "# A\nalpha\n");
    assert_eq!(search(&docs, r#"{"query": "  "}"#).unwrap_err(), "query is required");
    assert_eq!(
        search(&docs, r#"{"query": "the a"}"#).unwrap_err(),
        "query has no searchable terms"
    );
    assert_eq!(
        search(&Vec::new(), r#"{"query": "alpha"}"#).unwrap(),
        "knowledge_search: no documents indexed"
    );
    assert_eq!(
        search(&docs, r#"{"query": "omega"}"#).unwrap(),
        "knowledge_search: no matches for \"omega\""
    );
    assert_eq!(
        search(&docs, r#"{"query": "omega\"\n"}"#).unwrap(),
        format!("knowledge_search: no matches for {:?}", "omega\"")
    );
}

#[test]
fn the_first_match_is_shown_over_any_budget() {
    let mut docs = chunks("docs/a.md", "# A\nalpha one\n");
    docs.extend(chunks("docs/b.md", "# B\nalpha two alpha\n"));
    let out = search(&docs, r#"{"query": "alpha", "token_budget": 1}"#).unwrap();
    assert!(out.contains("top 2 of 2 matches"), "{out}");
    assert!(out.contains("[1] "), "{out}");
    assert!(!out.contains("[2] "), "{out}");
    assert!(out.contains("omitted by token_budget"), "{out}");
}

#[test]
fn a_snippet_is_the_line_of_the_first_hit() {
    let terms = vec!["needle".to_string()];
    let body = "first line\nsecond with Needle inside\nthird";
    assert_eq!(snippet_for(body, &terms, 280), "second with Needle inside");
    assert_eq!(snippet_for(body, &terms, 6), "second …");
    assert_eq!(snippet_for("alpha\nbeta", &vec!["alpha".to_string()], 280), "alpha");
    // Without a hit, the body from its beginning.
    assert_eq!(snippet_for(body, &vec![], 10), "first line …");
    assert_eq!(snippet_for("alpha\nbeta", &terms, 280), "alpha beta");
    // Lower-case forms that are longer than the letters themselves do no harm.
    assert_eq!(snippet_for("İİİ needle\nend", &terms, 280), "İİİ needle");
}

#[test]
fn rankings_are_stable_and_descend() {
    let v = vec![
        Scored { bits: 1.0f64.to_bits(), at: 0 },
        Scored { bits: 3.0f64.to_bits(), at: 1 },
        Scored { bits: 1.0f64.to_bits(), at: 2 },
        Scored { bits: 2.5f64.to_bits(), at: 3 },
    ];
    let order: Vec<usize> = rank(&v).iter().map(|s| s.at).collect();
    assert_eq!(order, vec![1, 3, 0, 2]);
}

fn upsert(existing: Option<String>, args: &str, hint: &str) -> Result<(String, String), String> {
    let args = parse(args).unwrap();
    assert!(is_headable(&args));
    let (entry, _) = read_upsert(&args)?;
    let written = wordkeep::knowledge::upsert::write(&entry, &args, &existing, hint);
    Ok((written.note, written.answer))
}

#[test]
fn upsert_rejects_escape_paths() {
    let err = upsert(
        None,
        r#"{"path": "../evil.md", "heading": "X", "body": "y"}"#,
        "",
    )
    .unwrap_err();
    assert!(err.contains(".."), "{err}");
    let err2 = upsert(
        None,
        r#"{"path": "src/main.cpp", "heading": "X", "body": "y"}"#,
        "",
    )
    .unwrap_err();
    assert!(err2.contains("must be under"), "{err2}");
}

#[test]
fn notes_stay_in_their_directories() {
    assert_eq!(resolve_upsert_path(" /\\docs/a.md ").unwrap(), "docs/a.md");
    assert_eq!(resolve_upsert_path("docs\\b\\c.mdc").unwrap(), "docs/b/c.mdc");
    assert_eq!(
        resolve_upsert_path(".wordkeep/notes/x.markdown").unwrap(),
        ".wordkeep/notes/x.markdown"
    );
    for out in ["docs/../../x.md", "docs\\..\\x.md", "/../docs/x.md"] {
        let err = resolve_upsert_path(out).unwrap_err();
        assert!(err.contains(".."), "{err}");
    }
    let err = resolve_upsert_path("docsx/a.md").unwrap_err();
    assert_eq!(err, "path must be under one of: .cursor/rules, docs, .wordkeep/notes");
    let err = resolve_upsert_path("docs/a.txt").unwrap_err();
    assert_eq!(err, "path must end with .md, .mdc, or .markdown");
}

#[test]
fn paths_are_relative_to_the_root() {
    assert_eq!(validate_rel_path(" ./src\\a.rs ").unwrap(), "src/a.rs");
    assert_eq!(validate_rel_path("src//").unwrap(), "src");
    assert_eq!(validate_rel_path("a..b").unwrap(), "a..b");
    assert_eq!(validate_rel_path("  ").unwrap_err(), "path must not be empty");
    assert_eq!(
        validate_rel_path("/etc").unwrap_err(),
        "path must be relative to the root: /etc"
    );
    assert_eq!(
        validate_rel_path("C:/x").unwrap_err(),
        "path must be relative to the root: C:/x"
    );
    assert_eq!(
        validate_rel_path("a/../b").unwrap_err(),
        "path must not hold `..`: a/../b"
    );
}

#[test]
fn upsert_section_create_and_replace() {
    let rel = ".cursor/rules/agent-note.mdc";
    let (text, answer) = upsert(
        None,
        r#"{
            "path": ".cursor/rules/agent-note.mdc",
            "heading": "Perf",
            "body": "first note",
            "description": "test notes"
        }"#,
        "",
    )
    .unwrap();
    assert!(text.contains("alwaysApply: false"));
    assert!(text.contains("# Perf"));
    assert!(text.contains("first note"));
    assert!(answer.contains("created file"), "{answer}");

    let (text2, answer2) = upsert(
        Some(text),
        r#"{"path": ".cursor/rules/agent-note.mdc", "heading": "Perf", "body": "updated note"}"#,
        "",
    )
    .unwrap();
    assert!(text2.contains("updated note"));
    assert!(!text2.contains("first note"));
    assert!(answer2.contains("updated section"), "{answer2}");

    let docs = chunks(rel, &text2);
    let found = search(&docs, r#"{"query": "updated note perf"}"#).unwrap();
    assert!(found.contains("agent-note"), "{found}");
}

#[test]
fn pitfall_mode_formats_structured_entry() {
    let (text, _) = upsert(
        None,
        r#"{
            "path": ".wordkeep/notes/pitfall-test.md",
            "mode": "pitfall",
            "symptom": "Chunk hitches at 60 Hz",
            "root_cause": "CA jitter on uneven terrain",
            "fix": "Gate remesh on SETTLE_EPS",
            "test_tag": "unit"
        }"#,
        "./build/tests [unit]",
    )
    .unwrap();
    assert!(text.contains("**Symptom:**"));
    assert!(text.contains("SETTLE_EPS"));
    assert!(text.contains("[unit]"));
    let (_, out) = upsert(
        Some(text),
        r#"{
            "path": ".wordkeep/notes/pitfall-test.md",
            "mode": "pitfall",
            "symptom": "Chunk hitches at 60 Hz",
            "root_cause": "CA jitter",
            "fix": "Use settle epsilon"
        }"#,
        "",
    )
    .unwrap();
    assert!(out.contains("pitfall"), "{out}");
}

#[test]
fn replace_section_swaps_body_until_next_heading() {
    let src = "# Alpha\nold\n## Beta\nkeep\n# Gamma\ntail\n";
    let mut s = src.to_string();
    assert!(replace_section(&mut s, "Alpha", "new"));
    assert!(s.contains("# Alpha\n\nnew"));
    assert!(s.contains("## Beta"));
    assert!(s.contains("tail"));
    assert!(!s.contains("old"));
}

#[test]
fn a_replaced_body_keeps_its_heading_line() {
    let mut s = "# Top\nx\n## Deep Part\nold\n# End\ny\n".to_string();
    assert!(replace_section(&mut s, "deep part", "new"));
    assert_eq!(s, "# Top\nx\n## Deep Part\n\nnew\n# End\ny\n");
    let docs = chunks("docs/a.md", &s);
    assert!(docs.iter().any(|c| c.heading == "Deep Part" && c.body == "new"));
}

#[test]
fn a_missing_heading_changes_nothing() {
    let mut s = "# Alpha\nold\n".to_string();
    assert!(!replace_section(&mut s, "Omega", "new"));
    assert_eq!(s, "# Alpha\nold\n");
    assert_eq!(heading_level("## Beta"), Some(2));
    assert_eq!(heading_level("##Beta"), None);
    assert_eq!(heading_level("##"), None);
}

#[test]
fn every_missing_field_is_named() {
    let fails = |args: &str, want: &str| {
        assert_eq!(upsert(None, args, "").unwrap_err(), want);
    };
    fails("{}", "path is required");
    fails(r#"{"path": "docs/a.md"}"#, "heading is required");
    fails(r#"{"path": "docs/a.md", "heading": "H"}"#, "body is required");
    fails(
        r#"{"path": "docs/a.md", "mode": "pitfall"}"#,
        "symptom is required for mode pitfall",
    );
    fails(
        r#"{"path": "docs/a.md", "mode": "pitfall", "symptom": "s"}"#,
        "root_cause is required for mode pitfall",
    );
    fails(
        r#"{"path": "docs/a.md", "mode": "pitfall", "symptom": "s", "root_cause": "r"}"#,
        "fix is required for mode pitfall",
    );
    let err = upsert(
        None,
        r#"{"path": "docs/a.md", "heading": "H", "body": "b", "mode": "paint"}"#,
        "",
    )
    .unwrap_err();
    assert!(err.contains("unknown mode \"paint\""), "{err}");
}

#[test]
fn files_are_replaced_and_sections_appended() {
    let (text, answer) = upsert(
        Some("old".into()),
        r#"{"path": "docs/a.md", "heading": "H", "body": "plain", "mode": "replace_file"}"#,
        "",
    )
    .unwrap();
    assert_eq!(text, "# H\n\nplain\n");
    assert!(answer.contains("replaced file"), "{answer}");
    let (text, _) = upsert(
        Some("# A\n\nx\n".into()),
        r#"{"path": "docs/a.md", "heading": "A", "body": "y", "mode": "append_section"}"#,
        "",
    )
    .unwrap();
    assert_eq!(text, "# A\n\nx\n\n\n# A\n\ny\n");
    let args = parse("{}").unwrap();
    assert_eq!(build_new_file("docs/a.md", "H", "b", &args), "# H\n\nb\n");
}

#[test]
fn long_symptoms_make_short_headings() {
    let h = pitfall_heading_from_symptom(&"x".repeat(100));
    assert_eq!(h.len(), 72);
    assert!(h.ends_with("..."));
    assert_eq!(pitfall_heading_from_symptom("one\ntwo"), "one");
}

#[test]
fn fnv1a_is_stable_and_separates_parts() {
    // Deterministic across calls.
    assert_eq!(fnv1a(&["a", "b"]), fnv1a(&["a", "b"]));
    // The separator prevents `["ab",""]` colliding with `["a","b"]`.
    assert_ne!(fnv1a(&["ab", ""]), fnv1a(&["a", "b"]));
    // Model tag participates in the key.
    assert_ne!(fnv1a(&["m1", "text"]), fnv1a(&["m2", "text"]));
    // The offset basis, with nothing taken in.
    assert_eq!(fnv1a(&[]), 0xcbf2_9ce4_8422_2325);
}

fn bits(v: &[f32]) -> Vec<u32> {
    v.iter().map(|x| x.to_bits()).collect()
}

#[test]
fn cache_round_trips_through_disk() {
    let mut c = read_cache(&Vec::new());
    assert!(!c.contains(7));
    c.insert(7, bits(&[0.1, 0.2, 0.3]));
    c.insert(9, bits(&[0.4, 0.5, 0.6]));
    assert!(c.dirty);

    let file = write_cache(&c);
    assert_eq!(&file[0..4], b"CBE1");
    let reloaded = read_cache(&file);
    assert_eq!(reloaded.dim, 3);
    assert!(reloaded.contains(7));
    assert_eq!(reloaded.get(9), Some(&bits(&[0.4, 0.5, 0.6])));

    // Dimension mismatch is rejected, not corrupting the store.
    let mut c2 = read_cache(&file);
    c2.insert(11, bits(&[1.0, 2.0])); // wrong dim → ignored
    assert!(!c2.contains(11));

    // What is not new is not written again.
    assert!(reloaded.save().is_none());
    assert_eq!(c.save(), Some(file.clone()));

    // A file that was cut short, or is none of these, counts as empty.
    let cut = file[..file.len() - 1].to_vec();
    assert_eq!(read_cache(&cut).dim, 0);
    assert!(!read_cache(&cut).contains(7));
    assert!(!read_cache(&file[..12].to_vec()).contains(7));
    let mut other = file.clone();
    other[0] = b'X';
    assert!(!read_cache(&other).contains(7));
}

#[test]
fn only_missing_embeddings_are_computed() {
    let mut docs = chunks("docs/a.md", "# A\nalpha one\n");
    docs.extend(chunks("docs/b.md", "# B\nalpha two\n"));
    let ranked = vec![Scored { bits: 2, at: 0 }, Scored { bits: 1, at: 1 }];
    let mut cache = Cache::new();
    assert!(plan_batch("q", &docs, &ranked[..1].to_vec(), "m", &cache).is_none());
    let batch: Batch = plan_batch("q", &docs, &ranked, "m", &cache).unwrap();
    assert_eq!(batch.texts, vec!["q", "A\nalpha one", "B\nalpha two"]);
    assert_eq!(batch.misses, vec![0, 1]);
    take_batch(&mut cache, &batch, &vec![vec![9, 9], vec![1, 2], vec![3, 4]]);
    assert!(cache.dirty);
    assert_eq!(cache.get(batch.keys[1]), Some(&vec![3, 4]));
    let again = plan_batch("q", &docs, &ranked, "m", &cache).unwrap();
    assert_eq!(again.texts, vec!["q"]);
    let head = vec![Scored { bits: 1, at: 0 }, Scored { bits: 2, at: 1 }];
    let order: Vec<usize> = rerank(&head, &ranked).iter().map(|s| s.at).collect();
    assert_eq!(order, vec![1, 0]);
}

#[test]
fn a_search_lists_the_best_that_were_asked_for() {
    let mut docs = chunks("docs/a.md", "# A\nalpha beta beta beta beta beta\n");
    docs.extend(chunks("docs/b.md", "# B\nalpha alpha alpha\n"));
    docs.extend(chunks("docs/c.md", "# C\ngamma\n"));
    docs.extend(chunks("docs/d.md", "# D\nalpha alpha beta\n"));
    let two = search(&docs, r#"{"query": "alpha", "k": 2}"#).unwrap();
    assert!(two.starts_with("knowledge_search - query \"alpha\", top 2 of 3 matches\n"), "{two}");
    assert!(two.contains("[1] docs/b.md") && two.contains("[2] docs/d.md"), "{two}");
    assert!(!two.contains("docs/a.md") && !two.contains("docs/c.md"), "{two}");
    assert_eq!(two, search(&docs, r#"{"query": "alpha", "k": 2}"#).unwrap());
}

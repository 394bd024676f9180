use wordkeep::json::parse;
use wordkeep::lang::Lang;
use wordkeep::symbol_refs::{
    call_sites, extract_occ, find, occurrence_counts, read_query, refs_by_file, FileOccs, FileRefs, Role,
};
use wordkeep::symbol_resolve::{
    did_you_mean_hint, levenshtein, normalize_symbol, read_wanted, resolve, score_candidate,
    suggestions,
};
use wordkeep::symbol_def::{definitions, locate_source};

/// Parse `src` as `lang` and return the roles of every occurrence of `symbol`.
fn roles_in(src: &str, symbol: &str, lang: Lang) -> Vec<Role> {
    extract_occ(lang, src)
        .into_iter()
        .filter(|o| o.name == symbol)
        .map(|o| o.role)
        .collect()
}

/// C/C++ shorthand for `roles_in`.
fn roles(src: &str, symbol: &str) -> Vec<Role> {
    roles_in(src, symbol, Lang::Cpp)
}

#[test]
fn record_definition_is_def() {
    assert_eq!(
        roles("struct Widget { int x; };\n", "Widget"),
        vec![Role::Def]
    );
}

#[test]
fn out_of_line_member_def_is_def_not_ref() {
    // The qualified declarator `Foo::Bar` is no ref.
    let src = "struct Foo { void Bar(); };\nvoid Foo::Bar() { return; }\n";
    let rs = roles(src, "Bar");
    assert!(rs.contains(&Role::Def), "decl in struct: {rs:?}");
    // Two defs: in-class declaration + out-of-line definition.
    assert_eq!(rs.iter().filter(|r| **r == Role::Def).count(), 2, "{rs:?}");
    assert!(
        !rs.contains(&Role::Ref),
        "out-of-line def leaked a ref: {rs:?}"
    );
}

#[test]
fn static_qualified_call_is_call() {
    let src = "void use() { Foo::bar(); }\n";
    assert_eq!(roles(src, "bar"), vec![Role::Call]);
}

#[test]
fn qualified_query_matches_whole_name() {
    let src = "void use() { Foo::bar(); }\n";
    // Querying the whole `Foo::bar` resolves the qualified_identifier as a call.
    assert_eq!(roles(src, "Foo::bar"), vec![Role::Call]);
}

#[test]
fn method_call_is_call() {
    let src = "void use(Obj& o) { o.method(); }\n";
    assert_eq!(roles(src, "method"), vec![Role::Call]);
}

#[test]
fn templated_call_is_call() {
    let src = "void use() { make<int>(); }\n";
    assert_eq!(roles(src, "make"), vec![Role::Call]);
}

#[test]
fn base_class_is_reference() {
    let src = "struct Base {};\nstruct Derived : public Base {};\n";
    let rs = roles(src, "Base");
    assert!(rs.contains(&Role::Def), "Base's own def: {rs:?}");
    assert!(rs.contains(&Role::Ref), "inheritance ref: {rs:?}");
    assert!(!rs.contains(&Role::Call), "{rs:?}");
}

#[test]
fn rust_fn_def_and_call_classify() {
    let src = "fn helper() {}\nfn run() { helper(); }\n";
    let rs = roles_in(src, "helper", Lang::Rust);
    assert!(rs.contains(&Role::Def), "{rs:?}");
    assert!(rs.contains(&Role::Call), "{rs:?}");
}

#[test]
fn rust_struct_is_def_and_method_is_call() {
    assert_eq!(
        roles_in("struct Widget { x: i32 }\n", "Widget", Lang::Rust),
        vec![Role::Def]
    );
    assert_eq!(
        roles_in("fn use_it(o: Obj) { o.method(); }\n", "method", Lang::Rust),
        vec![Role::Call]
    );
}

#[test]
fn rust_const_and_static_are_defs() {
    assert_eq!(
        roles_in(
            "pub const INPUT_SPIN: u8 = 1 << 5;\n",
            "INPUT_SPIN",
            Lang::Rust
        ),
        vec![Role::Def]
    );
    let rs = roles_in(
        "pub static MAX: i32 = 1;\nfn use_it() { let _ = MAX; }\n",
        "MAX",
        Lang::Rust,
    );
    assert!(rs.contains(&Role::Def), "{rs:?}");
    assert!(rs.contains(&Role::Ref), "{rs:?}");
}

#[test]
fn flecs_system_and_tracy_zone_strings_are_defs() {
    let src = r#"
void Register() {
  ecs.system("LightCollect")
      .run([](flecs::iter&) {
          ZoneScopedN("LightCollect");
      });
  puts("LightCollect");
}
"#;
    let rs = roles_in(src, "LightCollect", Lang::Cpp);
    assert!(
        rs.iter().filter(|r| **r == Role::Def).count() >= 2,
        "ecs.system + ZoneScopedN should be defs: {rs:?}"
    );
    // Ordinary string content must stay invisible.
    assert_eq!(
        roles_in(r#"void f() { puts("OtherName"); }"#, "OtherName", Lang::Cpp),
        Vec::<Role>::new()
    );
}

#[test]
fn python_def_call_and_method_classify() {
    let src = "def helper():\n    pass\n\ndef run():\n    helper()\n";
    let rs = roles_in(src, "helper", Lang::Python);
    assert!(rs.contains(&Role::Def), "{rs:?}");
    assert!(rs.contains(&Role::Call), "{rs:?}");
    assert_eq!(
        roles_in("def f(o):\n    o.method()\n", "method", Lang::Python),
        vec![Role::Call]
    );
}

#[test]
fn ts_fn_class_and_calls_classify() {
    // function declaration + free call
    let rs = roles_in(
        "function helper() {}\nfunction run() { helper(); }\n",
        "helper",
        Lang::Ts,
    );
    assert!(rs.contains(&Role::Def), "{rs:?}");
    assert!(rs.contains(&Role::Call), "{rs:?}");
    // class + interface + type alias are defs
    assert_eq!(
        roles_in("class Widget {}\n", "Widget", Lang::Ts),
        vec![Role::Def]
    );
    assert_eq!(
        roles_in("interface Shape {}\n", "Shape", Lang::Ts),
        vec![Role::Def]
    );
    // arrow const is a def; method call is a call
    assert_eq!(
        roles_in("const make = () => 1;\n", "make", Lang::Ts),
        vec![Role::Def]
    );
    assert_eq!(
        roles_in("function f(o: any) { o.poke(); }\n", "poke", Lang::Ts),
        vec![Role::Call]
    );
}

#[test]
fn csharp_def_and_member_call() {
    let src = "namespace N {\n  class Plugin {\n    void Awake() { Logger.LogInfo(\"hi\"); }\n  }\n}\n";
    let rs = roles_in(src, "Awake", Lang::CSharp);
    assert!(rs.contains(&Role::Def), "{rs:?}");
    assert_eq!(roles_in(src, "LogInfo", Lang::CSharp), vec![Role::Call]);
}

#[test]
fn svelte_extracts_script_logic() {
    let src = "<script lang=\"ts\">\nfunction onClick() {}\nonClick();\n</script>\n<button on:click={onClick}>go</button>\n";
    let rs = roles_in(src, "onClick", Lang::Svelte);
    assert!(rs.contains(&Role::Def), "{rs:?}");
    assert!(rs.contains(&Role::Call), "{rs:?}");
}

fn occs(rel: &str, src: &str) -> FileOccs {
    FileOccs { rel: rel.into(), text: src.into(), occs: extract_occ(Lang::Cpp, src) }
}

#[test]
fn full_output_summarizes_and_filters() {
    let files = vec![occs(
        "src/a.cpp",
        "struct Foo { void Bar(); };\nvoid Foo::Bar() {}\nvoid use() { Foo f; f.Bar(); }\n",
    )];
    let q = read_query(&parse(r#"{"symbol": "Bar", "paths": ["src"]}"#).unwrap(), 0).unwrap();
    let all = find(&files, &q, "").text;
    assert!(all.contains("def"), "{all}");
    assert!(all.contains("call"), "{all}");
    // Definition-only fast path emits the marker and no call section.
    let q = read_query(
        &parse(r#"{"symbol": "Bar", "paths": ["src"], "kind": "def"}"#).unwrap(),
        0,
    )
    .unwrap();
    let defs = find(&files, &q, "").text;
    assert!(defs.contains("definition-only"), "{defs}");
    assert!(!defs.contains("calls:"), "{defs}");
}

#[test]
fn a_cut_list_resumes_where_it_ended() {
    let src = "void g();\nvoid a() { g(); }\nvoid b() { g(); }\nvoid c() { g(); }\n";
    let files = vec![occs("src/a.cpp", src)];
    let args = parse(r#"{"symbol": "g", "token_budget": 1}"#).unwrap();
    let mut at = 0;
    let mut shown = 0;
    loop {
        let page = find(&files, &read_query(&args, at).unwrap(), "");
        assert_eq!(page.shown, 1, "{}", page.text);
        shown += page.shown;
        match page.next {
            Some(next) => {
                assert!(next > at);
                at = next;
            }
            None => break,
        }
    }
    assert_eq!(shown, 4);
}

#[test]
fn a_list_is_full_at_its_maximum() {
    let src = "void g();\nvoid a() { g(); }\nvoid b() { g(); }\nvoid c() { g(); }\n";
    let files = vec![occs("src/a.cpp", src)];
    let args = parse(r#"{"symbol": "g", "max": 2}"#).unwrap();
    let page = find(&files, &read_query(&args, 0).unwrap(), "");
    assert_eq!(page.shown, 2);
    assert!(page.next.is_none());
    assert!(page.text.contains("raise \"max\""), "{}", page.text);
}

#[test]
fn sites_and_counts_go_by_file() {
    let files = vec![
        occs("src/a.cpp", "void g() {}\n"),
        occs("src/b.cpp", "void h() { g(); g(); }\n"),
    ];
    let refs = refs_by_file("g", &files);
    assert_eq!(refs.len(), 2);
    assert!(refs.iter().any(|r| r.rel == "src/b.cpp" && r.calls == 2));
    let sites = call_sites("g", &files);
    assert_eq!(sites.len(), 2);
    assert!(sites.iter().all(|s| s.rel == "src/b.cpp" && s.line == 1));
    let counts = occurrence_counts(&files);
    let g = counts.get("g").unwrap();
    assert_eq!((g.defs, g.calls), (1, 2));
}

#[test]
fn totals_agree() {
    let files = vec![
        occs("src/b.cpp", "struct G { int g; };\nvoid h() { g(); auto f = &g; }\n"),
        occs("src/a.cpp", "void g() {}\nvoid k() { g(); g(); }\n"),
        occs("src/c.cpp", "void other() {}\n"),
    ];
    let refs = refs_by_file(" g ", &files);
    let sum = |f: fn(&FileRefs) -> usize| refs.iter().map(f).sum::<usize>();
    let (d, c, r) = (sum(|x| x.defs), sum(|x| x.calls), sum(|x| x.refs));
    let counts = occurrence_counts(&files);
    let g = counts.get("g").unwrap();
    assert_eq!((g.defs as usize, g.calls as usize, g.refs as usize), (d, c, r));
    assert!(counts.get("nothing").is_none());
    let sites = call_sites("g", &files);
    for f in &refs {
        assert_eq!(sites.iter().filter(|s| s.rel == f.rel).count(), f.calls);
    }
    assert_eq!(sites.len(), c);
    let q = read_query(&parse(r#"{"symbol": "g"}"#).unwrap(), 0).unwrap();
    let text = find(&files, &q, "").text;
    let head = format!(
        "symbol_refs - \"g\": {d} def, {c} call, {r} ref across {} file(s)",
        refs.len()
    );
    assert!(text.starts_with(&head), "{text}");
}

#[test]
fn normalize_strips_qualifiers_and_templates() {
    assert_eq!(normalize_symbol("Widget"), "Widget");
    assert_eq!(normalize_symbol("::Widget"), "Widget");
    assert_eq!(normalize_symbol("ns::Foo"), "Foo");
    assert_eq!(normalize_symbol("::std::vector<int>"), "vector");
    assert_eq!(normalize_symbol("Foo<Bar::Baz>"), "Foo");
    assert_eq!(normalize_symbol("  A::B<T>::C  "), "C");
    assert_eq!(normalize_symbol("map<string, vector<int>>"), "map");
}

#[test]
fn normalizing_twice_changes_nothing() {
    for raw in ["  A::B<T>::C  ", "::std::vector<int>", "a > b", "operator<", ":::x", "", "a::"] {
        let once = normalize_symbol(raw);
        assert_eq!(normalize_symbol(&once), once);
        assert!(!once.contains("::") && !once.contains('<'));
        assert_eq!(once.trim(), once);
        let t = raw.trim();
        assert_eq!(normalize_symbol(&format!("::{t}")), normalize_symbol(t));
    }
}

fn names(src: &str) -> Vec<String> {
    definitions(Lang::Cpp, src).into_iter().map(|d| d.name).collect()
}

#[test]
fn suggestions_rank_close_names() {
    let known = names(
        "struct WidgetArea { int x; };\nint widget_area() { return 0; }\nint widget_are() { return 1; }\n",
    );
    let sugg = suggestions(&known, "widget_area", 5);
    assert!(
        sugg.iter().any(|s| s == "widget_area" || s == "widget_are"),
        "{sugg:?}"
    );
    // Typo within edit distance 2.
    let typo = suggestions(&known, "widget_aree", 5);
    assert!(typo.iter().any(|s| s.contains("widget_are")), "{typo:?}");
}

#[test]
fn suggestions_reject_short_garbage() {
    assert!(score_candidate("symbl_resolve", "E").is_none());
    assert!(score_candidate("symbl_resolve", "Ve").is_none());
    assert!(score_candidate("symbl_resolve", "Ol").is_none());
    assert!(score_candidate("symbl_resolve", "Bl").is_none());
    // Near-miss of a real identifier still scores.
    assert!(score_candidate("widget_are", "widget_area").is_some());
}

#[test]
fn suggestions_typo_never_emits_short_tokens() {
    let known = names(
        "int symbol_resolve() { return 0; }\nint normalize_symbol() { return 1; }\nint E() { return 2; }\n",
    );
    for needle in ["symbl_resolve", "widget_are"] {
        let sugg = suggestions(&known, needle, 8);
        for s in &sugg {
            assert!(s.len() >= 3, "short garbage for {needle}: {sugg:?}");
        }
    }
    let for_typo = suggestions(&known, "symbl_resolve", 5);
    assert!(
        for_typo.iter().any(|s| s == "symbol_resolve")
            || for_typo.is_empty()
            || for_typo.iter().all(|s| s.len() >= 3),
        "{for_typo:?}"
    );
}

#[test]
fn did_you_mean_empty_when_nothing_close() {
    let known = names("int totally_unrelated() { return 0; }\n");
    let hint = did_you_mean_hint(&known, "zzzz_nope", &vec![]);
    assert!(hint.is_empty(), "{hint}");
}

#[test]
fn resolve_reports_exact_hit() {
    let wanted =
        read_wanted(&parse(r#"{ "symbol": "::alpha_fn", "paths": ["src"] }"#).unwrap()).unwrap();
    let info = locate_source(
        Lang::Cpp,
        "int alpha_fn() { return 0; }\n",
        "src/a.cpp",
        &wanted.symbol,
        false,
    );
    let out = resolve(&wanted, &info, &vec!["src".into()], &vec![], &None, &vec![]);
    assert!(out.contains("alpha_fn"), "{out}");
    assert!(out.contains("function"), "{out}");
}

#[test]
fn edits_are_counted() {
    assert_eq!(levenshtein("kitten", "sitting"), 3);
    assert_eq!(levenshtein("", "abc"), 3);
    assert_eq!(levenshtein("same", "same"), 0);
}

#[test]
fn definitions_come_before_calls() {
    let src = "int area() { return 1; }\nint use_it() { return area(); }\n";
    let files = vec![FileOccs {
        rel: "a.cpp".into(),
        text: src.into(),
        occs: extract_occ(Lang::Cpp, src),
    }];
    let q = read_query(&parse(r#"{"symbol": "area"}"#).unwrap(), 0).unwrap();
    let out = find(&files, &q, "").text;
    let defs = out.find("definitions:").unwrap();
    assert!(defs < out.find("calls:").unwrap(), "{out}");
}

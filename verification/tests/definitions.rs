use wordkeep::lang::Lang;
use wordkeep::symbol_def::{
    clean_comment, clean_pydoc, definitions, def_name, function_spans_from_str, is_exported, locate,
    locate_source, name_matches, seg, DefKind, FileText,
};
use wordkeep::symbol_diff::{
    body_only, build, hunk_new_range, hunk_overlaps_span, old_body_for_symbol, parse_hunks,
    read_diff_ask, render_signature_change, Hunk, Place, Unusable,
};
use wordkeep::json::parse;
use wordkeep::syntax::{parse_prepared, Nodes, Source};
use wordkeep::text::squeeze;

#[test]
fn squeeze_caps_length() {
    assert_eq!(squeeze("a  b\n c", 10), "a b c");
    assert!(squeeze(&"x".repeat(50), 10).ends_with('…'));
}

#[test]
fn clean_comment_strips_markers() {
    assert_eq!(clean_comment("/// hello"), vec!["hello".to_string()]);
    assert_eq!(
        clean_comment("/** a\n * b\n */"),
        vec!["a".to_string(), "b".to_string()]
    );
}

#[test]
fn clean_comment_strips_the_sign_of_python_comments() {
    assert_eq!(clean_comment("# hello"), vec!["hello".to_string()]);
    assert_eq!(clean_comment("## a # b"), vec!["a # b".to_string()]);
    assert!(clean_comment("#####").is_empty());
    assert_eq!(clean_comment("// # title"), vec!["# title".to_string()]);
}

#[test]
fn clean_pydoc_strips_triple_quotes() {
    assert_eq!(
        clean_pydoc("\"\"\"Hi there.\"\"\""),
        vec!["Hi there.".to_string()]
    );
}

#[test]
fn name_matches_on_segment() {
    assert!(name_matches("Foo::bar", "bar"));
    assert!(name_matches("bar", "Foo::bar"));
    assert!(!name_matches("baz", "bar"));
}

#[test]
fn spans_from_str_capture_signature() {
    let spans = function_spans_from_str(Lang::Cpp, "int add(int a, int b) { return a + b; }");
    assert_eq!(spans.len(), 1);
    assert_eq!(seg(&spans[0].name), "add");
    assert!(
        spans[0].signature.contains("int add(int a, int b)"),
        "sig was {:?}",
        spans[0].signature
    );
}

fn exported_in(src: &str, lang: Lang) -> bool {
    let prepared = lang.preprocess(src);
    let nodes = match parse_prepared(lang, &prepared) {
        Some(nodes) => Nodes::new(nodes),
        None => return false,
    };
    let text = Source::new(&prepared);
    let mut found = false;
    for i in 0..nodes.nodes.len() {
        if def_name(lang, &nodes, i, &text).is_some() {
            found = is_exported(lang, &nodes, i, &text);
        }
    }
    found
}

#[test]
fn is_exported_rust_pub_fn() {
    assert!(exported_in("pub fn open() {}", Lang::Rust));
    assert!(!exported_in("fn hidden() {}", Lang::Rust));
}

#[test]
fn is_exported_ts_export_and_private() {
    assert!(exported_in("export function open() {}", Lang::Ts));
    assert!(!exported_in("function hidden() {}", Lang::Ts));
}

#[test]
fn is_exported_csharp_public_method() {
    let src = "namespace N { public class C { public void Open() {} } }";
    assert!(exported_in(src, Lang::CSharp));
}

#[test]
fn locating_finds_signature_body_and_doc() {
    let src = "/// Adds two numbers.\npub fn add(a: i32, b: i32) -> i32 {\n    a + b\n}\n";
    let info = locate_source(Lang::Rust, src, "src/a.rs", "add", true).unwrap();
    assert_eq!(info.name, "add");
    assert_eq!(info.kind, DefKind::Function);
    assert!(info.signature.contains("fn add(a: i32, b: i32) -> i32"), "{}", info.signature);
    assert!(info.doc.iter().any(|l| l.contains("Adds two numbers")), "{:?}", info.doc);
    assert!(info.body.contains("a + b"), "{}", info.body);
    assert!(locate_source(Lang::Rust, src, "src/a.rs", "sub", true).is_none());
}

#[test]
fn the_first_file_with_a_definition_wins() {
    let files = vec![
        FileText { rel: "src/a.py".into(), lang: Lang::Python, text: "x = 1\n".into() },
        FileText {
            rel: "src/b.py".into(),
            lang: Lang::Python,
            text: "def run():\n    \"\"\"Runs.\"\"\"\n    pass\n".into(),
        },
    ];
    let (found, scanned) = locate(&files, "run", false);
    assert_eq!(found.unwrap().rel, "src/b.py");
    assert!(scanned > 0);
    let (none, _) = locate(&files, "walk", false);
    assert!(none.is_none());
}

#[test]
fn definitions_are_listed_with_their_kinds() {
    let defs = definitions(Lang::Cpp, "struct Widget { int x; };\nint area() { return 0; }\n");
    assert!(defs.iter().any(|d| d.name == "Widget"));
    assert!(defs.iter().any(|d| d.name == "area"));
    assert_eq!(DefKind::Function.label(), "function");
}

#[test]
fn body_only_compares_normalized_signatures() {
    assert!(body_only("int foo(int a)", "int  foo(int a)"));
    assert!(!body_only("int foo(int a)", "void foo(int a)"));
}

#[test]
fn old_body_for_symbol_slices_span() {
    let src = "int a();\nint target() {\n  return 1;\n}\n";
    let (sig, body) = old_body_for_symbol(src, Lang::Cpp, "target").unwrap();
    assert!(sig.contains("target"));
    assert!(body.contains("return 1"));
}

#[test]
fn render_signature_change_shows_sig_and_hunks() {
    let h = Hunk {
        new_start: 10,
        new_count: 2,
        lines: vec!["-old line".to_string(), "+new line".to_string()],
    };
    let place = Place {
        gitref: "HEAD".into(),
        name: "foo".into(),
        rel: "src/a.cpp".into(),
        start: 10,
        end: 15,
    };
    let out = render_signature_change(
        &place,
        "void foo(int x)",
        "void foo(int x, int y)",
        &vec![h],
        Some(("old body", "new body")),
        1200,
    );
    assert!(out.contains("signature changed"));
    assert!(out.contains("- void foo(int x)"));
    assert!(out.contains("+ void foo(int x, int y)"));
    assert!(out.contains("-old line"));
    assert!(out.contains("old body"));
    assert!(out.contains("new body"));
}

#[test]
fn hunk_new_range_parses() {
    assert_eq!(hunk_new_range("@@ -1,2 +3,4 @@"), Some((3, 4)));
    assert_eq!(hunk_new_range("@@ -1 +7 @@"), Some((7, 1)));
    assert_eq!(hunk_new_range("no hunk"), None);
}

#[test]
fn overlap_detects_intersection() {
    let h = Hunk { new_start: 10, new_count: 5, lines: vec![] };
    assert!(hunk_overlaps_span(&h, 10, 20));
    assert!(!hunk_overlaps_span(&h, 1, 5));
}

#[test]
fn parse_hunks_collects_lines() {
    let diff = "@@ -1,2 +10,3 @@\n-old\n+new\n context\n";
    let hs = parse_hunks(diff);
    assert_eq!(hs.len(), 1);
    assert_eq!(hs[0].lines.len(), 3);
}

#[test]
fn a_revision_is_no_option() {
    let bad = parse(r#"{"symbol":"run","ref":"--exec"}"#).unwrap();
    let refusal = match read_diff_ask(&bad) {
        Err(e) => e,
        Ok(_) => panic!("an option was taken for a revision"),
    };
    assert!(matches!(refusal, Unusable::BadRef));
    assert!(refusal.message("x").contains("not an option"));
    let none = parse("{}").unwrap();
    assert!(matches!(read_diff_ask(&none), Err(Unusable::NoSymbol)));
}

#[test]
fn an_unknown_symbol_has_no_diff() {
    let ask = match read_diff_ask(&parse(r#"{"symbol":"run"}"#).unwrap()) {
        Ok(a) => a,
        Err(_) => panic!("the request was refused"),
    };
    let built = build(&ask, &vec!["src".into()], &None, 3, &Ok(String::new()), &None);
    assert!(built.text.contains("run"), "{}", built.text);
}

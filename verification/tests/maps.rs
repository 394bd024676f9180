use wordkeep::json::parse;
use wordkeep::lang::Lang;
use wordkeep::module_map::{
    build as build_modules, filter_cross, format_samples, module_of, read_map_ask, visible_modules,
    Calls, Edge, Site,
};
use wordkeep::outline::{
    build_batch, line_of, line_starts, outline_one, read_budget, read_request, Opened, Request,
};
use wordkeep::repo_map::{build, extract, keep, read_kept, symbols_located, FileSymbols};
use wordkeep::smap::StrMap;
use wordkeep::symbol_refs::{extract_occ, refs_by_file, FileOccs};
use wordkeep::test_map::{build as build_tests, catch2_tags, chain_tags, read_test_ask, TestFile};
use wordkeep::text::squeeze;

#[test]
fn module_of_respects_depth() {
    assert_eq!(module_of("src/audio/engine.cpp", None), "src/audio");
    assert_eq!(module_of("src/audio/engine.cpp", Some(1)), "src");
    assert_eq!(module_of("src/audio/engine.cpp", Some(2)), "src/audio");
}

fn edge(from: &str, to: &str, n: u64) -> Edge {
    Edge { from: from.into(), to: to.into(), n, samples: vec![] }
}

#[test]
fn filter_cross_drops_below_min() {
    let cross = vec![edge("src/a", "src/b", 1), edge("src/a", "src/c", 5)];
    let f = filter_cross(&cross, 3);
    assert_eq!(f.len(), 1);
    assert_eq!((f[0].from.as_str(), f[0].to.as_str(), f[0].n), ("src/a", "src/c", 5));
}

#[test]
fn visible_modules_includes_coupled_neighbors() {
    let mut sym: StrMap<u64> = StrMap::new();
    sym.insert("src/a", 2);
    sym.insert("src/b", 3);
    sym.insert("src/c", 1);
    let cross = vec![edge("src/a", "src/b", 2)];
    let vis = visible_modules("src/a", &sym, &cross);
    assert!(vis.get("src/a").is_some());
    assert!(vis.get("src/b").is_some());
    assert!(vis.get("src/c").is_none());
}

#[test]
fn format_samples_renders_pairs() {
    let pairs = vec![("run".to_string(), "helper".to_string())];
    assert_eq!(format_samples(&pairs, 3), "run → helper");
}

#[test]
fn modules_are_mapped_with_their_edges() {
    let ask = read_map_ask(&parse("{}").unwrap(), 0);
    let sites = vec![
        Site { name: "run".into(), rel: "src/a/x.cpp".into() },
        Site { name: "helper".into(), rel: "src/b/y.cpp".into() },
    ];
    let calls = vec![Calls { caller: "run".into(), callees: vec!["helper".into()] }];
    let map = build_modules(&ask, &vec!["src".into()], &sites, &calls);
    assert!(map.text.contains("src/a"), "{}", map.text);
    assert!(map.text.contains("src/b"), "{}", map.text);
}

#[test]
fn line_mapping_is_one_based() {
    let src = "a\nbb\nccc\n";
    let starts = line_starts(src);
    assert_eq!(line_of(&starts, 0), 1); // 'a'
    assert_eq!(line_of(&starts, 2), 2); // first 'b'
    assert_eq!(line_of(&starts, 5), 3); // first 'c'
}

#[test]
fn outlines_a_cpp_file_with_lines() {
    // Widget on line 2, area() on line 3.
    let opened = Opened::Text {
        rel: "a.cpp".into(),
        lang: Lang::Cpp,
        text: "namespace demo {\nstruct Widget { int x; };\nint area(const Widget& w) { return w.x; }\n}\n".into(),
    };
    let (out, _) = outline_one("a.cpp", &opened, 2400);
    assert!(out.contains("struct Widget"), "{out}");
    assert!(out.contains("area("), "{out}");
    assert!(
        out.lines().any(|l| l.contains("Widget") && l.contains('2')),
        "{out}"
    );
}

#[test]
fn unsupported_extension_is_graceful() {
    let (out, _) = outline_one("a.txt", &Opened::Unsupported { rel: "a.txt".into() }, 2400);
    assert!(out.contains("unsupported"), "{out}");
}

#[test]
fn missing_file_returns_ok_with_hint() {
    let opened = Opened::Missing {
        error: "file not found: no_such_file.rs".into(),
        candidates: None,
    };
    let (out, _) = outline_one("no_such_file.rs", &opened, 2400);
    assert!(out.contains("not found"), "{out}");
    assert!(out.contains("default_paths"), "{out}");
}

#[test]
fn batch_files_share_one_header() {
    let args = parse(r#"{"files": ["src/a.cpp", "src/b.cpp"], "token_budget": 4000}"#).unwrap();
    let files = match read_request(&args) {
        Ok(Request::Batch(files)) => files,
        _ => panic!("no batch"),
    };
    let opened = vec![
        Opened::Text {
            rel: "src/a.cpp".into(),
            lang: Lang::Cpp,
            text: "struct Alpha { int x; };\nint alpha_fn() { return 0; }\n".into(),
        },
        Opened::Text {
            rel: "src/b.cpp".into(),
            lang: Lang::Cpp,
            text: "struct Beta { int y; };\nint beta_fn() { return 1; }\n".into(),
        },
    ];
    let out = build_batch(&files, &opened, 0, read_budget(&args)).text;
    assert!(out.contains("outline - batch (2 file(s))"), "{out}");
    assert!(out.contains("Alpha") || out.contains("alpha_fn"), "{out}");
    assert!(out.contains("Beta") || out.contains("beta_fn"), "{out}");
}

#[test]
fn missing_basename_lists_candidates() {
    let opened = Opened::Missing {
        error: "file not found: other/unique_outline_cand.cpp".into(),
        candidates: Some("src/nested/unique_outline_cand.cpp".into()),
    };
    let (out, _) = outline_one("other/unique_outline_cand.cpp", &opened, 2400);
    assert!(
        out.contains("unique_outline_cand") || out.contains("not found"),
        "{out}"
    );
}

#[test]
fn extract_finds_namespace_record_enum_and_fns() {
    let src = r#"
namespace game {
struct Transform { float x; float y; };
enum class State { Idle, Run };
void update(Transform& t);
int Transform_area(const Transform& t) { return 0; }
}
"#;
    let syms = extract(Lang::Cpp, src);
    assert!(syms.iter().any(|s| s == "namespace game"), "{syms:?}");
    assert!(syms.iter().any(|s| s == "struct Transform"), "{syms:?}");
    assert!(syms.iter().any(|s| s == "enum State"), "{syms:?}");
    assert!(syms.iter().any(|s| s.contains("update(")), "{syms:?}");
    assert!(
        syms.iter().any(|s| s.contains("Transform_area(")),
        "{syms:?}"
    );
}

#[test]
fn extract_skips_forward_declarations() {
    // No body → not a real definition, should be omitted.
    let syms = extract(Lang::Cpp, "struct OnlyForward;\n");
    assert!(!syms.iter().any(|s| s == "struct OnlyForward"), "{syms:?}");
}

#[test]
fn extract_is_source_ordered_and_deduped() {
    let src = "struct A {};\nstruct B {};\nstruct A {};\n";
    let syms = extract(Lang::Cpp, src);
    let a = syms.iter().position(|s| s == "struct A");
    let b = syms.iter().position(|s| s == "struct B");
    assert!(a.is_some() && b.is_some());
    assert!(a.unwrap() < b.unwrap(), "source order: {syms:?}");
    assert_eq!(syms.iter().filter(|s| *s == "struct A").count(), 1);
}

#[test]
fn extract_rust_items_and_methods() {
    let src = "pub mod net {\n    pub struct Peer { id: u32 }\n    pub enum State { Up, Down }\n    impl Peer {\n        pub fn ping(&self) -> bool { true }\n    }\n    pub fn connect(addr: &str) -> Peer { todo!() }\n}\n";
    let syms = extract(Lang::Rust, src);
    assert!(syms.iter().any(|s| s == "mod net"), "{syms:?}");
    assert!(syms.iter().any(|s| s == "struct Peer"), "{syms:?}");
    assert!(syms.iter().any(|s| s == "enum State"), "{syms:?}");
    assert!(syms.iter().any(|s| s.starts_with("impl Peer")), "{syms:?}");
    assert!(syms.iter().any(|s| s.contains("fn ping")), "{syms:?}");
    assert!(syms.iter().any(|s| s.contains("fn connect")), "{syms:?}");
}

#[test]
fn extract_python_classes_and_defs() {
    let src = "import os\n\nclass Atlas:\n    def bake(self, path):\n        return path\n\n@cache\ndef build(name):\n    return name\n";
    let syms = extract(Lang::Python, src);
    assert!(
        syms.iter().any(|s| s.starts_with("class Atlas")),
        "{syms:?}"
    );
    assert!(syms.iter().any(|s| s.contains("def bake")), "{syms:?}");
    // decorated def is unwrapped and captured
    assert!(syms.iter().any(|s| s.contains("def build")), "{syms:?}");
}

#[test]
fn extract_typescript_items_and_methods() {
    let src = "export class Atlas {\n  bake(path: string): string { return path; }\n}\ninterface Shape { area(): number }\ntype Id = number;\nenum Color { Red, Green }\nexport function build(name: string): string { return name; }\nconst make = (n: number) => n + 1;\n";
    let syms = extract(Lang::Ts, src);
    assert!(syms.iter().any(|s| s == "class Atlas"), "{syms:?}");
    assert!(syms.iter().any(|s| s.contains("bake")), "{syms:?}");
    assert!(syms.iter().any(|s| s == "interface Shape"), "{syms:?}");
    assert!(syms.iter().any(|s| s == "type Id"), "{syms:?}");
    assert!(syms.iter().any(|s| s == "enum Color"), "{syms:?}");
    assert!(
        syms.iter().any(|s| s.contains("function build")),
        "{syms:?}"
    );
    assert!(syms.iter().any(|s| s.contains("const make")), "{syms:?}");
}

#[test]
fn extract_csharp_classes_and_methods() {
    let src = "namespace App.Exporter {\n  public class Plugin {\n    public void Awake() { Logger.LogInfo(\"hi\"); }\n  }\n  public static class BundleWriter {\n    public static void Write(string dir) {}\n  }\n}\n";
    let syms = extract(Lang::CSharp, src);
    assert!(
        syms.iter().any(|s| s.contains("namespace App.Exporter")),
        "{syms:?}"
    );
    assert!(syms.iter().any(|s| s == "class Plugin"), "{syms:?}");
    assert!(syms.iter().any(|s| s.contains("Awake")), "{syms:?}");
    assert!(syms.iter().any(|s| s == "class BundleWriter"), "{syms:?}");
    assert!(syms.iter().any(|s| s.contains("Write")), "{syms:?}");
}

#[test]
fn extract_svelte_reads_script_only() {
    let src = "<script lang=\"ts\">\nexport function onMount() {}\nconst label = \"hi\";\n</script>\n\n<h1>{label}</h1>\n";
    let syms = extract(Lang::Svelte, src);
    assert!(
        syms.iter().any(|s| s.contains("function onMount")),
        "{syms:?}"
    );
    // markup is not parsed as code
    assert!(!syms.iter().any(|s| s.contains("h1")), "{syms:?}");
}

// The line scanner handles indentation-style Daslang (def name + indented bodies,
// no braces).
#[test]
fn extract_daslang_indentation_via_scanner() {
    let src = "require app_core\n\n[export]\ndef tick_frozen(t : float; dt : float) : float\n    return t - dt\n\nstruct Spark\n    energy : float\n\nenum Element\n    Fire\n";
    let syms = extract(Lang::Daslang, src);
    assert!(
        syms.iter().any(|s| s.contains("def tick_frozen(")),
        "{syms:?}"
    );
    assert!(syms.iter().any(|s| s == "struct Spark"), "{syms:?}");
    assert!(syms.iter().any(|s| s == "enum Element"), "{syms:?}");
    // `require` must not be mistaken for a definition
    assert!(!syms.iter().any(|s| s.contains("require")), "{syms:?}");
}

#[test]
fn daslang_declarations_are_top_level() {
    let src = "class Größe\r\n    def inner()\r\ndef after(x : int)\r\n\tstruct Deep\nenum E2_x!\n";
    let found = symbols_located(Lang::Daslang, src);
    let labels: Vec<&str> = found.iter().map(|(_, s)| s.as_str()).collect();
    assert_eq!(labels, vec!["class Gr", "def after(x : int)", "enum E2_x"]);
    for (place, label) in &found {
        assert!(src[*place..].starts_with(&label[..4]), "{place} {label}");
    }
}

#[test]
fn extract_glsl_struct_and_functions() {
    let src = "#version 330 core\nstruct Light { vec3 pos; };\nvec4 shade(vec3 n) {\n    return vec4(n, 1.0);\n}\nvoid main() {\n    if (true) { discard; }\n}\n";
    let syms = extract(Lang::Glsl, src);
    assert!(syms.iter().any(|s| s == "struct Light"), "{syms:?}");
    assert!(syms.iter().any(|s| s.contains("shade(")), "{syms:?}");
    assert!(syms.iter().any(|s| s.contains("main(")), "{syms:?}");
    // control-flow keywords are not functions
    assert!(!syms.iter().any(|s| s.contains("if (")), "{syms:?}");
}

#[test]
fn squeeze_collapses_and_caps() {
    assert_eq!(squeeze("a   b\n\tc", 110), "a b c");
    for cap in 0..9 {
        let once = squeeze(" ab  cd\n ef ", cap);
        assert_eq!(squeeze(&once, cap), once);
    }
    let long = "x".repeat(200);
    let out = squeeze(&long, 110);
    assert!(out.chars().count() <= 110);
    assert!(out.ends_with('…'));
}

#[test]
fn kept_symbols_come_back() {
    let syms = extract(Lang::Cpp, "struct First {};\nint second() { return 0; }\n");
    assert_eq!(read_kept(&keep(&syms)), syms);
}

#[test]
fn a_map_lists_files_with_their_symbols() {
    let files = vec![FileSymbols {
        rel: "src/a.cpp".into(),
        bytes: 400,
        symbols: vec!["struct First".into()],
    }];
    let built = build(&files, &parse("{}").unwrap(), &vec!["src".into()]);
    assert!(built.text.contains("src/a.cpp"), "{}", built.text);
    assert!(built.text.contains("struct First"), "{}", built.text);
    assert_eq!(built.baseline, 100);
}

fn test_file(rel: &str, symbol: &str, src: &str) -> Vec<TestFile> {
    let files = vec![FileOccs {
        rel: rel.into(),
        text: src.into(),
        occs: extract_occ(Lang::Cpp, src),
    }];
    refs_by_file(symbol, &files)
        .into_iter()
        .map(|refs| TestFile { refs, text: Some(src.into()) })
        .collect()
}

#[test]
fn ranks_test_files_referencing_a_symbol() {
    let ask = read_test_ask(&parse(r#"{ "symbol": "widget_area" }"#).unwrap()).ok().unwrap();
    let mut files = test_file(
        "tests/test_widget.cpp",
        "widget_area",
        "void t() { widget_area(); widget_area(); }\n",
    );
    files.extend(test_file("tests/test_other.cpp", "widget_area", "void u() { unrelated(); }\n"));
    let out = build_tests(&ask, &vec!["tests".into()], &files, 2, "").text;
    assert!(out.contains("test_widget.cpp"), "{out}");
    assert!(!out.contains("test_other.cpp"), "{out}");
}

#[test]
fn reports_when_untested() {
    let ask = read_test_ask(&parse(r#"{ "symbol": "never_referenced" }"#).unwrap()).ok().unwrap();
    let files = test_file(
        "tests/test_a.cpp",
        "never_referenced",
        "void t() { something_else(); }\n",
    );
    let out = build_tests(&ask, &vec!["tests".into()], &files, 1, "").text;
    assert!(
        out.contains("untested") || out.contains("no test file"),
        "{out}"
    );
}

#[test]
fn filters_by_catch2_tags() {
    let ask = read_test_ask(&parse(r#"{ "symbol": "helper_fn", "tags": ["unit"] }"#).unwrap())
        .ok()
        .unwrap();
    let mut files = test_file(
        "tests/test_unit.cpp",
        "helper_fn",
        "TEST_CASE(\"x\", \"[unit]\") { void t() { helper_fn(); } }\n",
    );
    files.extend(test_file(
        "tests/test_other.cpp",
        "helper_fn",
        "TEST_CASE(\"y\", \"[Net]\") { void t() { helper_fn(); } }\n",
    ));
    let out = build_tests(&ask, &vec!["tests".into()], &files, 2, "").text;
    assert!(out.contains("test_unit.cpp"), "{out}");
    assert!(!out.contains("test_other.cpp"), "{out}");
    assert!(out.contains("[unit]"), "{out}");
}

#[test]
fn tags_are_read_and_chained() {
    let tags = catch2_tags("TEST_CASE(\"x\", \"[unit][slow]\") {}\n");
    assert!(tags.iter().any(|t| t.contains("unit")), "{tags:?}");
    assert!(tags.iter().any(|t| t.contains("slow")), "{tags:?}");
    assert!(chain_tags(&vec!["unit".into()]).contains("unit"));
}

#[test]
fn outlines_fill_their_budget() {
    let text: String = (0..40).map(|i| format!("int function_{i}() {{ return {i}; }}\n")).collect();
    let opened = Opened::Text { rel: "a.cpp".into(), lang: Lang::Cpp, text };
    let (one, _) = outline_one("a.cpp", &opened, 0);
    assert!(one.contains("function_0("), "{one}");
    assert!(one.contains("(+39 more; raise token_budget)"), "{one}");
    let (some, _) = outline_one("a.cpp", &opened, 60);
    let rows = some.lines().filter(|l| l.contains("function_")).count();
    assert!(rows > 1 && rows < 40, "{some}");
    assert!(some.contains(&format!("(+{} more; raise token_budget)", 40 - rows)), "{some}");
    let (all, _) = outline_one("a.cpp", &opened, 10_000);
    assert!(!all.contains("more; raise"), "{all}");
}

#[test]
fn test_files_with_most_hits_come_first() {
    let file = |rel: &str, n: usize| {
        let src = format!("void t() {{ {} }}\n", "area(); ".repeat(n));
        FileOccs { rel: rel.into(), occs: extract_occ(Lang::Cpp, &src), text: src }
    };
    let files = vec![file("b.cpp", 2), file("c.cpp", 5), file("a.cpp", 2)];
    let order: Vec<String> = refs_by_file("area", &files).into_iter().map(|f| f.rel).collect();
    assert_eq!(order, vec!["c.cpp", "a.cpp", "b.cpp"]);
    let ask = read_test_ask(&parse(r#"{ "symbol": "area", "max": 1 }"#).unwrap()).ok().unwrap();
    let listed: Vec<TestFile> = refs_by_file("area", &files)
        .into_iter()
        .map(|refs| TestFile { refs, text: None })
        .collect();
    let out = build_tests(&ask, &vec!["tests".into()], &listed, 0, "").text;
    assert!(out.contains("c.cpp") && !out.contains("a.cpp"), "{out}");
    assert!(out.contains("(+2 more; raise \"max\")"), "{out}");
}

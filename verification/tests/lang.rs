use wordkeep::lang::Lang;

#[test]
fn extensions_map_to_languages() {
    assert_eq!(Lang::from_ext("hpp"), Some(Lang::Cpp));
    assert_eq!(Lang::from_ext("CPP"), Some(Lang::Cpp)); // case-insensitive
    assert_eq!(Lang::from_ext("rs"), Some(Lang::Rust));
    assert_eq!(Lang::from_ext("py"), Some(Lang::Python));
    assert_eq!(Lang::from_ext("das"), Some(Lang::Daslang));
    assert_eq!(Lang::from_ext("frag"), Some(Lang::Glsl));
    assert_eq!(Lang::from_ext("ts"), Some(Lang::Ts));
    assert_eq!(Lang::from_ext("mts"), Some(Lang::Ts));
    assert_eq!(Lang::from_ext("js"), Some(Lang::Ts));
    assert_eq!(Lang::from_ext("mjs"), Some(Lang::Ts));
    assert_eq!(Lang::from_ext("cjs"), Some(Lang::Ts));
    assert_eq!(Lang::from_ext("tsx"), Some(Lang::Tsx));
    assert_eq!(Lang::from_ext("svelte"), Some(Lang::Svelte));
    assert_eq!(Lang::from_ext("cs"), Some(Lang::CSharp));
    assert_eq!(Lang::from_ext("md"), None);
    assert_eq!(Lang::from_ext("txt"), None);
}

#[test]
fn from_path_uses_extension() {
    assert_eq!(Lang::from_path("src/a.cpp"), Some(Lang::Cpp));
    assert_eq!(Lang::from_path("tools/x.rs"), Some(Lang::Rust));
    assert_eq!(Lang::from_path("a/b/s.das"), Some(Lang::Daslang));
    assert_eq!(Lang::from_path("README"), None);
}

#[test]
fn grammar_presence_matches_language() {
    assert!(Lang::Cpp.ts_language().is_some());
    assert!(Lang::Rust.ts_language().is_some());
    assert!(Lang::Python.ts_language().is_some());
    assert!(Lang::Glsl.ts_language().is_some());
    assert!(Lang::Ts.ts_language().is_some());
    assert!(Lang::Tsx.ts_language().is_some());
    assert!(Lang::Svelte.ts_language().is_some());
    assert!(Lang::CSharp.ts_language().is_some());
    assert!(Lang::Daslang.ts_language().is_none());
}

#[test]
fn svelte_preprocess_keeps_only_script_and_preserves_lines() {
    let src = "<script lang=\"ts\">\nfunction greet() {}\n</script>\n<h1>hi {name}</h1>\n";
    let out = Lang::Svelte.preprocess(src);
    assert!(out.contains("function greet() {}"), "{out}");
    // Markup is blanked, not parsed as TS.
    assert!(!out.contains("<h1>"), "{out}");
    // Newlines preserved so line numbers still map to the .svelte file.
    assert_eq!(out.lines().count(), src.lines().count());
    assert_eq!(out.lines().nth(1), Some("function greet() {}"));
    // Non-Svelte languages are passed through untouched.
    assert_eq!(Lang::Ts.preprocess(src), src);
}

#[test]
fn blanked_markup_keeps_its_bytes() {
    let src = "<p>é</p>\n<script>\nlet a = 1;\n</script>\n";
    let out = Lang::Svelte.preprocess(src);
    assert_eq!(out.len(), src.len());
    assert!(out.contains("let a = 1;"), "{out}");
    assert!(!out.contains('é'), "{out}");
}

#[test]
fn svelte_bytes_stay_in_their_places() {
    let src = "<p>\u{e9}\n\u{20ac}</p>\n<SCRIPT>\nlet s = \"\u{e9}\";\n</script>\n<b>\u{1f600}</b>\n\
        <script>x</script>";
    let out = Lang::Svelte.preprocess(src);
    let (a, b) = (src.as_bytes(), out.as_bytes());
    assert_eq!(a.len(), b.len());
    let kept: Vec<(usize, usize)> = [("<SCRIPT>", 0), ("<script>", 40)]
        .iter()
        .map(|(tag, from)| {
            let open = from + src[*from..].find(tag).unwrap() + tag.len();
            (open, open + src[open..].find("</script>").unwrap())
        })
        .collect();
    for i in 0..a.len() {
        let inside = kept.iter().any(|(x, y)| *x <= i && i < *y);
        let want = if inside || a[i] == b'\n' { a[i] } else { b' ' };
        assert_eq!(b[i], want, "byte {i}");
    }
}

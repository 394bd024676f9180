//! The shape of a source tree: what each file declares, within a budget.
//!
//! What a file declares is found in its scopes: the file itself, the bodies of
//! namespaces, records, traits and the like, and what merely wraps a declaration.
use vstd::prelude::*;
use crate::izakaya::replay::arranged;
use crate::json::{get_str, number_or, strs_value, texts, texts_of, u64_or, Datum, Json};
use crate::lang::Lang;
use crate::order::{key_views, positioned, sort, sort_order, Key, KeyView};
use crate::symbol_def::{child_text, text_of_child};
use crate::symbol_refs::{binds_function, is_function_binding};
use crate::syntax::{
    at_byte, between, child, child_of, kind_is, node_text, parent, parse_prepared, place,
    syntax_nodes, text_of, Nodes, Source, SyntaxNode, SyntaxView, BODY, DECLARATOR, NAME,
};
use crate::text::{
    behind, blen, capped, contains, copy, count_up, decimal, holds, lemma_line_place,
    lemma_spread_prefix, lemma_spread_split, lines, list_text, listed, lowercase, opt_text,
    same, size, slice, split_char, split_on, spread, squeeze, squeezed, starts, strip_prefix,
    strs, to_chars, to_lower, trim, trim_end_of, trim_start, trimmed, trimmed_end_of,
    trimmed_start,
};

verus! {

/// Symbols shown of one file.
pub const PER_FILE_CAP: usize = 40;

/// Characters shown of one symbol.
pub const LABEL_CAP: usize = 110;

// ---------------------------------------------------------------------------
// Scopes

/// Nodes that only wrap a declaration.
pub open spec fn unwraps(lang: Lang, k: Seq<char>) -> bool {
    match lang {
        Lang::Cpp | Lang::Glsl => k == "template_declaration"@ || k == "linkage_specification"@,
        Lang::Python => k == "decorated_definition"@,
        Lang::Ts | Lang::Tsx | Lang::Svelte => k == "export_statement"@,
        _ => false,
    }
}

/// Declarations whose body is a scope. A record in C or C++ needs a name.
pub open spec fn opens(lang: Lang, k: Seq<char>, has_name: bool) -> bool {
    match lang {
        Lang::Cpp | Lang::Glsl => k == "namespace_definition"@ || (has_name && (k
            == "struct_specifier"@ || k == "class_specifier"@ || k == "union_specifier"@)),
        Lang::Rust => k == "mod_item"@ || k == "trait_item"@ || k == "impl_item"@,
        Lang::Python => k == "class_definition"@,
        Lang::Ts | Lang::Tsx | Lang::Svelte => k == "class_declaration"@ || k
            == "abstract_class_declaration"@,
        Lang::CSharp => keyword(lang, k) is Some || headed(lang, k),
        Lang::Daslang => false,
    }
}

/// Whether the children of a node are declarations of the file.
pub open spec fn scope(lang: Lang, ns: Seq<SyntaxView>, i: int) -> bool
    decreases i,
{
    match parent(ns, i) {
        None => i == 0,
        Some(p) => if 0 <= p < i {
            (unwraps(lang, ns[i].kind) && scope(lang, ns, p)) || (child(ns, p, BODY) == Some(i)
                && opens(lang, ns[p].kind, child(ns, p, NAME) is Some) && match parent(ns, p) {
                None => false,
                Some(q) => 0 <= q < p && scope(lang, ns, q),
            })
        } else {
            false
        },
    }
}

/// Whether a node is a declaration of the file.
pub open spec fn declared(lang: Lang, ns: Seq<SyntaxView>, i: int) -> bool {
    match parent(ns, i) {
        None => false,
        Some(p) => scope(lang, ns, p),
    }
}

fn is_unwrapping(lang: Lang, n: &SyntaxNode) -> (r: bool)
    ensures
        r == unwraps(lang, n@.kind),
{
    match lang {
        Lang::Cpp | Lang::Glsl => kind_is(n, "template_declaration") || kind_is(
            n,
            "linkage_specification",
        ),
        Lang::Python => kind_is(n, "decorated_definition"),
        Lang::Ts | Lang::Tsx | Lang::Svelte => kind_is(n, "export_statement"),
        _ => false,
    }
}

fn is_opening(lang: Lang, n: &SyntaxNode, has_name: bool) -> (r: bool)
    ensures
        r == opens(lang, n@.kind, has_name),
{
    match lang {
        Lang::Cpp | Lang::Glsl => kind_is(n, "namespace_definition") || (has_name && (kind_is(
            n,
            "struct_specifier",
        ) || kind_is(n, "class_specifier") || kind_is(n, "union_specifier"))),
        Lang::Rust => kind_is(n, "mod_item") || kind_is(n, "trait_item") || kind_is(n, "impl_item"),
        Lang::Python => kind_is(n, "class_definition"),
        Lang::Ts | Lang::Tsx | Lang::Svelte => kind_is(n, "class_declaration") || kind_is(
            n,
            "abstract_class_declaration",
        ),
        Lang::CSharp => find_keyword(lang, n).is_some() || is_headed(lang, n),
        Lang::Daslang => false,
    }
}

fn find_scopes(lang: Lang, t: &Nodes) -> (r: Vec<bool>)
    requires
        t.wf(),
    ensures
        r@.len() == t.nodes@.len(),
        forall|i: int| 0 <= i < r@.len() ==> #[trigger] r@[i] == scope(lang, t@, i),
{
    let mut out: Vec<bool> = Vec::new();
    for i in 0..t.nodes.len()
        invariant
            t.wf(),
            out@.len() == i,
            forall|k: int| 0 <= k < i ==> #[trigger] out@[k] == scope(lang, t@, k),
    {
        assert(t@[i as int] == t.nodes@[i as int]@);
        let yes: bool = match t.parent(i) {
            None => i == 0,
            Some(p) => {
                assert(t@[p as int] == t.nodes@[p as int]@);
                if is_unwrapping(lang, &t.nodes[i]) && out[p] {
                    true
                } else {
                    let body: bool = match child_of(&t.nodes, p, BODY) {
                        Some(b) => b == i,
                        None => false,
                    };
                    let named: bool = child_of(&t.nodes, p, NAME).is_some();
                    if body && is_opening(lang, &t.nodes[p], named) {
                        match t.parent(p) {
                            None => false,
                            Some(q) => out[q],
                        }
                    } else {
                        false
                    }
                }
            },
        };
        out.push(yes);
    }
    out
}

// ---------------------------------------------------------------------------
// Labels

/// The keyword that a declaration is shown with, before its name.
pub open spec fn keyword(lang: Lang, k: Seq<char>) -> Option<Seq<char>> {
    match lang {
        Lang::Cpp | Lang::Glsl => if k == "namespace_definition"@ {
            Some("namespace"@)
        } else if k == "struct_specifier"@ {
            Some("struct"@)
        } else if k == "class_specifier"@ {
            Some("class"@)
        } else if k == "union_specifier"@ {
            Some("union"@)
        } else if k == "enum_specifier"@ {
            Some("enum"@)
        } else {
            None
        },
        Lang::Rust => if k == "mod_item"@ {
            Some("mod"@)
        } else if k == "struct_item"@ {
            Some("struct"@)
        } else if k == "enum_item"@ {
            Some("enum"@)
        } else if k == "union_item"@ {
            Some("union"@)
        } else if k == "trait_item"@ {
            Some("trait"@)
        } else if k == "type_item"@ {
            Some("type"@)
        } else if k == "macro_definition"@ {
            Some("macro_rules!"@)
        } else {
            None
        },
        Lang::Ts | Lang::Tsx | Lang::Svelte => if k == "class_declaration"@ || k
            == "abstract_class_declaration"@ {
            Some("class"@)
        } else if k == "interface_declaration"@ {
            Some("interface"@)
        } else if k == "type_alias_declaration"@ {
            Some("type"@)
        } else if k == "enum_declaration"@ {
            Some("enum"@)
        } else {
            None
        },
        Lang::CSharp => if k == "namespace_declaration"@ || k
            == "file_scoped_namespace_declaration"@ {
            Some("namespace"@)
        } else if k == "class_declaration"@ {
            Some("class"@)
        } else if k == "struct_declaration"@ {
            Some("struct"@)
        } else if k == "interface_declaration"@ {
            Some("interface"@)
        } else if k == "enum_declaration"@ {
            Some("enum"@)
        } else if k == "record_declaration"@ || k == "record_struct_declaration"@ {
            Some("record"@)
        } else {
            None
        },
        Lang::Python | Lang::Daslang => None,
    }
}

/// Declarations that are shown by their header.
pub open spec fn headed(lang: Lang, k: Seq<char>) -> bool {
    match lang {
        Lang::Rust => k == "impl_item"@ || k == "function_item"@ || k
            == "function_signature_item"@,
        Lang::Python => k == "class_definition"@ || k == "function_definition"@,
        Lang::Ts | Lang::Tsx | Lang::Svelte => k == "function_declaration"@ || k
            == "generator_function_declaration"@ || k == "method_definition"@,
        Lang::CSharp => k == "method_declaration"@ || k == "constructor_declaration"@ || k
            == "destructor_declaration"@ || k == "property_declaration"@ || k
            == "indexer_declaration"@ || k == "delegate_declaration"@,
        _ => false,
    }
}

fn find_keyword(lang: Lang, n: &SyntaxNode) -> (r: Option<&'static str>)
    ensures
        match r {
            Some(w) => keyword(lang, n@.kind) == Some(w@),
            None => keyword(lang, n@.kind) is None,
        },
{
    match lang {
        Lang::Cpp | Lang::Glsl => if kind_is(n, "namespace_definition") {
            Some("namespace")
        } else if kind_is(n, "struct_specifier") {
            Some("struct")
        } else if kind_is(n, "class_specifier") {
            Some("class")
        } else if kind_is(n, "union_specifier") {
            Some("union")
        } else if kind_is(n, "enum_specifier") {
            Some("enum")
        } else {
            None
        },
        Lang::Rust => if kind_is(n, "mod_item") {
            Some("mod")
        } else if kind_is(n, "struct_item") {
            Some("struct")
        } else if kind_is(n, "enum_item") {
            Some("enum")
        } else if kind_is(n, "union_item") {
            Some("union")
        } else if kind_is(n, "trait_item") {
            Some("trait")
        } else if kind_is(n, "type_item") {
            Some("type")
        } else if kind_is(n, "macro_definition") {
            Some("macro_rules!")
        } else {
            None
        },
        Lang::Ts | Lang::Tsx | Lang::Svelte => if kind_is(n, "class_declaration") || kind_is(
            n,
            "abstract_class_declaration",
        ) {
            Some("class")
        } else if kind_is(n, "interface_declaration") {
            Some("interface")
        } else if kind_is(n, "type_alias_declaration") {
            Some("type")
        } else if kind_is(n, "enum_declaration") {
            Some("enum")
        } else {
            None
        },
        Lang::CSharp => if kind_is(n, "namespace_declaration") || kind_is(
            n,
            "file_scoped_namespace_declaration",
        ) {
            Some("namespace")
        } else if kind_is(n, "class_declaration") {
            Some("class")
        } else if kind_is(n, "struct_declaration") {
            Some("struct")
        } else if kind_is(n, "interface_declaration") {
            Some("interface")
        } else if kind_is(n, "enum_declaration") {
            Some("enum")
        } else if kind_is(n, "record_declaration") || kind_is(n, "record_struct_declaration") {
            Some("record")
        } else {
            None
        },
        Lang::Python | Lang::Daslang => None,
    }
}

fn is_headed(lang: Lang, n: &SyntaxNode) -> (r: bool)
    ensures
        r == headed(lang, n@.kind),
{
    match lang {
        Lang::Rust => kind_is(n, "impl_item") || kind_is(n, "function_item") || kind_is(
            n,
            "function_signature_item",
        ),
        Lang::Python => kind_is(n, "class_definition") || kind_is(n, "function_definition"),
        Lang::Ts | Lang::Tsx | Lang::Svelte => kind_is(n, "function_declaration") || kind_is(
            n,
            "generator_function_declaration",
        ) || kind_is(n, "method_definition"),
        Lang::CSharp => kind_is(n, "method_declaration") || kind_is(n, "constructor_declaration")
            || kind_is(n, "destructor_declaration") || kind_is(n, "property_declaration")
            || kind_is(n, "indexer_declaration") || kind_is(n, "delegate_declaration"),
        _ => false,
    }
}

/// A keyword and a name, where there is a name.
pub open spec fn titled(kw: Seq<char>, name: Option<Seq<char>>) -> Option<Seq<char>> {
    match name {
        Some(n) => Some(kw + " "@ + n),
        None => None,
    }
}

/// Where the header of a node ends: at its body, or where the node ends.
pub open spec fn header_end(ns: Seq<SyntaxView>, i: int) -> nat {
    match child(ns, i, BODY) {
        Some(b) => ns[b].start,
        None => ns[i].end,
    }
}

/// The declaration without its body, on one line and without the semicolon.
pub open spec fn header_of(ns: Seq<SyntaxView>, i: int, src: Seq<char>) -> Seq<char> {
    one_line(between(src, ns[i].start, header_end(ns, i)))
}

/// A declaration on one line, without the semicolon behind it.
pub open spec fn one_line(s: Seq<char>) -> Seq<char> {
    squeezed(trimmed(trimmed_end_of(trimmed(s), ';')), 110)
}

/// Whether two places in bytes bound a part of a text.
pub open spec fn bounds(src: Seq<char>, a: nat, b: nat) -> bool {
    match (at_byte(src, a), at_byte(src, b)) {
        (Some(i), Some(j)) => i <= j,
        _ => false,
    }
}

/// What a declaration in C or C++ is shown as, if it declares a function.
pub open spec fn c_function(ns: Seq<SyntaxView>, i: int, src: Seq<char>) -> Option<Seq<char>> {
    let k = ns[i].kind;
    if k == "function_definition"@ {
        if bounds(src, ns[i].start, header_end(ns, i)) {
            Some(squeezed(trimmed(between(src, ns[i].start, header_end(ns, i))), 110))
        } else {
            None
        }
    } else if k == "declaration"@ || k == "field_declaration"@ {
        match child(ns, i, DECLARATOR) {
            Some(d) => if ns[d].kind == "function_declarator"@ {
                Some(one_line(node_text(ns[i], src)))
            } else {
                None
            },
            None => None,
        }
    } else {
        None
    }
}

/// What a declaration is shown as.
pub open spec fn label(lang: Lang, ns: Seq<SyntaxView>, i: int, src: Seq<char>) -> Option<
    Seq<char>,
> {
    let k = ns[i].kind;
    let c = lang == Lang::Cpp || lang == Lang::Glsl;
    if c && (k == "struct_specifier"@ || k == "class_specifier"@ || k == "union_specifier"@)
        && child(ns, i, BODY) is None {
        None
    } else {
        match keyword(lang, k) {
            Some(kw) => titled(kw, child_text(ns, i, NAME, src)),
            None => if headed(lang, k) {
                Some(header_of(ns, i, src))
            } else if c {
                c_function(ns, i, src)
            } else {
                None
            },
        }
    }
}

fn to_one_line(s: &str) -> (r: String)
    ensures
        r@ == one_line(s@),
{
    let a = trim(s);
    let b = trim_end_of(a.as_str(), ';');
    let c = trim(b.as_str());
    squeeze(c.as_str(), LABEL_CAP)
}

fn find_header_end(t: &Nodes, i: usize) -> (r: usize)
    requires
        i < t.nodes@.len(),
    ensures
        r == header_end(t@, i as int),
{
    assert(t@[i as int] == t.nodes@[i as int]@);
    match child_of(&t.nodes, i, BODY) {
        Some(b) => {
            assert(t@[b as int] == t.nodes@[b as int]@);
            t.nodes[b].start
        },
        None => t.nodes[i].end,
    }
}

fn is_bounds(src: &Source, a: usize, b: usize) -> (r: bool)
    requires
        src.wf(),
    ensures
        r == bounds(src@, a as nat, b as nat),
{
    match (src.position(a), src.position(b)) {
        (Some(i), Some(j)) => i <= j,
        _ => false,
    }
}

fn find_c_function(t: &Nodes, i: usize, src: &Source) -> (r: Option<String>)
    requires
        i < t.nodes@.len(),
        src.wf(),
    ensures
        opt_text(r) == c_function(t@, i as int, src@),
{
    let n = &t.nodes[i];
    assert(t@[i as int] == n@);
    if kind_is(n, "function_definition") {
        let e: usize = find_header_end(t, i);
        if is_bounds(src, n.start, e) {
            Some(squeeze(trim(src.text(n.start, e).as_str()).as_str(), LABEL_CAP))
        } else {
            None
        }
    } else if kind_is(n, "declaration") || kind_is(n, "field_declaration") {
        match child_of(&t.nodes, i, DECLARATOR) {
            Some(d) => {
                assert(t@[d as int] == t.nodes@[d as int]@);
                if kind_is(&t.nodes[d], "function_declarator") {
                    Some(to_one_line(text_of(n, src).as_str()))
                } else {
                    None
                }
            },
            None => None,
        }
    } else {
        None
    }
}

fn find_label(lang: Lang, t: &Nodes, i: usize, src: &Source) -> (r: Option<String>)
    requires
        t.wf(),
        src.wf(),
        i < t.nodes@.len(),
    ensures
        opt_text(r) == label(lang, t@, i as int, src@),
{
    let n = &t.nodes[i];
    assert(t@[i as int] == n@);
    let c: bool = match lang {
        Lang::Cpp | Lang::Glsl => true,
        _ => false,
    };
    if c && (kind_is(n, "struct_specifier") || kind_is(n, "class_specifier") || kind_is(
        n,
        "union_specifier",
    )) && child_of(&t.nodes, i, BODY).is_none() {
        return None;
    }
    match find_keyword(lang, n) {
        Some(kw) => match text_of_child(t, i, NAME, src) {
            Some(name) => {
                let mut r = copy(kw);
                r.append(" ");
                r.append(name.as_str());
                Some(r)
            },
            None => None,
        },
        None => if is_headed(lang, n) {
            let e: usize = find_header_end(t, i);
            Some(to_one_line(src.text(n.start, e).as_str()))
        } else if c {
            find_c_function(t, i, src)
        } else {
            None
        },
    }
}

/// Whether a node binds a function to a name in a declaration of the file.
pub open spec fn bound_here(lang: Lang, ns: Seq<SyntaxView>, i: int) -> bool {
    (lang == Lang::Ts || lang == Lang::Tsx || lang == Lang::Svelte) && ns[i].kind
        == "variable_declarator"@ && match parent(ns, i) {
        Some(p) => (ns[p].kind == "lexical_declaration"@ || ns[p].kind == "variable_declaration"@)
            && declared(lang, ns, p),
        None => false,
    } && binds_function(ns, i)
}

/// What node `i` adds to the symbols of a file.
pub open spec fn symbol_at(lang: Lang, ns: Seq<SyntaxView>, i: int, src: Seq<char>) -> Option<
    Seq<char>,
> {
    if declared(lang, ns, i) {
        label(lang, ns, i, src)
    } else if bound_here(lang, ns, i) {
        match child_text(ns, i, NAME, src) {
            Some(n) => Some("const "@ + n + "()"@),
            None => None,
        }
    } else {
        None
    }
}

/// The symbols at the first `n` nodes, with where they start.
pub open spec fn found_upto(lang: Lang, ns: Seq<SyntaxView>, src: Seq<char>, n: nat) -> Seq<
    (nat, Seq<char>),
>
    decreases n,
{
    if n == 0 {
        Seq::empty()
    } else {
        let rest = found_upto(lang, ns, src, (n - 1) as nat);
        match symbol_at(lang, ns, n - 1, src) {
            Some(s) => rest.push((ns[n - 1].start, s)),
            None => rest,
        }
    }
}

pub open spec fn located_views(v: Seq<(usize, String)>) -> Seq<(nat, Seq<char>)> {
    Seq::new(v.len(), |i: int| (v[i].0 as nat, v[i].1@))
}

fn find_symbol(lang: Lang, t: &Nodes, scopes: &Vec<bool>, i: usize, src: &Source) -> (r: Option<
    String,
>)
    requires
        t.wf(),
        src.wf(),
        i < t.nodes@.len(),
        scopes@.len() == t.nodes@.len(),
        forall|k: int| 0 <= k < scopes@.len() ==> #[trigger] scopes@[k] == scope(lang, t@, k),
    ensures
        opt_text(r) == symbol_at(lang, t@, i as int, src@),
{
    assert(t@[i as int] == t.nodes@[i as int]@);
    match t.parent(i) {
        None => None,
        Some(p) => {
            assert(t@[p as int] == t.nodes@[p as int]@);
            if scopes[p] {
                return find_label(lang, t, i, src);
            }
            let ts: bool = match lang {
                Lang::Ts | Lang::Tsx | Lang::Svelte => true,
                _ => false,
            };
            if !ts || !kind_is(&t.nodes[i], "variable_declarator") {
                return None;
            }
            if !kind_is(&t.nodes[p], "lexical_declaration") && !kind_is(
                &t.nodes[p],
                "variable_declaration",
            ) {
                return None;
            }
            let here: bool = match t.parent(p) {
                Some(q) => scopes[q],
                None => false,
            };
            if !here || !is_function_binding(t, i) {
                return None;
            }
            match text_of_child(t, i, NAME, src) {
                Some(n) => {
                    let mut r = copy("const ");
                    r.append(n.as_str());
                    r.append("()");
                    Some(r)
                },
                None => None,
            }
        },
    }
}

fn collect(lang: Lang, t: &Nodes, src: &Source) -> (r: Vec<(usize, String)>)
    requires
        t.wf(),
        src.wf(),
    ensures
        located_views(r@) == found_upto(lang, t@, src@, t@.len()),
{
    let scopes = find_scopes(lang, t);
    let mut out: Vec<(usize, String)> = Vec::new();
    assert(located_views(out@) =~= Seq::<(nat, Seq<char>)>::empty());
    for i in 0..t.nodes.len()
        invariant
            t.wf(),
            src.wf(),
            scopes@.len() == t.nodes@.len(),
            forall|k: int| 0 <= k < scopes@.len() ==> #[trigger] scopes@[k] == scope(lang, t@, k),
            located_views(out@) == found_upto(lang, t@, src@, i as nat),
    {
        assert(t@[i as int] == t.nodes@[i as int]@);
        if let Some(s) = find_symbol(lang, t, &scopes, i, src) {
            let ghost before = out@;
            let ghost sv = s@;
            out.push((t.nodes[i].start, s));
            assert(located_views(out@) =~= located_views(before).push((t@[i as int].start, sv)));
        }
    }
    out
}

// ---------------------------------------------------------------------------
// Daslang

/// What follows a keyword and white space.
pub open spec fn after_kw(line: Seq<char>, kw: Seq<char>) -> Option<Seq<char>> {
    match behind(line, kw) {
        Some(r) => if r.len() > 0 && (r[0] == ' ' || r[0] == '\t') {
            Some(trimmed_start(r))
        } else {
            None
        },
        None => None,
    }
}

/// A character of an identifier: a letter or digit of ASCII, or `_`.
pub open spec fn ident_char(c: char) -> bool {
    'a' <= c <= 'z' || 'A' <= c <= 'Z' || '0' <= c <= '9' || c == '_'
}

/// Where the leading identifier of a text ends, looked for from `i` on.
pub open spec fn ident_end(s: Seq<char>, i: int) -> int
    decreases s.len() - i,
{
    if i < 0 || i >= s.len() || !ident_char(s[i]) {
        i
    } else {
        ident_end(s, i + 1)
    }
}

pub open spec fn leading_ident(s: Seq<char>) -> Seq<char> {
    s.take(ident_end(s, 0))
}

/// What a line of Daslang declares. A line that is indented belongs to a body and
/// declares nothing.
pub open spec fn das_label(t: Seq<char>) -> Option<Seq<char>> {
    if after_kw(t, "def"@) is Some {
        Some(squeezed(t, 110))
    } else {
        match (
            after_kw(t, "struct"@),
            after_kw(t, "class"@),
            after_kw(t, "enum"@),
            after_kw(t, "variant"@),
        ) {
            (Some(r), _, _, _) => Some("struct "@ + leading_ident(r)),
            (None, Some(r), _, _) => Some("class "@ + leading_ident(r)),
            (None, None, Some(r), _) => Some("enum "@ + leading_ident(r)),
            (None, None, None, Some(r)) => Some("variant "@ + leading_ident(r)),
            (None, None, None, None) => None,
        }
    }
}

/// What the first `n` lines of Daslang declare, each with the byte at which its line
/// begins.
pub open spec fn das_upto(ls: Seq<Seq<char>>, n: nat) -> Seq<(nat, Seq<char>)>
    decreases n,
{
    if n == 0 {
        Seq::empty()
    } else {
        let rest = das_upto(ls, (n - 1) as nat);
        match das_label(ls[n - 1]) {
            Some(s) => rest.push((spread(ls, (n - 1) as nat), s)),
            None => rest,
        }
    }
}

fn find_after_kw(line: &str, kw: &str) -> (r: Option<String>)
    ensures
        opt_text(r) == after_kw(line@, kw@),
{
    match strip_prefix(line, kw) {
        Some(r) => {
            let v = to_chars(r.as_str());
            if v.len() > 0 && (v[0] == ' ' || v[0] == '\t') {
                Some(trim_start(r.as_str()))
            } else {
                None
            }
        },
        None => None,
    }
}

fn is_ident_char(c: char) -> (r: bool)
    ensures
        r == ident_char(c),
{
    ('a' <= c && c <= 'z') || ('A' <= c && c <= 'Z') || ('0' <= c && c <= '9') || c == '_'
}

fn find_ident(s: &str) -> (r: String)
    ensures
        r@ == leading_ident(s@),
{
    let v = to_chars(s);
    let mut i: usize = 0;
    while i < v.len() && is_ident_char(v[i])
        invariant
            v@ == s@,
            i <= v@.len(),
            ident_end(s@, 0) == ident_end(s@, i as int),
        decreases v@.len() - i,
    {
        i = i + 1;
    }
    assert(s@.subrange(0, i as int) =~= s@.take(i as int));
    slice(&v, 0, i)
}

fn find_das_label(t: &str) -> (r: Option<String>)
    ensures
        opt_text(r) == das_label(t@),
{
    if find_after_kw(t, "def").is_some() {
        return Some(squeeze(t, LABEL_CAP));
    }
    if let Some(r) = find_after_kw(t, "struct") {
        let mut s = copy("struct ");
        s.append(find_ident(r.as_str()).as_str());
        return Some(s);
    }
    if let Some(r) = find_after_kw(t, "class") {
        let mut s = copy("class ");
        s.append(find_ident(r.as_str()).as_str());
        return Some(s);
    }
    if let Some(r) = find_after_kw(t, "enum") {
        let mut s = copy("enum ");
        s.append(find_ident(r.as_str()).as_str());
        return Some(s);
    }
    if let Some(r) = find_after_kw(t, "variant") {
        let mut s = copy("variant ");
        s.append(find_ident(r.as_str()).as_str());
        return Some(s);
    }
    None
}

/// The symbols of a text in Daslang.
pub open spec fn das_found(src: Seq<char>) -> Seq<(nat, Seq<char>)> {
    das_upto(split_on(src, '\n'), split_on(src, '\n').len())
}

fn das_symbols(src: &str) -> (r: Vec<(usize, String)>)
    ensures
        located_views(r@) == das_found(src@),
{
    let ls = split_char(src, '\n');
    let ghost all = split_on(src@, '\n');
    let n: usize = size(src);
    let mut out: Vec<(usize, String)> = Vec::new();
    let mut off: usize = 0;
    proof {
        lemma_spread_split(src@);
    }
    assert(strs(ls@).len() == ls@.len());
    assert(located_views(out@) =~= Seq::<(nat, Seq<char>)>::empty());
    for i in 0..ls.len()
        invariant
            all == strs(ls@),
            all.len() == ls@.len(),
            n == blen(src@),
            spread(all, all.len()) == n + 1,
            off == spread(
                all,
                (if i < all.len() || i == 0 {
                    i as nat
                } else {
                    (i - 1) as nat
                }),
            ),
            located_views(out@) == das_upto(all, i as nat),
    {
        assert(all[i as int] == ls@[i as int]@);
        if let Some(s) = find_das_label(ls[i].as_str()) {
            let ghost before = out@;
            let ghost sv = s@;
            out.push((off, s));
            assert(located_views(out@) =~= located_views(before).push((off as nat, sv)));
        }
        if i + 1 < ls.len() {
            proof {
                lemma_spread_prefix(all, (i + 1) as nat, all.len());
            }
            let w: usize = size(ls[i].as_str());
            off = off + w + 1;
        }
    }
    out
}

/// A symbol of Daslang stands where a line begins that declares it: right behind a
/// line feed, or at the beginning of the text.
pub proof fn law_declarations_begin_their_lines(src: Seq<char>, i: int)
    requires
        0 <= i < das_found(src).len(),
    ensures
        exists|k: int, line: Seq<char>|
            0 <= k <= src.len() && blen(src.take(k)) == das_found(src)[i].0 && (k == 0 || src[k
                - 1] == '\n') && #[trigger] starts(src.skip(k), line) && das_label(line) == Some(
                das_found(src)[i].1,
            ),
{
    let ls = split_on(src, '\n');
    let m = lemma_das_line(ls, ls.len(), i);
    let k = lemma_line_place(src, m);
    assert(starts(src.skip(k), ls[m]));
}

proof fn lemma_das_line(ls: Seq<Seq<char>>, n: nat, i: int) -> (m: int)
    requires
        0 <= i < das_upto(ls, n).len(),
        n <= ls.len(),
    ensures
        0 <= m < n,
        das_upto(ls, n)[i].0 == spread(ls, m as nat),
        das_label(ls[m]) == Some(das_upto(ls, n)[i].1),
    decreases n,
{
    let rest = das_upto(ls, (n - 1) as nat);
    if i < rest.len() {
        assert(das_upto(ls, n)[i] == rest[i]);
        lemma_das_line(ls, (n - 1) as nat, i)
    } else {
        n - 1
    }
}

// ---------------------------------------------------------------------------
// The symbols of a file

pub open spec fn start_keys(found: Seq<(nat, Seq<char>)>) -> Seq<KeyView> {
    Seq::new(
        found.len(),
        |i: int| KeyView { rank: found[i].0 as u64, name: ""@, number: 0, at: i as nat },
    )
}

/// Symbols in the order in which they start.
pub open spec fn by_start(found: Seq<(nat, Seq<char>)>) -> Seq<(nat, Seq<char>)> {
    arranged(found, sort_order(start_keys(found)))
}

pub open spec fn has_label(v: Seq<(nat, Seq<char>)>, s: Seq<char>) -> bool {
    exists|i: int| 0 <= i < v.len() && (#[trigger] v[i]).1 == s
}

/// The first of each label among the first `n`.
pub open spec fn first_of_each(v: Seq<(nat, Seq<char>)>, n: nat) -> Seq<(nat, Seq<char>)>
    decreases n,
{
    if n == 0 {
        Seq::empty()
    } else {
        let rest = first_of_each(v, (n - 1) as nat);
        if has_label(rest, v[n - 1].1) {
            rest
        } else {
            rest.push(v[n - 1])
        }
    }
}

/// What a source declares, with the place in bytes where each declaration starts.
pub open spec fn symbols_in(lang: Lang, raw: Seq<char>) -> Seq<(nat, Seq<char>)> {
    let src = lang.prepared(raw);
    let found = match lang.grammar() {
        None => das_found(src),
        Some(g) => match syntax_nodes(g, src) {
            None => Seq::empty(),
            Some(ns) => found_upto(lang, ns, src, ns.len()),
        },
    };
    first_of_each(by_start(found), by_start(found).len())
}

fn find_label_in(v: &Vec<(usize, String)>, s: &str) -> (r: bool)
    ensures
        r == has_label(located_views(v@), s@),
{
    for i in 0..v.len()
        invariant
            forall|k: int| 0 <= k < i ==> (#[trigger] located_views(v@)[k]).1 != s@,
    {
        assert(located_views(v@)[i as int].1 == v@[i as int].1@);
        if same(v[i].1.as_str(), s) {
            return true;
        }
    }
    false
}

fn arrange(found: Vec<(usize, String)>) -> (r: Vec<(usize, String)>)
    ensures
        located_views(r@) == first_of_each(
            by_start(located_views(found@)),
            by_start(located_views(found@)).len(),
        ),
{
    let ghost all = located_views(found@);
    let mut keys: Vec<Key> = Vec::new();
    for i in 0..found.len()
        invariant
            keys@.len() == i,
            all == located_views(found@),
            forall|k: int|
                0 <= k < i ==> (#[trigger] keys@[k])@ == (KeyView {
                    rank: all[k].0 as u64,
                    name: ""@,
                    number: 0,
                    at: k as nat,
                }),
    {
        keys.push(Key { rank: found[i].0 as u64, name: copy(""), number: 0, at: i });
    }
    assert(key_views(keys@) =~= start_keys(all));
    assert(positioned(key_views(keys@)));
    let order = sort(keys);
    let ghost sorted = by_start(all);
    assert(sorted.len() == order@.len());
    let mut out: Vec<(usize, String)> = Vec::new();
    assert(located_views(out@) =~= Seq::<(nat, Seq<char>)>::empty());
    for i in 0..order.len()
        invariant
            all == located_views(found@),
            sorted == by_start(all),
            sorted.len() == order@.len(),
            forall|k: int|
                0 <= k < order@.len() ==> (#[trigger] order@[k] as int) == sort_order(
                    start_keys(all),
                )[k] && order@[k] < found@.len(),
            located_views(out@) == first_of_each(sorted, i as nat),
    {
        let p: usize = order[i];
        assert(order@[i as int] as int == sort_order(start_keys(all))[i as int]);
        let e = &found[p];
        assert(sorted[i as int] == all[p as int]);
        if !find_label_in(&out, e.1.as_str()) {
            let ghost before = out@;
            out.push((e.0, copy(e.1.as_str())));
            assert(located_views(out@) =~= located_views(before).push(all[p as int]));
        }
    }
    out
}

/// Finds what a source declares, in the order of the source and each label once.
pub fn symbols_located(lang: Lang, raw: &str) -> (r: Vec<(usize, String)>)
    ensures
        located_views(r@) == symbols_in(lang, raw@),
{
    let prepared = lang.preprocess(raw);
    let found: Vec<(usize, String)> = match lang.ts_language() {
        None => das_symbols(prepared.as_str()),
        Some(_) => match parse_prepared(lang, prepared.as_str()) {
            None => {
                let none: Vec<(usize, String)> = Vec::new();
                assert(located_views(none@) =~= Seq::<(nat, Seq<char>)>::empty());
                none
            },
            Some(nodes) => {
                let t = Nodes::new(nodes);
                let src = Source::new(prepared.as_str());
                collect(lang, &t, &src)
            },
        },
    };
    arrange(found)
}

pub open spec fn labels_of(v: Seq<(nat, Seq<char>)>) -> Seq<Seq<char>> {
    v.map_values(|e: (nat, Seq<char>)| e.1)
}

/// The labels alone.
pub fn extract(lang: Lang, raw: &str) -> (r: Vec<String>)
    ensures
        strs(r@) == labels_of(symbols_in(lang, raw@)),
{
    let v = symbols_located(lang, raw);
    let mut out: Vec<String> = Vec::new();
    let ghost all = located_views(v@);
    for i in 0..v.len()
        invariant
            all == located_views(v@),
            out@.len() == i,
            forall|k: int| 0 <= k < i ==> (#[trigger] out@[k])@ == all[k].1,
    {
        out.push(copy(v[i].1.as_str()));
    }
    assert(strs(out@) =~= labels_of(all));
    out
}

// ---------------------------------------------------------------------------
// Symbols kept between runs

/// Symbols as they are kept.
pub open spec fn kept(symbols: Seq<Seq<char>>) -> Json {
    crate::json::json_strs(symbols)
}

/// The symbols in what was kept.
pub open spec fn kept_symbols(j: Json) -> Seq<Seq<char>> {
    match j {
        Json::Array(items) => texts_of(items),
        _ => Seq::empty(),
    }
}

pub fn keep(symbols: &Vec<String>) -> (r: Datum)
    ensures
        r@ == kept(strs(symbols@)),
{
    strs_value(symbols)
}

pub fn read_kept(v: &Datum) -> (r: Vec<String>)
    ensures
        strs(r@) == kept_symbols(v@),
{
    match v.items() {
        Some(items) => texts(items),
        None => crate::text::no_strings(),
    }
}

// ---------------------------------------------------------------------------
// The map

/// A file with its size and its symbols.
pub struct FileSymbols {
    pub rel: String,
    pub bytes: u64,
    pub symbols: Vec<String>,
}

/// The values of a [`FileSymbols`].
pub struct FileView {
    pub rel: Seq<char>,
    pub bytes: u64,
    pub symbols: Seq<Seq<char>>,
}

impl View for FileSymbols {
    type V = FileView;

    open spec fn view(&self) -> FileView {
        FileView { rel: self.rel@, bytes: self.bytes, symbols: strs(self.symbols@) }
    }
}

pub open spec fn file_views(v: Seq<FileSymbols>) -> Seq<FileView> {
    Seq::new(v.len(), |i: int| v[i]@)
}

/// The rows of the first `n` symbols.
pub open spec fn symbol_rows(symbols: Seq<Seq<char>>, n: nat) -> Seq<char>
    decreases n,
{
    if n == 0 {
        ""@
    } else {
        symbol_rows(symbols, (n - 1) as nat) + "  "@ + symbols[n - 1] + "\n"@
    }
}

/// What is shown of a file.
pub open spec fn block_of(f: FileView) -> Seq<char> {
    let head = "\n"@ + f.rel + "\n"@;
    if f.symbols.len() > PER_FILE_CAP {
        head + symbol_rows(f.symbols, PER_FILE_CAP as nat) + "  … (+"@ + crate::text::dec(
            (f.symbols.len() - PER_FILE_CAP) as nat,
        ) + " more)\n"@
    } else {
        head + symbol_rows(f.symbols, f.symbols.len())
    }
}

/// A map as far as it has been made.
pub struct MapState {
    pub body: Seq<char>,
    pub used: nat,
    pub files: nat,
    pub skipped: nat,
    pub scanned: nat,
}

/// Whether a file is asked for: its name holds the pattern, whatever the case.
pub open spec fn asked(pattern: Option<Seq<char>>, rel: Seq<char>) -> bool {
    match pattern {
        Some(p) => holds(lowercase(rel), lowercase(p)),
        None => true,
    }
}

/// The map of the first `n` files. Once a file stands in it, what does not fit
/// the budget is left out.
pub open spec fn map_upto(
    fs: Seq<FileView>,
    pattern: Option<Seq<char>>,
    budget: nat,
    n: nat,
) -> MapState
    decreases n,
{
    if n == 0 {
        MapState { body: ""@, used: 0, files: 0, skipped: 0, scanned: 0 }
    } else {
        let s = map_upto(fs, pattern, budget, (n - 1) as nat);
        let f = fs[n - 1];
        if !asked(pattern, f.rel) {
            s
        } else {
            let seen = MapState { scanned: s.scanned + f.bytes as nat, ..s };
            let tokens = blen(block_of(f)) / 4;
            if f.symbols.len() == 0 {
                seen
            } else if s.used + tokens > budget && s.files > 0 {
                MapState { skipped: s.skipped + 1, ..seen }
            } else {
                MapState {
                    body: s.body + block_of(f),
                    used: s.used + tokens,
                    files: s.files + 1,
                    ..seen
                }
            }
        }
    }
}

/// A text with the tokens that reading the sources would have taken and those
/// that the text takes.
pub struct Built {
    pub text: String,
    pub baseline: u64,
    pub returned: u64,
}

/// The values of a [`Built`].
pub struct BuiltView {
    pub text: Seq<char>,
    pub baseline: nat,
    pub returned: nat,
}

impl View for Built {
    type V = BuiltView;

    open spec fn view(&self) -> BuiltView {
        BuiltView {
            text: self.text@,
            baseline: self.baseline as nat,
            returned: self.returned as nat,
        }
    }
}

/// The map of a tree.
pub open spec fn map_of(fs: Seq<FileView>, args: Json, paths: Seq<Seq<char>>) -> BuiltView {
    let pattern = crate::json::as_str(crate::json::get(args, "pattern"@));
    let s = map_upto(fs, pattern, u64_or(args, "token_budget"@, 8000) as nat, fs.len());
    let baseline = capped(s.scanned) as nat / 4;
    if s.files == 0 {
        BuiltView {
            text: "repo_map: no source symbols found under "@ + listed(paths),
            baseline,
            returned: 0,
        }
    } else {
        let note = if s.skipped > 0 {
            " (truncated by token_budget; +"@ + crate::text::dec(s.skipped)
                + " file(s) omitted - narrow paths or raise token_budget)"@
        } else {
            ""@
        };
        let text = "repo_map - "@ + crate::text::dec(s.files) + " file(s), ~"@ + crate::text::dec(
            s.used,
        ) + " tokens"@ + note + "\nroots: "@ + listed(paths) + "\n"@ + s.body;
        BuiltView { text, baseline, returned: blen(text) / 4 }
    }
}

fn make_block(f: &FileSymbols) -> (r: String)
    ensures
        r@ == block_of(f@),
{
    let mut b = copy("\n");
    b.append(f.rel.as_str());
    b.append("\n");
    let ghost head = b@;
    let n: usize = f.symbols.len();
    let m: usize = if n > PER_FILE_CAP {
        PER_FILE_CAP
    } else {
        n
    };
    assert(strs(f.symbols@).len() == n);
    assert(head + symbol_rows(f@.symbols, 0) =~= head) by {
        reveal_strlit("");
    }
    for i in 0..m
        invariant
            m <= f.symbols@.len(),
            b@ == head + symbol_rows(f@.symbols, i as nat),
    {
        assert(f@.symbols[i as int] == f.symbols@[i as int]@);
        let ghost rows = symbol_rows(f@.symbols, i as nat);
        b.append("  ");
        b.append(f.symbols[i].as_str());
        b.append("\n");
        assert(b@ =~= head + (rows + "  "@ + f@.symbols[i as int] + "\n"@));
    }
    if n > PER_FILE_CAP {
        b.append("  … (+");
        b.append(decimal((n - PER_FILE_CAP) as u64).as_str());
        b.append(" more)\n");
    }
    b
}

fn is_asked(pattern: &Option<String>, rel: &str) -> (r: bool)
    ensures
        r == asked(opt_text(*pattern), rel@),
{
    match pattern {
        Some(p) => contains(to_lower(rel).as_str(), to_lower(p.as_str()).as_str()),
        None => true,
    }
}

/// Builds the map of a tree from its files.
pub fn build(files: &Vec<FileSymbols>, args: &Datum, paths: &Vec<String>) -> (r: Built)
    ensures
        r@ == map_of(file_views(files@), args@, strs(paths@)),
{
    let budget: u64 = number_or(args, "token_budget", 8000);
    let pattern: Option<String> = match get_str(args, "pattern") {
        Some(p) => Some(copy(p.as_str())),
        None => None,
    };
    let ghost fs = file_views(files@);
    let ghost pv = opt_text(pattern);
    assert(pv == crate::json::as_str(crate::json::get(args@, "pattern"@)));
    let mut body = copy("");
    let mut used: usize = 0;
    let mut count: usize = 0;
    let mut skipped: usize = 0;
    let mut scanned: u64 = 0;
    proof {
        reveal_strlit("");
        assert(blen(body@) == 0);
    }
    for i in 0..files.len()
        invariant
            fs == file_views(files@),
            pv == opt_text(pattern),
            body@ == map_upto(fs, pv, budget as nat, i as nat).body,
            used == map_upto(fs, pv, budget as nat, i as nat).used,
            count == map_upto(fs, pv, budget as nat, i as nat).files,
            skipped == map_upto(fs, pv, budget as nat, i as nat).skipped,
            scanned == capped(map_upto(fs, pv, budget as nat, i as nat).scanned),
            count + skipped <= i,
            used * 4 <= blen(body@),
    {
        let f = &files[i];
        assert(fs[i as int] == f@);
        assert(strs(f.symbols@).len() == f.symbols@.len());
        assert(files@.len() == files.len());
        if is_asked(&pattern, f.rel.as_str()) {
            scanned = count_up(scanned, f.bytes);
            if f.symbols.len() > 0 {
                let block = make_block(f);
                let whole: usize = size(body.as_str());
                let tokens: usize = size(block.as_str()) / 4;
                if (used + tokens) as u64 > budget && count > 0 {
                    skipped = skipped + 1;
                } else {
                    proof {
                        crate::text::lemma_blen_add(body@, block@);
                    }
                    used = used + tokens;
                    count = count + 1;
                    body.append(block.as_str());
                }
            }
        }
    }
    let baseline: u64 = scanned / 4;
    if count == 0 {
        let mut t = copy("repo_map: no source symbols found under ");
        t.append(list_text(paths).as_str());
        return Built { text: t, baseline, returned: 0 };
    }
    let mut t = copy("repo_map - ");
    t.append(decimal(count as u64).as_str());
    t.append(" file(s), ~");
    t.append(decimal(used as u64).as_str());
    t.append(" tokens");
    let mut note = copy("");
    if skipped > 0 {
        note = copy(" (truncated by token_budget; +");
        note.append(decimal(skipped as u64).as_str());
        note.append(" file(s) omitted - narrow paths or raise token_budget)");
    }
    t.append(note.as_str());
    t.append("\nroots: ");
    t.append(list_text(paths).as_str());
    t.append("\n");
    t.append(body.as_str());
    let returned: u64 = (size(t.as_str()) / 4) as u64;
    Built { text: t, baseline, returned }
}

// ---------------------------------------------------------------------------
// Laws

/// No label is listed twice.
pub proof fn law_symbols_are_distinct(lang: Lang, raw: Seq<char>)
    ensures
        forall|i: int, j: int|
            0 <= i < j < symbols_in(lang, raw).len() ==> #[trigger] symbols_in(lang, raw)[i].1
                != #[trigger] symbols_in(lang, raw)[j].1,
{
    let src = lang.prepared(raw);
    let found = match lang.grammar() {
        None => das_found(src),
        Some(g) => match syntax_nodes(g, src) {
            None => Seq::empty(),
            Some(ns) => found_upto(lang, ns, src, ns.len()),
        },
    };
    lemma_first_distinct(by_start(found), by_start(found).len());
}

proof fn lemma_first_distinct(v: Seq<(nat, Seq<char>)>, n: nat)
    requires
        n <= v.len(),
    ensures
        forall|i: int, j: int|
            0 <= i < j < first_of_each(v, n).len() ==> #[trigger] first_of_each(v, n)[i].1
                != #[trigger] first_of_each(v, n)[j].1,
    decreases n,
{
    if n > 0 {
        let rest = first_of_each(v, (n - 1) as nat);
        lemma_first_distinct(v, (n - 1) as nat);
        let q = first_of_each(v, n);
        assert forall|i: int, j: int| 0 <= i < j < q.len() implies #[trigger] q[i].1
            != #[trigger] q[j].1 by {
            assert(rest[i] == q[i]);
            if j < rest.len() {
                assert(rest[j] == q[j]);
            }
        }
    }
}

/// Symbols stand in the order in which they start.
pub proof fn law_symbols_in_source_order(found: Seq<(nat, Seq<char>)>)
    requires
        forall|i: int| 0 <= i < found.len() ==> (#[trigger] found[i]).0 <= u64::MAX,
    ensures
        forall|i: int, j: int|
            0 <= i < j < first_of_each(by_start(found), by_start(found).len()).len()
                ==> #[trigger] first_of_each(by_start(found), by_start(found).len())[i].0
                <= #[trigger] first_of_each(by_start(found), by_start(found).len())[j].0,
{
    let keys = start_keys(found);
    crate::order::lemma_sort_order(keys);
    let v = by_start(found);
    assert forall|i: int, j: int| 0 <= i < j < v.len() implies #[trigger] v[i].0 <= #[trigger] v[j].0 by {
        let a = sort_order(keys)[i];
        let b = sort_order(keys)[j];
        assert(!crate::order::key_lt(keys[b], keys[a]));
    }
    lemma_first_ascending(v, v.len());
}

proof fn lemma_first_ascending(v: Seq<(nat, Seq<char>)>, n: nat)
    requires
        n <= v.len(),
        forall|i: int, j: int| 0 <= i < j < v.len() ==> #[trigger] v[i].0 <= #[trigger] v[j].0,
    ensures
        forall|i: int|
            0 <= i < first_of_each(v, n).len() ==> exists|k: int|
                0 <= k < n && v[k] == #[trigger] first_of_each(v, n)[i],
        forall|i: int, j: int|
            0 <= i < j < first_of_each(v, n).len() ==> #[trigger] first_of_each(v, n)[i].0
                <= #[trigger] first_of_each(v, n)[j].0,
    decreases n,
{
    if n > 0 {
        let rest = first_of_each(v, (n - 1) as nat);
        lemma_first_ascending(v, (n - 1) as nat);
        let q = first_of_each(v, n);
        assert forall|i: int| 0 <= i < q.len() implies exists|k: int|
            0 <= k < n && v[k] == #[trigger] q[i] by {
            if i < rest.len() {
                assert(q[i] == rest[i]);
                let k = choose|k: int| 0 <= k < n - 1 && v[k] == rest[i];
                assert(v[k] == q[i]);
            } else {
                assert(v[n - 1] == q[i]);
            }
        }
        assert forall|i: int, j: int| 0 <= i < j < q.len() implies #[trigger] q[i].0
            <= #[trigger] q[j].0 by {
            assert(q[i] == rest[i]);
            if j < rest.len() {
                assert(q[j] == rest[j]);
            } else {
                let k = choose|k: int| 0 <= k < n - 1 && v[k] == rest[i];
                assert(v[k].0 <= v[n - 1].0);
            }
        }
    }
}

/// Symbols come back as they were kept.
pub proof fn law_kept_symbols_come_back(symbols: Seq<Seq<char>>)
    ensures
        kept_symbols(kept(symbols)) == symbols,
{
    crate::json::lemma_texts_of_strs(symbols);
    assert(Seq::new(symbols.len(), |i: int| Json::Str(symbols[i])) =~= symbols.map_values(
        |s: Seq<char>| Json::Str(s),
    ));
}

/// Beyond its first file, a map takes no more than its budget.
pub proof fn law_map_within_budget(
    fs: Seq<FileView>,
    pattern: Option<Seq<char>>,
    budget: nat,
    n: nat,
)
    requires
        n <= fs.len(),
    ensures
        map_upto(fs, pattern, budget, n).files > 1 ==> map_upto(fs, pattern, budget, n).used
            <= budget,
    decreases n,
{
    if n > 0 {
        law_map_within_budget(fs, pattern, budget, (n - 1) as nat);
    }
}

} // verus!

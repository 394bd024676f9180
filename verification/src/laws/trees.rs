//! What the files of a tree declare, and what a map of the tree shows of it.
use vstd::prelude::*;
use crate::lang::Lang;
use crate::laws::lists::{lemma_arranged_items, lemma_contains_push};
use crate::laws::texts::{flat, lemma_flat_push};
use crate::order::positioned;
use crate::repo_map::{
    after_kw, block_of, bounds, by_start, das_label, declared, first_of_each, found_upto,
    ident_char, ident_end, label, labels_of, leading_ident, map_of, map_upto, scope, start_keys,
    symbol_at, symbol_rows, symbols_in, FileView,
};
use crate::symbol_def::child_text;
use crate::syntax::{
    between, child, node_text, parent, syntax_nodes, SyntaxView, BODY, DECLARATOR, NAME,
};
use crate::text::{
    behind, dec, holds, listed, lowercase, squeezed, starts, trimmed, trimmed_end_of,
    trimmed_start,
};

verus! {

// ---------------------------------------------------------------------------
// Labels

/// Whether a declaration is shown by a word and its name; without a name it is not shown.
pub open spec fn shown_by_name(
    lang: Lang,
    ns: Seq<SyntaxView>,
    i: int,
    src: Seq<char>,
    word: Seq<char>,
) -> bool {
    match child_text(ns, i, NAME, src) {
        Some(name) => label(lang, ns, i, src) == Some(word + name),
        None => label(lang, ns, i, src) is None,
    }
}

/// Whether a declaration is shown by what stands before its body, on one line and
/// without the semicolon.
pub open spec fn shown_by_header(lang: Lang, ns: Seq<SyntaxView>, i: int, src: Seq<char>) -> bool {
    let stop = match child(ns, i, BODY) {
        Some(b) => ns[b].start,
        None => ns[i].end,
    };
    label(lang, ns, i, src) == Some(
        squeezed(trimmed(trimmed_end_of(trimmed(between(src, ns[i].start, stop)), ';')), 110),
    )
}

/// How what is declared in Rust is shown, and that nothing else is.
pub proof fn law_rust_labels(lang: Lang, ns: Seq<SyntaxView>, i: int, src: Seq<char>)
    requires
        lang == Lang::Rust,
    ensures
        ({
            let k = ns[i].kind;
            &&& k == "mod_item"@ ==> shown_by_name(lang, ns, i, src, "mod "@)
            &&& k == "struct_item"@ ==> shown_by_name(lang, ns, i, src, "struct "@)
            &&& k == "enum_item"@ ==> shown_by_name(lang, ns, i, src, "enum "@)
            &&& k == "union_item"@ ==> shown_by_name(lang, ns, i, src, "union "@)
            &&& k == "trait_item"@ ==> shown_by_name(lang, ns, i, src, "trait "@)
            &&& k == "type_item"@ ==> shown_by_name(lang, ns, i, src, "type "@)
            &&& k == "macro_definition"@ ==> shown_by_name(lang, ns, i, src, "macro_rules! "@)
            &&& k == "impl_item"@ ==> shown_by_header(lang, ns, i, src)
            &&& k == "function_item"@ ==> shown_by_header(lang, ns, i, src)
            &&& k == "function_signature_item"@ ==> shown_by_header(lang, ns, i, src)
            &&& label(lang, ns, i, src) is Some ==> k == "mod_item"@ || k == "struct_item"@ || k == "enum_item"@ || k == "union_item"@ || k == "trait_item"@ || k == "type_item"@ || k == "macro_definition"@ || k == "impl_item"@ || k == "function_item"@ || k == "function_signature_item"@
        }),
{
    reveal_strlit("mod_item");
    reveal_strlit("struct_item");
    reveal_strlit("enum_item");
    reveal_strlit("union_item");
    reveal_strlit("trait_item");
    reveal_strlit("type_item");
    reveal_strlit("macro_definition");
    reveal_strlit("impl_item");
    reveal_strlit("function_item");
    reveal_strlit("function_signature_item");
    assert("mod_item"@.len() == 8);
    assert("struct_item"@.len() == 11);
    assert("enum_item"@.len() == 9);
    assert("union_item"@.len() == 10);
    assert("trait_item"@.len() == 10);
    assert("type_item"@.len() == 9);
    assert("macro_definition"@.len() == 16);
    assert("impl_item"@.len() == 9);
    assert("function_item"@.len() == 13);
    assert("function_signature_item"@.len() == 23);
    assert("enum_item"@[0] == 'e');
    assert("union_item"@[0] == 'u');
    assert("trait_item"@[0] == 't');
    assert("type_item"@[0] == 't');
    assert("impl_item"@[0] == 'i');
    reveal_strlit(" ");
    reveal_strlit("mod ");
    reveal_strlit("mod");
    assert("mod"@ + " "@ =~= "mod "@);
    reveal_strlit("struct ");
    reveal_strlit("struct");
    assert("struct"@ + " "@ =~= "struct "@);
    reveal_strlit("enum ");
    reveal_strlit("enum");
    assert("enum"@ + " "@ =~= "enum "@);
    reveal_strlit("union ");
    reveal_strlit("union");
    assert("union"@ + " "@ =~= "union "@);
    reveal_strlit("trait ");
    reveal_strlit("trait");
    assert("trait"@ + " "@ =~= "trait "@);
    reveal_strlit("type ");
    reveal_strlit("type");
    assert("type"@ + " "@ =~= "type "@);
    reveal_strlit("macro_rules! ");
    reveal_strlit("macro_rules!");
    assert("macro_rules!"@ + " "@ =~= "macro_rules! "@);
    if let Some(name) = child_text(ns, i, NAME, src) {
        assert("mod"@ + " "@ + name == "mod "@ + name);
        assert("struct"@ + " "@ + name == "struct "@ + name);
        assert("enum"@ + " "@ + name == "enum "@ + name);
        assert("union"@ + " "@ + name == "union "@ + name);
        assert("trait"@ + " "@ + name == "trait "@ + name);
        assert("type"@ + " "@ + name == "type "@ + name);
        assert("macro_rules!"@ + " "@ + name == "macro_rules! "@ + name);
    }
}

/// How what is declared in TypeScript is shown, and that nothing else is.
pub proof fn law_typescript_labels(lang: Lang, ns: Seq<SyntaxView>, i: int, src: Seq<char>)
    requires
        lang == Lang::Ts || lang == Lang::Tsx || lang == Lang::Svelte,
    ensures
        ({
            let k = ns[i].kind;
            &&& k == "class_declaration"@ ==> shown_by_name(lang, ns, i, src, "class "@)
            &&& k == "abstract_class_declaration"@ ==> shown_by_name(lang, ns, i, src, "class "@)
            &&& k == "interface_declaration"@ ==> shown_by_name(lang, ns, i, src, "interface "@)
            &&& k == "type_alias_declaration"@ ==> shown_by_name(lang, ns, i, src, "type "@)
            &&& k == "enum_declaration"@ ==> shown_by_name(lang, ns, i, src, "enum "@)
            &&& k == "function_declaration"@ ==> shown_by_header(lang, ns, i, src)
            &&& k == "generator_function_declaration"@ ==> shown_by_header(lang, ns, i, src)
            &&& k == "method_definition"@ ==> shown_by_header(lang, ns, i, src)
            &&& label(lang, ns, i, src) is Some ==> k == "class_declaration"@ || k == "abstract_class_declaration"@ || k == "interface_declaration"@ || k == "type_alias_declaration"@ || k == "enum_declaration"@ || k == "function_declaration"@ || k == "generator_function_declaration"@ || k == "method_definition"@
        }),
{
    reveal_strlit("class_declaration");
    reveal_strlit("abstract_class_declaration");
    reveal_strlit("interface_declaration");
    reveal_strlit("type_alias_declaration");
    reveal_strlit("enum_declaration");
    reveal_strlit("function_declaration");
    reveal_strlit("generator_function_declaration");
    reveal_strlit("method_definition");
    assert("class_declaration"@.len() == 17);
    assert("abstract_class_declaration"@.len() == 26);
    assert("interface_declaration"@.len() == 21);
    assert("type_alias_declaration"@.len() == 22);
    assert("enum_declaration"@.len() == 16);
    assert("function_declaration"@.len() == 20);
    assert("generator_function_declaration"@.len() == 30);
    assert("method_definition"@.len() == 17);
    assert("class_declaration"@[0] == 'c');
    assert("method_definition"@[0] == 'm');
    reveal_strlit(" ");
    reveal_strlit("class ");
    reveal_strlit("class");
    assert("class"@ + " "@ =~= "class "@);
    reveal_strlit("interface ");
    reveal_strlit("interface");
    assert("interface"@ + " "@ =~= "interface "@);
    reveal_strlit("type ");
    reveal_strlit("type");
    assert("type"@ + " "@ =~= "type "@);
    reveal_strlit("enum ");
    reveal_strlit("enum");
    assert("enum"@ + " "@ =~= "enum "@);
    if let Some(name) = child_text(ns, i, NAME, src) {
        assert("class"@ + " "@ + name == "class "@ + name);
        assert("interface"@ + " "@ + name == "interface "@ + name);
        assert("type"@ + " "@ + name == "type "@ + name);
        assert("enum"@ + " "@ + name == "enum "@ + name);
    }
}

/// How what is declared in C# is shown, and that nothing else is.
pub proof fn law_csharp_labels(lang: Lang, ns: Seq<SyntaxView>, i: int, src: Seq<char>)
    requires
        lang == Lang::CSharp,
    ensures
        ({
            let k = ns[i].kind;
            &&& k == "namespace_declaration"@ ==> shown_by_name(lang, ns, i, src, "namespace "@)
            &&& k == "file_scoped_namespace_declaration"@ ==> shown_by_name(lang, ns, i, src, "namespace "@)
            &&& k == "class_declaration"@ ==> shown_by_name(lang, ns, i, src, "class "@)
            &&& k == "struct_declaration"@ ==> shown_by_name(lang, ns, i, src, "struct "@)
            &&& k == "interface_declaration"@ ==> shown_by_name(lang, ns, i, src, "interface "@)
            &&& k == "enum_declaration"@ ==> shown_by_name(lang, ns, i, src, "enum "@)
            &&& k == "record_declaration"@ ==> shown_by_name(lang, ns, i, src, "record "@)
            &&& k == "record_struct_declaration"@ ==> shown_by_name(lang, ns, i, src, "record "@)
            &&& k == "method_declaration"@ ==> shown_by_header(lang, ns, i, src)
            &&& k == "constructor_declaration"@ ==> shown_by_header(lang, ns, i, src)
            &&& k == "destructor_declaration"@ ==> shown_by_header(lang, ns, i, src)
            &&& k == "property_declaration"@ ==> shown_by_header(lang, ns, i, src)
            &&& k == "indexer_declaration"@ ==> shown_by_header(lang, ns, i, src)
            &&& k == "delegate_declaration"@ ==> shown_by_header(lang, ns, i, src)
            &&& label(lang, ns, i, src) is Some ==> k == "namespace_declaration"@ || k == "file_scoped_namespace_declaration"@ || k == "class_declaration"@ || k == "struct_declaration"@ || k == "interface_declaration"@ || k == "enum_declaration"@ || k == "record_declaration"@ || k == "record_struct_declaration"@ || k == "method_declaration"@ || k == "constructor_declaration"@ || k == "destructor_declaration"@ || k == "property_declaration"@ || k == "indexer_declaration"@ || k == "delegate_declaration"@
        }),
{
    reveal_strlit("namespace_declaration");
    reveal_strlit("file_scoped_namespace_declaration");
    reveal_strlit("class_declaration");
    reveal_strlit("struct_declaration");
    reveal_strlit("interface_declaration");
    reveal_strlit("enum_declaration");
    reveal_strlit("record_declaration");
    reveal_strlit("record_struct_declaration");
    reveal_strlit("method_declaration");
    reveal_strlit("constructor_declaration");
    reveal_strlit("destructor_declaration");
    reveal_strlit("property_declaration");
    reveal_strlit("indexer_declaration");
    reveal_strlit("delegate_declaration");
    assert("namespace_declaration"@.len() == 21);
    assert("file_scoped_namespace_declaration"@.len() == 33);
    assert("class_declaration"@.len() == 17);
    assert("struct_declaration"@.len() == 18);
    assert("interface_declaration"@.len() == 21);
    assert("enum_declaration"@.len() == 16);
    assert("record_declaration"@.len() == 18);
    assert("record_struct_declaration"@.len() == 25);
    assert("method_declaration"@.len() == 18);
    assert("constructor_declaration"@.len() == 23);
    assert("destructor_declaration"@.len() == 22);
    assert("property_declaration"@.len() == 20);
    assert("indexer_declaration"@.len() == 19);
    assert("delegate_declaration"@.len() == 20);
    assert("namespace_declaration"@[0] == 'n');
    assert("struct_declaration"@[0] == 's');
    assert("interface_declaration"@[0] == 'i');
    assert("record_declaration"@[0] == 'r');
    assert("method_declaration"@[0] == 'm');
    assert("property_declaration"@[0] == 'p');
    assert("delegate_declaration"@[0] == 'd');
    reveal_strlit(" ");
    reveal_strlit("namespace ");
    reveal_strlit("namespace");
    assert("namespace"@ + " "@ =~= "namespace "@);
    reveal_strlit("class ");
    reveal_strlit("class");
    assert("class"@ + " "@ =~= "class "@);
    reveal_strlit("struct ");
    reveal_strlit("struct");
    assert("struct"@ + " "@ =~= "struct "@);
    reveal_strlit("interface ");
    reveal_strlit("interface");
    assert("interface"@ + " "@ =~= "interface "@);
    reveal_strlit("enum ");
    reveal_strlit("enum");
    assert("enum"@ + " "@ =~= "enum "@);
    reveal_strlit("record ");
    reveal_strlit("record");
    assert("record"@ + " "@ =~= "record "@);
    if let Some(name) = child_text(ns, i, NAME, src) {
        assert("namespace"@ + " "@ + name == "namespace "@ + name);
        assert("class"@ + " "@ + name == "class "@ + name);
        assert("struct"@ + " "@ + name == "struct "@ + name);
        assert("interface"@ + " "@ + name == "interface "@ + name);
        assert("enum"@ + " "@ + name == "enum "@ + name);
        assert("record"@ + " "@ + name == "record "@ + name);
    }
}

/// How what is declared in Python is shown, and that nothing else is.
pub proof fn law_python_labels(lang: Lang, ns: Seq<SyntaxView>, i: int, src: Seq<char>)
    requires
        lang == Lang::Python,
    ensures
        ({
            let k = ns[i].kind;
            &&& k == "class_definition"@ ==> shown_by_header(lang, ns, i, src)
            &&& k == "function_definition"@ ==> shown_by_header(lang, ns, i, src)
            &&& label(lang, ns, i, src) is Some ==> k == "class_definition"@ || k == "function_definition"@
        }),
{
    reveal_strlit("class_definition");
    reveal_strlit("function_definition");
    assert("class_definition"@.len() == 16);
    assert("function_definition"@.len() == 19);
}

/// How what is declared in C and C++ is shown: a record only where it has a body, a
/// function by what stands before its body, a declared function without the semicolon.
pub proof fn law_cpp_labels(lang: Lang, ns: Seq<SyntaxView>, i: int, src: Seq<char>)
    requires
        lang == Lang::Cpp || lang == Lang::Glsl,
    ensures
        ({
            let k = ns[i].kind;
            let bare = child(ns, i, BODY) is None;
            let stop = match child(ns, i, BODY) {
                Some(b) => ns[b].start,
                None => ns[i].end,
            };
            let l = label(lang, ns, i, src);
            &&& k == "namespace_definition"@ ==> shown_by_name(lang, ns, i, src, "namespace "@)
            &&& k == "enum_specifier"@ ==> shown_by_name(lang, ns, i, src, "enum "@)
            &&& k == "struct_specifier"@ && !bare ==> shown_by_name(lang, ns, i, src, "struct "@)
            &&& k == "class_specifier"@ && !bare ==> shown_by_name(lang, ns, i, src, "class "@)
            &&& k == "union_specifier"@ && !bare ==> shown_by_name(lang, ns, i, src, "union "@)
            &&& bare && (k == "struct_specifier"@ || k == "class_specifier"@ || k
                == "union_specifier"@) ==> l is None
            &&& k == "function_definition"@ && bounds(src, ns[i].start, stop) ==> l == Some(
                squeezed(trimmed(between(src, ns[i].start, stop)), 110),
            )
            &&& (k == "declaration"@ || k == "field_declaration"@) ==> match child(
                ns,
                i,
                DECLARATOR,
            ) {
                Some(d) => if ns[d].kind == "function_declarator"@ {
                    l == Some(
                        squeezed(trimmed(trimmed_end_of(trimmed(node_text(ns[i], src)), ';')), 110),
                    )
                } else {
                    l is None
                },
                None => l is None,
            }
            &&& l is Some ==> k == "namespace_definition"@ || k == "enum_specifier"@ || k
                == "struct_specifier"@ || k == "class_specifier"@ || k == "union_specifier"@ || k
                == "function_definition"@ || k == "declaration"@ || k == "field_declaration"@
        }),
{
    reveal_strlit("namespace_definition");
    reveal_strlit("enum_specifier");
    reveal_strlit("struct_specifier");
    reveal_strlit("class_specifier");
    reveal_strlit("union_specifier");
    reveal_strlit("function_definition");
    reveal_strlit("declaration");
    reveal_strlit("field_declaration");
    assert("namespace_definition"@.len() == 20);
    assert("enum_specifier"@.len() == 14);
    assert("struct_specifier"@.len() == 16);
    assert("class_specifier"@.len() == 15);
    assert("union_specifier"@.len() == 15);
    assert("function_definition"@.len() == 19);
    assert("declaration"@.len() == 11);
    assert("field_declaration"@.len() == 17);
    assert("class_specifier"@[0] == 'c');
    assert("union_specifier"@[0] == 'u');
    reveal_strlit(" ");
    reveal_strlit("namespace ");
    reveal_strlit("namespace");
    assert("namespace"@ + " "@ =~= "namespace "@);
    reveal_strlit("enum ");
    reveal_strlit("enum");
    assert("enum"@ + " "@ =~= "enum "@);
    reveal_strlit("struct ");
    reveal_strlit("struct");
    assert("struct"@ + " "@ =~= "struct "@);
    reveal_strlit("class ");
    reveal_strlit("class");
    assert("class"@ + " "@ =~= "class "@);
    reveal_strlit("union ");
    reveal_strlit("union");
    assert("union"@ + " "@ =~= "union "@);
}

// ---------------------------------------------------------------------------
// Scopes

/// What is declared at the top of a file, behind what only wraps a declaration, and
/// in the bodies of what has members, is declared by the file, and nothing else is.
pub proof fn law_what_a_file_declares(lang: Lang, ns: Seq<SyntaxView>, i: int, up: int, over: int)
    requires
        parent(ns, i) == Some(up),
        parent(ns, up) == Some(over),
        0 <= over < up < i,
        parent(ns, over) matches Some(q) ==> 0 <= q < over,
    ensures
        ({
            let k = ns[up].kind;
            let o = ns[over].kind;
            let named = child(ns, over, NAME) is Some;
            let cpp = lang == Lang::Cpp || lang == Lang::Glsl;
            let ts = lang == Lang::Ts || lang == Lang::Tsx || lang == Lang::Svelte;
            let wrapped = (cpp && (k == "template_declaration"@ || k == "linkage_specification"@))
                || (lang == Lang::Python && k == "decorated_definition"@) || (ts && k
                == "export_statement"@);
            let has_members = (cpp && (o == "namespace_definition"@ || (named && (o
                == "struct_specifier"@ || o == "class_specifier"@ || o == "union_specifier"@))))
                || (lang == Lang::Rust && (o == "mod_item"@ || o == "trait_item"@ || o
                == "impl_item"@)) || (lang == Lang::Python && o == "class_definition"@) || (ts && (o
                == "class_declaration"@ || o == "abstract_class_declaration"@)) || (lang
                == Lang::CSharp && member_holder(o));
            declared(lang, ns, i) <==> (wrapped && declared(lang, ns, up)) || (child(ns, over, BODY)
                == Some(up) && has_members && declared(lang, ns, over))
        }),
{
    reveal_with_fuel(scope, 2);
}

/// What has members in C#: namespaces, types, and what is shown by its header.
pub open spec fn member_holder(o: Seq<char>) -> bool {
    o == "namespace_declaration"@ || o == "file_scoped_namespace_declaration"@ || o
        == "class_declaration"@ || o == "struct_declaration"@ || o == "interface_declaration"@ || o
        == "enum_declaration"@ || o == "record_declaration"@ || o == "record_struct_declaration"@
        || o == "method_declaration"@ || o == "constructor_declaration"@ || o
        == "destructor_declaration"@ || o == "property_declaration"@ || o
        == "indexer_declaration"@ || o == "delegate_declaration"@
}

/// What stands right below the whole file is declared by the file.
pub proof fn law_top_is_declared(lang: Lang, ns: Seq<SyntaxView>, i: int)
    requires
        parent(ns, i) == Some(0int),
        parent(ns, 0) is None,
    ensures
        declared(lang, ns, i),
{
}

// ---------------------------------------------------------------------------
// Symbols

/// What the nodes of a source declare is found, where it starts, and nothing else.
pub proof fn law_declarations_are_found(
    lang: Lang,
    ns: Seq<SyntaxView>,
    src: Seq<char>,
    n: nat,
    x: (nat, Seq<char>),
)
    requires
        n <= ns.len(),
    ensures
        found_upto(lang, ns, src, n).contains(x) <==> exists|i: int|
            0 <= i < n && #[trigger] symbol_at(lang, ns, i, src) == Some(x.1) && ns[i].start == x.0,
    decreases n,
{
    if n > 0 {
        let m = (n - 1) as nat;
        law_declarations_are_found(lang, ns, src, m, x);
        let rest = found_upto(lang, ns, src, m);
        if let Some(s) = symbol_at(lang, ns, n - 1, src) {
            lemma_contains_push(rest, (ns[n - 1].start, s), x);
        }
        if found_upto(lang, ns, src, n).contains(x) {
            if rest.contains(x) {
                let i = choose|i: int|
                    0 <= i < m && #[trigger] symbol_at(lang, ns, i, src) == Some(x.1)
                        && ns[i].start == x.0;
                assert(symbol_at(lang, ns, i, src) == Some(x.1));
            } else {
                assert(symbol_at(lang, ns, n - 1, src) == Some(x.1));
            }
        }
    }
}

proof fn lemma_first_has(v: Seq<(nat, Seq<char>)>, n: nat, s: Seq<char>)
    requires
        n <= v.len(),
    ensures
        crate::repo_map::has_label(first_of_each(v, n), s) <==> exists|i: int|
            0 <= i < n && (#[trigger] v[i]).1 == s,
        forall|x: (nat, Seq<char>)|
            first_of_each(v, n).contains(x) ==> exists|i: int|
                0 <= i < n && (#[trigger] v[i]) == x && forall|j: int|
                    0 <= j < i ==> (#[trigger] v[j]).1 != x.1,
    decreases n,
{
    if n > 0 {
        let m = (n - 1) as nat;
        let rest = first_of_each(v, m);
        let q = first_of_each(v, n);
        lemma_first_has(v, m, s);
        lemma_first_has(v, m, v[n - 1].1);
        assert forall|x: (nat, Seq<char>)| q.contains(x) implies exists|i: int|
            0 <= i < n && (#[trigger] v[i]) == x && forall|j: int|
                0 <= j < i ==> (#[trigger] v[j]).1 != x.1 by {
            if rest.contains(x) {
                let i = choose|i: int|
                    0 <= i < m && (#[trigger] v[i]) == x && forall|j: int|
                        0 <= j < i ==> (#[trigger] v[j]).1 != x.1;
                assert(v[i] == x);
            } else {
                lemma_contains_push(rest, v[n - 1], x);
                assert(v[n - 1] == x);
                assert forall|j: int| 0 <= j < n - 1 implies (#[trigger] v[j]).1 != x.1 by {}
            }
        }
        if crate::repo_map::has_label(q, s) && !crate::repo_map::has_label(rest, s) {
            let i = choose|i: int| 0 <= i < q.len() && (#[trigger] q[i]).1 == s;
            if i < rest.len() {
                assert(rest[i] == q[i]);
            }
            assert(v[n - 1].1 == s);
        }
        if crate::repo_map::has_label(rest, s) {
            let i = choose|i: int| 0 <= i < rest.len() && (#[trigger] rest[i]).1 == s;
            assert(q[i] == rest[i]);
        }
        if v[n - 1].1 == s && !crate::repo_map::has_label(rest, s) {
            assert(q[rest.len() as int].1 == s);
        }
    }
}

/// A source that was parsed lists a label exactly where one of its nodes declares it,
/// and it lists it once, for the first of them.
pub proof fn law_symbols_are_the_declarations(lang: Lang, raw: Seq<char>, s: Seq<char>)
    requires
        lang.grammar() is Some,
        syntax_nodes(lang.grammar()->Some_0, lang.prepared(raw)) is Some,
    ensures
        ({
            let src = lang.prepared(raw);
            let ns = syntax_nodes(lang.grammar()->Some_0, src)->Some_0;
            labels_of(symbols_in(lang, raw)).contains(s) <==> exists|i: int|
                0 <= i < ns.len() && #[trigger] symbol_at(lang, ns, i, src) == Some(s)
        }),
{
    let src = lang.prepared(raw);
    let ns = syntax_nodes(lang.grammar()->Some_0, src)->Some_0;
    let found = found_upto(lang, ns, src, ns.len());
    let sorted = by_start(found);
    let v = symbols_in(lang, raw);
    assert(v == first_of_each(sorted, sorted.len()));
    assert(positioned(start_keys(found)));
    lemma_arranged_items(found, start_keys(found));
    lemma_first_has(sorted, sorted.len(), s);
    let ls = labels_of(v);
    if ls.contains(s) {
        let i = choose|i: int| 0 <= i < ls.len() && ls[i] == s;
        assert(v[i].1 == s);
        let k = choose|k: int| 0 <= k < sorted.len() && (#[trigger] sorted[k]).1 == s;
        assert(sorted.contains(sorted[k]));
        law_declarations_are_found(lang, ns, src, ns.len(), sorted[k]);
    }
    if exists|i: int| 0 <= i < ns.len() && #[trigger] symbol_at(lang, ns, i, src) == Some(s) {
        let i = choose|i: int|
            0 <= i < ns.len() && #[trigger] symbol_at(lang, ns, i, src) == Some(s);
        let x = (ns[i].start, s);
        law_declarations_are_found(lang, ns, src, ns.len(), x);
        assert(sorted.contains(x));
        let k = choose|k: int| 0 <= k < sorted.len() && sorted[k] == x;
        assert(sorted[k].1 == s);
        let j = choose|j: int| 0 <= j < v.len() && (#[trigger] v[j]).1 == s;
        assert(ls[j] == s);
    }
}

/// A node adds its label where the file declares it; in TypeScript a name that is
/// bound to a function in a declaration of the file is added too.
pub proof fn law_what_a_node_adds(lang: Lang, ns: Seq<SyntaxView>, i: int, src: Seq<char>)
    ensures
        declared(lang, ns, i) ==> symbol_at(lang, ns, i, src) == label(lang, ns, i, src),
        !declared(lang, ns, i) && symbol_at(lang, ns, i, src) is Some ==> (lang == Lang::Ts || lang
            == Lang::Tsx || lang == Lang::Svelte) && ns[i].kind == "variable_declarator"@
            && crate::symbol_refs::binds_function(ns, i),
        (lang == Lang::Ts || lang == Lang::Tsx || lang == Lang::Svelte) && !declared(lang, ns, i)
            && ns[i].kind == "variable_declarator"@ && crate::symbol_refs::binds_function(ns, i)
            && (parent(ns, i) matches Some(p) && (ns[p].kind == "lexical_declaration"@
            || ns[p].kind == "variable_declaration"@) && declared(lang, ns, p)) ==> match child_text(
            ns,
            i,
            NAME,
            src,
        ) {
            Some(n) => symbol_at(lang, ns, i, src) == Some("const "@ + n + "()"@),
            None => symbol_at(lang, ns, i, src) is None,
        },
{
}

// ---------------------------------------------------------------------------
// Daslang

/// The leading identifier of a text is as long as it can be.
pub proof fn law_identifier_is_longest(s: Seq<char>)
    ensures
        ({
            let n = leading_ident(s).len() as int;
            &&& starts(s, leading_ident(s))
            &&& forall|i: int| 0 <= i < n ==> identifies(#[trigger] s[i])
            &&& n < s.len() ==> !identifies(s[n])
        }),
{
    lemma_ident_end(s, 0);
    assert(s.take(leading_ident(s).len() as int) =~= leading_ident(s));
}

/// What an identifier is written with.
pub open spec fn identifies(c: char) -> bool {
    c == '_' || ('0' <= c && c <= '9') || ('A' <= c && c <= 'Z') || ('a' <= c && c <= 'z')
}

proof fn lemma_ident_end(s: Seq<char>, i: int)
    requires
        0 <= i <= s.len(),
    ensures
        i <= ident_end(s, i) <= s.len(),
        forall|k: int| i <= k < ident_end(s, i) ==> identifies(#[trigger] s[k]),
        ident_end(s, i) < s.len() ==> !identifies(s[ident_end(s, i)]),
    decreases s.len() - i,
{
    if i < s.len() && ident_char(s[i]) {
        lemma_ident_end(s, i + 1);
    }
}

/// A line of Daslang that is not indented: the keyword, white space, and the rest.
pub open spec fn das_line(line: Seq<char>, kw: Seq<char>) -> bool {
    starts(line, kw) && line.len() > kw.len() && (line[kw.len() as int] == ' ' || line[kw.len() as int]
        == '\t')
}

/// The name behind a keyword.
pub open spec fn das_name(line: Seq<char>, kw: Seq<char>) -> Seq<char> {
    leading_ident(trimmed_start(line.skip(kw.len() as int)))
}

proof fn lemma_kw(line: Seq<char>, kw: Seq<char>)
    ensures
        after_kw(line, kw) is Some <==> das_line(line, kw),
        after_kw(line, kw) matches Some(r) ==> r == trimmed_start(line.skip(kw.len() as int)),
{
}

/// What a line of Daslang declares: a function is shown as it stands, what else has
/// a name by its keyword and name, and every other line declares nothing.
pub proof fn law_daslang_labels(line: Seq<char>)
    ensures
        das_line(line, "def"@) ==> das_label(line) == Some(squeezed(line, 110)),
        das_line(line, "struct"@) ==> das_label(line) == Some("struct "@ + das_name(line, "struct"@)),
        das_line(line, "class"@) ==> das_label(line) == Some("class "@ + das_name(line, "class"@)),
        das_line(line, "enum"@) ==> das_label(line) == Some("enum "@ + das_name(line, "enum"@)),
        das_line(line, "variant"@) ==> das_label(line) == Some(
            "variant "@ + das_name(line, "variant"@),
        ),
        das_label(line) is Some ==> das_line(line, "def"@) || das_line(line, "struct"@)
            || das_line(line, "class"@) || das_line(line, "enum"@) || das_line(line, "variant"@),
{
    lemma_kw(line, "def"@);
    lemma_kw(line, "struct"@);
    lemma_kw(line, "class"@);
    lemma_kw(line, "enum"@);
    lemma_kw(line, "variant"@);
    reveal_strlit("def");
    reveal_strlit("struct");
    reveal_strlit("class");
    reveal_strlit("enum");
    reveal_strlit("variant");
    assert("def"@.len() == 3 && "def"@[0] == 'd');
    assert("struct"@.len() == 6 && "struct"@[0] == 's');
    assert("class"@.len() == 5 && "class"@[0] == 'c');
    assert("enum"@.len() == 4 && "enum"@[0] == 'e');
    assert("variant"@.len() == 7 && "variant"@[0] == 'v');
    assert(starts(line, "def"@) ==> line[0] == 'd') by {
        assert(starts(line, "def"@) ==> line.take(3)[0] == line[0]);
    }
    assert(starts(line, "struct"@) ==> line[0] == 's') by {
        assert(starts(line, "struct"@) ==> line.take(6)[0] == line[0]);
    }
    assert(starts(line, "class"@) ==> line[0] == 'c') by {
        assert(starts(line, "class"@) ==> line.take(5)[0] == line[0]);
    }
    assert(starts(line, "enum"@) ==> line[0] == 'e') by {
        assert(starts(line, "enum"@) ==> line.take(4)[0] == line[0]);
    }
    assert(starts(line, "variant"@) ==> line[0] == 'v') by {
        assert(starts(line, "variant"@) ==> line.take(7)[0] == line[0]);
    }
}

// ---------------------------------------------------------------------------
// The map

/// The rows of the symbols of a file, as far as they are shown.
pub open spec fn rows_of(symbols: Seq<Seq<char>>, n: nat) -> Seq<Seq<char>> {
    Seq::new(n, |i: int| "  "@ + symbols[i] + "\n"@)
}

proof fn lemma_rows(symbols: Seq<Seq<char>>, n: nat)
    requires
        n <= symbols.len(),
    ensures
        symbol_rows(symbols, n) == flat(rows_of(symbols, n)),
    decreases n,
{
    reveal_strlit("");
    if n > 0 {
        let m = (n - 1) as nat;
        lemma_rows(symbols, m);
        let row = "  "@ + symbols[n - 1] + "\n"@;
        lemma_flat_push(rows_of(symbols, m), row);
        assert(rows_of(symbols, n) =~= rows_of(symbols, m).push(row));
        assert(symbol_rows(symbols, m) + "  "@ + symbols[n - 1] + "\n"@ =~= symbol_rows(symbols, m)
            + row);
    } else {
        assert(rows_of(symbols, 0) =~= Seq::<Seq<char>>::empty());
    }
}

/// A file is shown by its name and its symbols, one to a row; of a file with more
/// than forty the first forty are shown, and how many are left.
pub proof fn law_block_shows_the_file(f: FileView)
    ensures
        f.symbols.len() <= 40 ==> block_of(f) == "\n"@ + f.rel + "\n"@ + flat(
            rows_of(f.symbols, f.symbols.len()),
        ),
        f.symbols.len() > 40 ==> block_of(f) == "\n"@ + f.rel + "\n"@ + flat(
            rows_of(f.symbols, 40),
        ) + "  … (+"@ + dec((f.symbols.len() - 40) as nat) + " more)\n"@,
{
    if f.symbols.len() <= 40 {
        lemma_rows(f.symbols, f.symbols.len());
    } else {
        lemma_rows(f.symbols, 40);
    }
}

/// Whether a file has something to show on a map.
pub open spec fn mapped(pattern: Option<Seq<char>>) -> spec_fn(FileView) -> bool {
    |f: FileView|
        f.symbols.len() > 0 && (pattern matches Some(p) ==> holds(lowercase(f.rel), lowercase(p)))
}

/// The blocks of files.
pub open spec fn blocks(shown: Seq<FileView>) -> Seq<Seq<char>> {
    Seq::new(shown.len(), |i: int| block_of(shown[i]))
}

/// The bytes of the files that are asked for.
pub open spec fn bytes_of(fs: Seq<FileView>, pattern: Option<Seq<char>>) -> nat
    decreases fs.len(),
{
    if fs.len() == 0 {
        0
    } else {
        let f = fs.last();
        bytes_of(fs.drop_last(), pattern) + if pattern matches Some(p) && !holds(
            lowercase(f.rel),
            lowercase(p),
        ) {
            0
        } else {
            f.bytes as nat
        }
    }
}

/// What stands on a map: `shown` in order, all of them files with something to show,
/// the first such file among them.
pub open spec fn stands_on_map(
    fs: Seq<FileView>,
    pattern: Option<Seq<char>>,
    budget: nat,
    n: nat,
    shown: Seq<FileView>,
) -> bool {
    let s = map_upto(fs, pattern, budget, n);
    let can = fs.take(n as int).filter(mapped(pattern));
    &&& s.body == flat(blocks(shown))
    &&& s.files == shown.len()
    &&& s.files + s.skipped == can.len()
    &&& s.scanned == bytes_of(fs.take(n as int), pattern)
    &&& can.len() > 0 ==> shown.len() > 0 && shown[0] == can[0]
    &&& forall|i: int| 0 <= i < shown.len() ==> can.contains(#[trigger] shown[i])
    &&& s.skipped == 0 ==> shown == can
}

/// A map shows files with something to show, in order and each with its block; what
/// is not shown for want of room is counted, and what is shown is counted too.
pub proof fn law_map_shows_the_files(
    fs: Seq<FileView>,
    pattern: Option<Seq<char>>,
    budget: nat,
    n: nat,
) -> (shown: Seq<FileView>)
    requires
        n <= fs.len(),
    ensures
        stands_on_map(fs, pattern, budget, n, shown),
    decreases n,
{
    let f = mapped(pattern);
    if n == 0 {
        reveal(Seq::filter);
        reveal_strlit("");
        let none = Seq::<FileView>::empty();
        assert(fs.take(0) =~= none);
        assert(none.filter(f) =~= none);
        assert(blocks(none) =~= Seq::<Seq<char>>::empty());
        assert(""@ =~= Seq::<char>::empty());
        none
    } else {
        let m = (n - 1) as nat;
        let shown = law_map_shows_the_files(fs, pattern, budget, m);
        let x = fs[n - 1];
        assert(fs.take(n as int) =~= fs.take(m as int).push(x));
        assert(fs.take(n as int).drop_last() =~= fs.take(m as int));
        fs.take(m as int).lemma_filter_push(x, f);
        let can = fs.take(m as int).filter(f);
        let all = fs.take(n as int).filter(f);
        let s = map_upto(fs, pattern, budget, m);
        if f(x) {
            assert(all == can.push(x));
            assert forall|y: FileView| can.contains(y) implies all.contains(y) by {
                lemma_contains_push(can, x, y);
            }
            lemma_contains_push(can, x, x);
            if s.used + crate::text::blen(block_of(x)) / 4 > budget && s.files > 0 {
                shown
            } else {
                let more = shown.push(x);
                lemma_flat_push(blocks(shown), block_of(x));
                assert(blocks(more) =~= blocks(shown).push(block_of(x)));
                more
            }
        } else {
            assert(all == can);
            shown
        }
    }
}

/// A map says how many files it shows, and how many it leaves out for want of room;
/// without a file to show it says so.
pub proof fn law_map_counts_its_files(
    fs: Seq<FileView>,
    args: crate::json::Json,
    paths: Seq<Seq<char>>,
)
    ensures
        ({
            let pattern = crate::json::as_str(crate::json::get(args, "pattern"@));
            let budget = crate::json::u64_or(args, "token_budget"@, 8000) as nat;
            let s = map_upto(fs, pattern, budget, fs.len());
            let can = fs.filter(mapped(pattern));
            let text = map_of(fs, args, paths).text;
            &&& can.len() == 0 ==> text == "repo_map: no source symbols found under "@ + listed(
                paths,
            )
            &&& can.len() > 0 && s.skipped == 0 ==> text == "repo_map - "@ + dec(can.len())
                + " file(s), ~"@ + dec(s.used) + " tokens"@ + "\nroots: "@ + listed(paths) + "\n"@
                + flat(blocks(can))
            &&& can.len() > 0 && s.skipped > 0 ==> starts(
                text,
                "repo_map - "@ + dec((can.len() - s.skipped) as nat) + " file(s), ~"@ + dec(s.used)
                    + " tokens"@ + (" (truncated by token_budget; +"@ + dec(s.skipped)
                    + " file(s) omitted - narrow paths or raise token_budget)"@),
            )
        }),
{
    let pattern = crate::json::as_str(crate::json::get(args, "pattern"@));
    let budget = crate::json::u64_or(args, "token_budget"@, 8000) as nat;
    let shown = law_map_shows_the_files(fs, pattern, budget, fs.len());
    assert(fs.take(fs.len() as int) =~= fs);
    let s = map_upto(fs, pattern, budget, fs.len());
    let text = map_of(fs, args, paths).text;
    reveal_strlit("");
    let head = "repo_map - "@ + dec(s.files) + " file(s), ~"@ + dec(s.used) + " tokens"@;
    if s.files > 0 && s.skipped == 0 {
        assert(head + ""@ =~= head);
    }
    if s.files > 0 && s.skipped > 0 {
        let note = " (truncated by token_budget; +"@ + dec(s.skipped)
            + " file(s) omitted - narrow paths or raise token_budget)"@;
        assert(text =~= (head + note) + ("\nroots: "@ + listed(paths) + "\n"@ + s.body));
        crate::laws::texts::lemma_starts_add(
            text,
            head + note,
            "\nroots: "@ + listed(paths) + "\n"@ + s.body,
        );
    }
}

} // verus!

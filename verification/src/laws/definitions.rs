//! Which nodes define something, where a definition is found, and what is told of it.
use vstd::prelude::*;
use crate::lang::Lang;
use crate::laws::lists::lemma_contains_push;
use crate::laws::roles::{lemma_above_is_found, lies_under};
use crate::symbol_def::{
    anchor, briefs_upto, child_text, cleaned, comment_run, comment_text, def_at, def_from, doc_of,
    exported, has_visible, located, located_from, names_agree, run_doc, segment, signature,
    spans_upto, within, BriefView, DefKind, FileTextView, InfoView, SpanView,
};
use crate::symbol_refs::binds_function;
use crate::syntax::{
    between, child, node_text, parent, previous, source_nodes, SyntaxView, BODY, NAME, VALUE,
};
use crate::text::{
    blen, holds, is_char, lemma_trim_end_at, lemma_trim_start_at, squeezed, starts, stripped_end,
    stripped_start, trimmed, trimmed_end_of, white,
};

verus! {

// ---------------------------------------------------------------------------
// What defines something

/// Whether a node defines its name as something of a kind; without a name it defines
/// nothing.
pub open spec fn defines(
    lang: Lang,
    ns: Seq<SyntaxView>,
    i: int,
    src: Seq<char>,
    kind: DefKind,
) -> bool {
    match child_text(ns, i, NAME, src) {
        Some(name) => def_at(lang, ns, i, src) == Some((name, kind)),
        None => def_at(lang, ns, i, src) is None,
    }
}

/// What defines something in Rust.
pub proof fn law_rust_definitions(lang: Lang, ns: Seq<SyntaxView>, i: int, src: Seq<char>)
    requires
        lang == Lang::Rust,
    ensures
        ({
            let k = ns[i].kind;
            &&& (k == "function_item"@ || k == "function_signature_item"@) ==> defines(lang, ns, i, src, DefKind::Function)
            &&& (k == "struct_item"@ || k == "enum_item"@ || k == "union_item"@) ==> defines(lang, ns, i, src, DefKind::Record)
            &&& (k == "trait_item"@ || k == "type_item"@) ==> defines(lang, ns, i, src, DefKind::Other)
            &&& def_at(lang, ns, i, src) is Some ==> k == "function_item"@ || k == "function_signature_item"@ || k == "struct_item"@ || k == "enum_item"@ || k == "union_item"@ || k == "trait_item"@ || k == "type_item"@
        }),
{
    reveal_strlit("function_item");
    reveal_strlit("function_signature_item");
    reveal_strlit("struct_item");
    reveal_strlit("enum_item");
    reveal_strlit("union_item");
    reveal_strlit("trait_item");
    reveal_strlit("type_item");
    assert("function_item"@.len() == 13);
    assert("function_signature_item"@.len() == 23);
    assert("struct_item"@.len() == 11);
    assert("enum_item"@.len() == 9);
    assert("union_item"@.len() == 10);
    assert("trait_item"@.len() == 10);
    assert("type_item"@.len() == 9);
    assert("enum_item"@[0] == 'e');
    assert("union_item"@[0] == 'u');
    assert("trait_item"@[0] == 't');
    assert("type_item"@[0] == 't');
}

/// What defines something in Python.
pub proof fn law_python_definitions(lang: Lang, ns: Seq<SyntaxView>, i: int, src: Seq<char>)
    requires
        lang == Lang::Python,
    ensures
        ({
            let k = ns[i].kind;
            &&& (k == "function_definition"@) ==> defines(lang, ns, i, src, DefKind::Function)
            &&& (k == "class_definition"@) ==> defines(lang, ns, i, src, DefKind::Record)
            &&& def_at(lang, ns, i, src) is Some ==> k == "function_definition"@ || k == "class_definition"@
        }),
{
    reveal_strlit("function_definition");
    reveal_strlit("class_definition");
    assert("function_definition"@.len() == 19);
    assert("class_definition"@.len() == 16);
}

/// What defines something in C#.
pub proof fn law_csharp_definitions(lang: Lang, ns: Seq<SyntaxView>, i: int, src: Seq<char>)
    requires
        lang == Lang::CSharp,
    ensures
        ({
            let k = ns[i].kind;
            &&& (k == "method_declaration"@ || k == "constructor_declaration"@ || k == "destructor_declaration"@) ==> defines(lang, ns, i, src, DefKind::Function)
            &&& (k == "class_declaration"@ || k == "struct_declaration"@ || k == "interface_declaration"@ || k == "enum_declaration"@ || k == "record_declaration"@ || k == "record_struct_declaration"@) ==> defines(lang, ns, i, src, DefKind::Record)
            &&& (k == "property_declaration"@ || k == "delegate_declaration"@) ==> defines(lang, ns, i, src, DefKind::Other)
            &&& def_at(lang, ns, i, src) is Some ==> k == "method_declaration"@ || k == "constructor_declaration"@ || k == "destructor_declaration"@ || k == "class_declaration"@ || k == "struct_declaration"@ || k == "interface_declaration"@ || k == "enum_declaration"@ || k == "record_declaration"@ || k == "record_struct_declaration"@ || k == "property_declaration"@ || k == "delegate_declaration"@
        }),
{
    reveal_strlit("method_declaration");
    reveal_strlit("constructor_declaration");
    reveal_strlit("destructor_declaration");
    reveal_strlit("class_declaration");
    reveal_strlit("struct_declaration");
    reveal_strlit("interface_declaration");
    reveal_strlit("enum_declaration");
    reveal_strlit("record_declaration");
    reveal_strlit("record_struct_declaration");
    reveal_strlit("property_declaration");
    reveal_strlit("delegate_declaration");
    assert("method_declaration"@.len() == 18);
    assert("constructor_declaration"@.len() == 23);
    assert("destructor_declaration"@.len() == 22);
    assert("class_declaration"@.len() == 17);
    assert("struct_declaration"@.len() == 18);
    assert("interface_declaration"@.len() == 21);
    assert("enum_declaration"@.len() == 16);
    assert("record_declaration"@.len() == 18);
    assert("record_struct_declaration"@.len() == 25);
    assert("property_declaration"@.len() == 20);
    assert("delegate_declaration"@.len() == 20);
    assert("method_declaration"@[0] == 'm');
    assert("struct_declaration"@[0] == 's');
    assert("record_declaration"@[0] == 'r');
    assert("property_declaration"@[0] == 'p');
    assert("delegate_declaration"@[0] == 'd');
}

/// What defines something in TypeScript.
pub proof fn law_typescript_definitions(lang: Lang, ns: Seq<SyntaxView>, i: int, src: Seq<char>)
    requires
        lang == Lang::Ts || lang == Lang::Tsx || lang == Lang::Svelte,
    ensures
        ({
            let k = ns[i].kind;
            &&& (k == "function_declaration"@ || k == "generator_function_declaration"@ || k == "method_definition"@) ==> defines(lang, ns, i, src, DefKind::Function)
            &&& (k == "class_declaration"@ || k == "abstract_class_declaration"@ || k == "interface_declaration"@ || k == "enum_declaration"@) ==> defines(lang, ns, i, src, DefKind::Record)
            &&& (k == "type_alias_declaration"@) ==> defines(lang, ns, i, src, DefKind::Other)
            &&& (k == "variable_declarator"@ && binds_function(ns, i)) ==> defines(lang, ns, i, src, DefKind::Function)
            &&& def_at(lang, ns, i, src) is Some ==> k == "function_declaration"@ || k == "generator_function_declaration"@ || k == "method_definition"@ || k == "class_declaration"@ || k == "abstract_class_declaration"@ || k == "interface_declaration"@ || k == "enum_declaration"@ || k == "type_alias_declaration"@ || (k == "variable_declarator"@ && binds_function(ns, i))
        }),
{
    reveal_strlit("function_declaration");
    reveal_strlit("generator_function_declaration");
    reveal_strlit("method_definition");
    reveal_strlit("class_declaration");
    reveal_strlit("abstract_class_declaration");
    reveal_strlit("interface_declaration");
    reveal_strlit("enum_declaration");
    reveal_strlit("type_alias_declaration");
    reveal_strlit("variable_declarator");
    assert("function_declaration"@.len() == 20);
    assert("generator_function_declaration"@.len() == 30);
    assert("method_definition"@.len() == 17);
    assert("class_declaration"@.len() == 17);
    assert("abstract_class_declaration"@.len() == 26);
    assert("interface_declaration"@.len() == 21);
    assert("enum_declaration"@.len() == 16);
    assert("type_alias_declaration"@.len() == 22);
    assert("variable_declarator"@.len() == 19);
    assert("method_definition"@[0] == 'm');
    assert("class_declaration"@[0] == 'c');
}

/// What defines something in C and C++: a function by the name in its declarator, a
/// record where it has a body, and an enumeration.
pub proof fn law_cpp_definitions(lang: Lang, ns: Seq<SyntaxView>, i: int, src: Seq<char>)
    requires
        lang == Lang::Cpp || lang == Lang::Glsl,
    ensures
        ({
            let k = ns[i].kind;
            let record = k == "struct_specifier"@ || k == "class_specifier"@ || k
                == "union_specifier"@;
            &&& k == "function_definition"@ ==> match crate::symbol_def::cpp_function_name(
                ns,
                i,
                src,
            ) {
                Some(name) => def_at(lang, ns, i, src) == Some((name, DefKind::Function)),
                None => def_at(lang, ns, i, src) is None,
            }
            &&& record && child(ns, i, BODY) is Some ==> defines(lang, ns, i, src, DefKind::Record)
            &&& record && child(ns, i, BODY) is None ==> def_at(lang, ns, i, src) is None
            &&& k == "enum_specifier"@ ==> defines(lang, ns, i, src, DefKind::Record)
            &&& def_at(lang, ns, i, src) is Some ==> record || k == "function_definition"@ || k
                == "enum_specifier"@
        }),
{
    reveal_strlit("function_definition");
    reveal_strlit("struct_specifier");
    reveal_strlit("class_specifier");
    reveal_strlit("union_specifier");
    reveal_strlit("enum_specifier");
    assert("function_definition"@.len() == 19);
    assert("struct_specifier"@.len() == 16);
    assert("class_specifier"@.len() == 15);
    assert("union_specifier"@.len() == 15);
    assert("enum_specifier"@.len() == 14);
    assert("class_specifier"@[0] == 'c');
    assert("union_specifier"@[0] == 'u');
}

// ---------------------------------------------------------------------------
// Where a definition is found

/// A definition is found in a source that holds the name: the first that agrees with
/// it, by the whole name or the last segment. What is told of it is its place, name and
/// kind, its signature and comment, and its text where that is wanted.
pub proof fn law_first_agreeing_definition(
    lang: Lang,
    ns: Seq<SyntaxView>,
    src: Seq<char>,
    rel: Seq<char>,
    symbol: Seq<char>,
    want_body: bool,
    i: int,
)
    requires
        0 <= i < ns.len(),
        def_at(lang, ns, i, src) is Some,
        def_at(lang, ns, i, src)->Some_0.0 == symbol || segment(
            def_at(lang, ns, i, src)->Some_0.0,
        ) == segment(symbol),
        forall|j: int|
            0 <= j < i && (#[trigger] def_at(lang, ns, j, src)) is Some ==> def_at(
                lang,
                ns,
                j,
                src,
            )->Some_0.0 != symbol && segment(def_at(lang, ns, j, src)->Some_0.0) != segment(symbol),
    ensures
        !holds(src, symbol) ==> located(lang, ns, src, rel, symbol, want_body) is None,
        holds(src, symbol) ==> (located(lang, ns, src, rel, symbol, want_body) matches Some(d) && {
            &&& d.rel == rel
            &&& d.line == ns[i].row + 1
            &&& d.end_line == ns[i].end_row + 1
            &&& d.name == def_at(lang, ns, i, src)->Some_0.0
            &&& d.kind == def_at(lang, ns, i, src)->Some_0.1
            &&& d.signature == signature(ns, i, src)
            &&& d.doc == doc_of(lang, ns, i, src)
            &&& want_body ==> d.body == node_text(ns[i], src)
            &&& !want_body ==> d.body.len() == 0
        }),
{
    lemma_def_from(lang, ns, src, symbol, 0, i);
    reveal_strlit("");
}

proof fn lemma_def_from(
    lang: Lang,
    ns: Seq<SyntaxView>,
    src: Seq<char>,
    symbol: Seq<char>,
    k: int,
    i: int,
)
    requires
        0 <= k <= i < ns.len(),
        def_at(lang, ns, i, src) is Some,
        names_agree(def_at(lang, ns, i, src)->Some_0.0, symbol),
        forall|j: int|
            k <= j < i && (#[trigger] def_at(lang, ns, j, src)) is Some ==> !names_agree(
                def_at(lang, ns, j, src)->Some_0.0,
                symbol,
            ),
    ensures
        def_from(lang, ns, src, symbol, k) == Some(i),
    decreases i - k,
{
    if k < i {
        lemma_def_from(lang, ns, src, symbol, k + 1, i);
    }
}

/// Where no definition of a source agrees with a name, none is found.
pub proof fn law_no_agreeing_definition(
    lang: Lang,
    ns: Seq<SyntaxView>,
    src: Seq<char>,
    rel: Seq<char>,
    symbol: Seq<char>,
    want_body: bool,
)
    requires
        forall|j: int|
            0 <= j < ns.len() && (#[trigger] def_at(lang, ns, j, src)) is Some ==> def_at(
                lang,
                ns,
                j,
                src,
            )->Some_0.0 != symbol && segment(def_at(lang, ns, j, src)->Some_0.0) != segment(symbol),
    ensures
        located(lang, ns, src, rel, symbol, want_body) is None,
{
    if let Some(k) = def_from(lang, ns, src, symbol, 0) {
        crate::symbol_def::law_found_definition_agrees(lang, ns, src, symbol, k);
        assert(def_at(lang, ns, k, src) is Some);
    }
}

/// Whether a file defines a name.
pub open spec fn file_defines(f: FileTextView, symbol: Seq<char>, want_body: bool) -> Option<
    InfoView,
> {
    match source_nodes(f.lang, f.text) {
        Some(ns) => located(f.lang, ns, f.lang.prepared(f.text), f.rel, symbol, want_body),
        None => None,
    }
}

/// What has been looked through once a file has been, too.
spec fn looked_through(f: FileTextView, scanned: nat) -> nat {
    match source_nodes(f.lang, f.text) {
        Some(_) => scanned + blen(f.lang.prepared(f.text)),
        None => scanned,
    }
}

proof fn lemma_file_step(
    fs: Seq<FileTextView>,
    symbol: Seq<char>,
    want_body: bool,
    scanned: nat,
    k: int,
)
    requires
        0 <= k < fs.len(),
    ensures
        file_defines(fs[k], symbol, want_body) is Some ==> located_from(
            fs,
            symbol,
            want_body,
            scanned,
            k,
        ) == (file_defines(fs[k], symbol, want_body), looked_through(fs[k], scanned)),
        file_defines(fs[k], symbol, want_body) is None ==> located_from(
            fs,
            symbol,
            want_body,
            scanned,
            k,
        ) == located_from(fs, symbol, want_body, looked_through(fs[k], scanned), k + 1),
{
}

/// The bytes of the sources among some files, as they are read.
pub open spec fn bytes_upto(fs: Seq<FileTextView>, n: nat) -> nat
    decreases n,
{
    if n == 0 {
        0
    } else {
        let f = fs[n - 1];
        bytes_upto(fs, (n - 1) as nat) + match source_nodes(f.lang, f.text) {
            Some(_) => blen(f.lang.prepared(f.text)),
            None => 0,
        }
    }
}

proof fn lemma_first_file(
    fs: Seq<FileTextView>,
    symbol: Seq<char>,
    want_body: bool,
    scanned: nat,
    k: nat,
) -> (i: int)
    requires
        k <= fs.len(),
        scanned == bytes_upto(fs, k),
    ensures
        ({
            let r = located_from(fs, symbol, want_body, scanned, k as int);
            &&& k <= i <= fs.len()
            &&& i < fs.len() ==> r.0 is Some && r.0 == file_defines(fs[i], symbol, want_body)
                && r.1 == bytes_upto(fs, (i + 1) as nat)
            &&& i == fs.len() ==> r.0 is None && r.1 == bytes_upto(fs, fs.len())
            &&& forall|j: int|
                k <= j < i ==> file_defines(#[trigger] fs[j], symbol, want_body) is None
        }),
    decreases fs.len() - k,
{
    if k >= fs.len() {
        k as int
    } else {
        lemma_file_step(fs, symbol, want_body, scanned, k as int);
        let more = looked_through(fs[k as int], scanned);
        assert(more == bytes_upto(fs, k + 1));
        if file_defines(fs[k as int], symbol, want_body) is Some {
            k as int
        } else {
            lemma_first_file(fs, symbol, want_body, more, k + 1)
        }
    }
}

/// Of several files the first that defines a name is taken, and the bytes of the sources
/// up to it are counted; without such a file there is no definition.
pub proof fn law_first_file_with_a_definition(
    fs: Seq<FileTextView>,
    symbol: Seq<char>,
    want_body: bool,
) -> (i: int)
    ensures
        ({
            let r = located_from(fs, symbol, want_body, 0, 0);
            &&& 0 <= i <= fs.len()
            &&& i < fs.len() ==> r.0 is Some && r.0 == file_defines(fs[i], symbol, want_body)
                && r.1 == bytes_upto(fs, (i + 1) as nat)
            &&& i == fs.len() ==> r.0 is None && r.1 == bytes_upto(fs, fs.len())
            &&& forall|j: int|
                0 <= j < i ==> file_defines(#[trigger] fs[j], symbol, want_body) is None
        }),
{
    lemma_first_file(fs, symbol, want_body, 0, 0)
}

// ---------------------------------------------------------------------------
// Lists of definitions

/// Whether node `i` defines a function that `x` tells of.
pub open spec fn tells_function(
    lang: Lang,
    ns: Seq<SyntaxView>,
    src: Seq<char>,
    i: int,
    x: SpanView,
) -> bool {
    &&& def_at(lang, ns, i, src) == Some((x.name, DefKind::Function))
    &&& x.start == ns[i].row + 1
    &&& x.end == ns[i].end_row + 1
    &&& x.signature == signature(ns, i, src)
}

/// The functions of a source, with their lines and signatures, and nothing else.
pub proof fn law_spans_are_the_functions(
    lang: Lang,
    ns: Seq<SyntaxView>,
    src: Seq<char>,
    n: nat,
    x: SpanView,
)
    requires
        n <= ns.len(),
    ensures
        spans_upto(lang, ns, src, n).contains(x) <==> exists|i: int|
            0 <= i < n && #[trigger] tells_function(lang, ns, src, i, x),
    decreases n,
{
    if n > 0 {
        let m = (n - 1) as nat;
        law_spans_are_the_functions(lang, ns, src, m, x);
        let rest = spans_upto(lang, ns, src, m);
        let all = spans_upto(lang, ns, src, n);
        if let Some((name, kind)) = def_at(lang, ns, n - 1, src) {
            let y = SpanView {
                name,
                start: ns[n - 1].row + 1,
                end: ns[n - 1].end_row + 1,
                signature: signature(ns, n - 1, src),
            };
            lemma_contains_push(rest, y, x);
            assert(kind == DefKind::Function ==> all == rest.push(y));
        }
        assert(all.contains(x) <==> rest.contains(x) || tells_function(lang, ns, src, n - 1, x));
        if rest.contains(x) {
            let i = choose|i: int| 0 <= i < m && #[trigger] tells_function(lang, ns, src, i, x);
            assert(0 <= i < n && tells_function(lang, ns, src, i, x));
        }
    }
}

/// Whether node `i` defines what `x` tells of.
pub open spec fn tells_definition(
    lang: Lang,
    ns: Seq<SyntaxView>,
    src: Seq<char>,
    i: int,
    x: BriefView,
) -> bool {
    &&& def_at(lang, ns, i, src) == Some((x.name, x.kind))
    &&& x.line == ns[i].row + 1
    &&& x.signature == signature(ns, i, src)
    &&& x.has_doc <==> doc_of(lang, ns, i, src).len() > 0
    &&& x.exported == exported(lang, ns, i, src)
}

/// The definitions of a source, each told with its line, its signature, whether it has
/// a comment and whether it is visible outside.
pub proof fn law_briefs_are_the_definitions(
    lang: Lang,
    ns: Seq<SyntaxView>,
    src: Seq<char>,
    n: nat,
    x: BriefView,
)
    requires
        n <= ns.len(),
    ensures
        briefs_upto(lang, ns, src, n).contains(x) <==> exists|i: int|
            0 <= i < n && #[trigger] tells_definition(lang, ns, src, i, x),
    decreases n,
{
    if n > 0 {
        let m = (n - 1) as nat;
        law_briefs_are_the_definitions(lang, ns, src, m, x);
        let rest = briefs_upto(lang, ns, src, m);
        let all = briefs_upto(lang, ns, src, n);
        if let Some((name, kind)) = def_at(lang, ns, n - 1, src) {
            let y = BriefView {
                name,
                kind,
                line: ns[n - 1].row + 1,
                signature: signature(ns, n - 1, src),
                has_doc: doc_of(lang, ns, n - 1, src).len() > 0,
                exported: exported(lang, ns, n - 1, src),
            };
            lemma_contains_push(rest, y, x);
            assert(all == rest.push(y));
        }
        assert(all.contains(x) <==> rest.contains(x) || tells_definition(lang, ns, src, n - 1, x));
        if rest.contains(x) {
            let i = choose|i: int| 0 <= i < m && #[trigger] tells_definition(lang, ns, src, i, x);
            assert(0 <= i < n && tells_definition(lang, ns, src, i, x));
        }
    }
}

/// A signature is what stands before the body, on one line, without the brace; the body
/// of what is bound to a name is that of the value.
pub proof fn law_signature_stands_before_the_body(ns: Seq<SyntaxView>, i: int, src: Seq<char>)
    ensures
        ({
            let stop = match (child(ns, i, BODY), child(ns, i, VALUE)) {
                (Some(b), _) => ns[b].start,
                (None, Some(v)) => match child(ns, v, BODY) {
                    Some(b) => ns[b].start,
                    None => ns[i].end,
                },
                (None, None) => ns[i].end,
            };
            signature(ns, i, src) == squeezed(
                trimmed(trimmed_end_of(trimmed(between(src, ns[i].start, stop)), '{')),
                200,
            )
        }),
{
}

// ---------------------------------------------------------------------------
// What is visible outside

/// Whether a node lies below another, at any depth.
pub open spec fn lies_below(ns: Seq<SyntaxView>, i: int, p: int) -> bool
    decreases i,
{
    exists|q: int|
        #[trigger] lies_under(ns, i, q) && 0 <= q < i && (q == p || lies_below(ns, q, p))
}

proof fn lemma_within(ns: Seq<SyntaxView>, i: int, kind: Seq<char>)
    requires
        0 <= i < ns.len(),
    ensures
        within(ns, i, kind) <==> exists|p: int|
            #[trigger] lies_below(ns, i, p) && ns[p].kind == kind,
    decreases i,
{
    match parent(ns, i) {
        Some(q) => {
            lemma_above_is_found(ns, i, q);
            if 0 <= q < i {
                lemma_within(ns, q, kind);
                if ns[q].kind == kind {
                    assert(lies_below(ns, i, q));
                }
                if within(ns, q, kind) {
                    let p = choose|p: int| #[trigger] lies_below(ns, q, p) && ns[p].kind == kind;
                    assert(lies_below(ns, i, p));
                }
            }
            assert forall|p: int| #[trigger] lies_below(ns, i, p) && ns[p].kind == kind implies within(
                ns,
                i,
                kind,
            ) by {
                let r = choose|r: int|
                    #[trigger] lies_under(ns, i, r) && 0 <= r < i && (r == p || lies_below(
                        ns,
                        r,
                        p,
                    ));
                lemma_above_is_found(ns, i, r);
            }
        },
        None => {
            assert forall|p: int| !#[trigger] lies_below(ns, i, p) by {
                if lies_below(ns, i, p) {
                    let r = choose|r: int|
                        #[trigger] lies_under(ns, i, r) && 0 <= r < i && (r == p || lies_below(
                            ns,
                            r,
                            p,
                        ));
                    lemma_above_is_found(ns, i, r);
                }
            }
        },
    }
}

/// In TypeScript a definition is visible outside where it lies in an export.
pub proof fn law_exports_are_visible(lang: Lang, ns: Seq<SyntaxView>, i: int, src: Seq<char>)
    requires
        0 <= i < ns.len(),
        lang == Lang::Ts || lang == Lang::Tsx || lang == Lang::Svelte,
    ensures
        exported(lang, ns, i, src) <==> exists|p: int|
            #[trigger] lies_below(ns, i, p) && ns[p].kind == "export_statement"@,
{
    lemma_within(ns, i, "export_statement"@);
}

/// A child of a node: one level deeper, with nothing in between that is no deeper than
/// the node.
pub open spec fn is_child(ns: Seq<SyntaxView>, i: int, c: int) -> bool {
    &&& i < c < ns.len()
    &&& ns[c].depth == ns[i].depth + 1
    &&& forall|j: int| i < j < c ==> (#[trigger] ns[j]).depth > ns[i].depth
}

/// Whether a child makes a definition of C# visible.
pub open spec fn makes_visible(ns: Seq<SyntaxView>, i: int, src: Seq<char>, c: int) -> bool {
    let word = trimmed(node_text(ns[c], src));
    is_child(ns, i, c) && ns[c].kind == "modifier"@ && (word == "public"@ || word == "protected"@
        || word == "internal"@)
}

proof fn lemma_visible(ns: Seq<SyntaxView>, i: int, src: Seq<char>, j: int)
    requires
        0 <= i < j,
        forall|k: int| i < k < j && k < ns.len() ==> (#[trigger] ns[k]).depth > ns[i].depth,
    ensures
        has_visible(ns, i, src, j) <==> exists|c: int|
            j <= c && #[trigger] makes_visible(ns, i, src, c),
    decreases ns.len() - j,
{
    if j < ns.len() && ns[j].depth > ns[i].depth {
        lemma_visible(ns, i, src, j + 1);
        if makes_visible(ns, i, src, j) {
            assert(j <= j);
        }
        if has_visible(ns, i, src, j) && !makes_visible(ns, i, src, j) {
            let c = choose|c: int| j + 1 <= c && #[trigger] makes_visible(ns, i, src, c);
            assert(makes_visible(ns, i, src, c));
        }
    } else {
        assert forall|c: int| j <= c implies !#[trigger] makes_visible(ns, i, src, c) by {
            if makes_visible(ns, i, src, c) && j < ns.len() {
                assert(ns[j].depth <= ns[i].depth);
                if j < c {
                    assert(ns[j].depth > ns[i].depth);
                }
            }
        }
    }
}

/// In C# a definition is visible outside where a modifier says so.
pub proof fn law_modifiers_make_visible(ns: Seq<SyntaxView>, i: int, src: Seq<char>)
    requires
        0 <= i < ns.len(),
    ensures
        exported(Lang::CSharp, ns, i, src) <==> exists|c: int|
            #[trigger] makes_visible(ns, i, src, c),
{
    lemma_visible(ns, i, src, i + 1);
    if exists|c: int| #[trigger] makes_visible(ns, i, src, c) {
        let c = choose|c: int| #[trigger] makes_visible(ns, i, src, c);
        assert(i + 1 <= c && makes_visible(ns, i, src, c));
    }
}

/// In Python a definition is visible outside at the top of its module, decorated or not;
/// in C and C++ none is.
pub proof fn law_top_is_visible(ns: Seq<SyntaxView>, i: int, src: Seq<char>)
    requires
        0 <= i < ns.len(),
    ensures
        exported(Lang::Python, ns, i, src) <==> exists|p: int|
            #[trigger] lies_under(ns, i, p) && (ns[p].kind == "module"@ || (ns[p].kind
                == "decorated_definition"@ && in_module(ns, p))),
        !exported(Lang::Cpp, ns, i, src),
        !exported(Lang::Glsl, ns, i, src),
{
    if let Some(p) = parent(ns, i) {
        lemma_above_is_found(ns, i, p);
        if let Some(g) = parent(ns, p) {
            if 0 <= p < ns.len() {
                lemma_above_is_found(ns, p, g);
            }
        }
    }
    assert forall|p: int| #[trigger] lies_under(ns, i, p) implies parent(ns, i) == Some(p) by {
        lemma_above_is_found(ns, i, p);
    }
    if let Some(p) = parent(ns, i) {
        assert forall|g: int| #[trigger] lies_under(ns, p, g) implies parent(ns, p) == Some(g) by {
            lemma_above_is_found(ns, p, g);
        }
    }
}

/// Whether a node lies right below a module.
pub open spec fn in_module(ns: Seq<SyntaxView>, p: int) -> bool {
    exists|g: int| #[trigger] lies_under(ns, p, g) && ns[g].kind == "module"@
}

// ---------------------------------------------------------------------------
// Comments

/// A text that a comment is written around: nothing to trim, and no sign of a comment at
/// its ends.
pub open spec fn plain_comment(t: Seq<char>) -> bool {
    &&& t.len() > 0
    &&& !white(t[0])
    &&& !white(t.last())
    &&& t[0] != '*'
    &&& t[0] != '#'
    &&& !crate::text::ends(t, "*/"@)
}

proof fn lemma_trimmed_of_spaced(t: Seq<char>)
    requires
        t.len() > 0,
        !white(t[0]),
        !white(t.last()),
    ensures
        trimmed(seq![' '] + t) == t,
        trimmed(t) == t,
{
    let p = |c: char| white(c);
    let s = seq![' '] + t;
    assert(white(' '));
    lemma_trim_start_at(s, p, 1);
    assert(s.skip(1) =~= t);
    lemma_trim_start_at(t, p, 0);
    assert(t.skip(0) =~= t);
    lemma_trim_end_at(t, p, t.len() as int);
    assert(t.take(t.len() as int) =~= t);
}

proof fn lemma_marked(mark: Seq<char>, t: Seq<char>)
    requires
        plain_comment(t),
        mark.len() > 0,
        !white(mark[0]),
    ensures
        trimmed(mark + (seq![' '] + t)) == mark + (seq![' '] + t),
        !crate::text::ends(seq![' '] + t, "*/"@),
{
    let p = |c: char| white(c);
    let s = mark + (seq![' '] + t);
    assert(s[0] == mark[0] && s.last() == t.last());
    lemma_trim_start_at(s, p, 0);
    assert(s.skip(0) =~= s);
    lemma_trim_end_at(s, p, s.len() as int);
    assert(s.take(s.len() as int) =~= s);
    reveal_strlit("*/");
    assert("*/"@.len() == 2 && "*/"@[0] == '*' && "*/"@[1] == '/');
    let u = seq![' '] + t;
    if crate::text::ends(u, "*/"@) {
        if t.len() >= 2 {
            assert(u.skip(u.len() - 2) =~= t.skip(t.len() - 2));
        } else {
            assert(u.skip(u.len() - 2)[0] == ' ');
        }
    }
}

proof fn lemma_strip_once(s: Seq<char>, mark: Seq<char>, u: Seq<char>)
    requires
        s == mark + u,
        mark.len() > 0,
        u.len() > 0,
        u[0] != mark[0],
    ensures
        stripped_start(s, mark) == u,
        !starts(u, mark),
        stripped_start(u, mark) == u,
{
    assert(starts(u, mark) ==> u.take(mark.len() as int)[0] == u[0]);
    assert(stripped_start(u, mark) == u);
    assert(s.take(mark.len() as int) =~= mark);
    assert(s.skip(mark.len() as int) =~= u);
}

proof fn lemma_no_strip(u: Seq<char>, mark: Seq<char>, k: int)
    requires
        0 <= k < mark.len(),
        k < u.len() ==> u[k] != mark[k],
    ensures
        stripped_start(u, mark) == u,
{
    assert(starts(u, mark) ==> u.take(mark.len() as int)[k] == u[k]);
}

/// The text of a comment is what stands behind its marks.
pub proof fn law_comment_text_is_behind_the_marks(t: Seq<char>)
    requires
        plain_comment(t),
    ensures
        comment_text("/// "@ + t, false) == t,
        comment_text("// "@ + t, false) == t,
        comment_text("//! "@ + t, false) == t,
        comment_text("/** "@ + t, false) == t,
        comment_text("/* "@ + t, false) == t,
        comment_text("* "@ + t, false) == t,
        comment_text("# "@ + t, true) == t,
{
    let u = seq![' '] + t;
    reveal_strlit("///");
    reveal_strlit("//");
    reveal_strlit("//!");
    reveal_strlit("/**");
    reveal_strlit("/*");
    reveal_strlit("*/");
    reveal_strlit("/// ");
    reveal_strlit("// ");
    reveal_strlit("//! ");
    reveal_strlit("/** ");
    reveal_strlit("/* ");
    reveal_strlit("* ");
    reveal_strlit("# ");
    assert("///"@ =~= seq!['/', '/', '/']);
    assert("//"@ =~= seq!['/', '/']);
    assert("//!"@ =~= seq!['/', '/', '!']);
    assert("/**"@ =~= seq!['/', '*', '*']);
    assert("/*"@ =~= seq!['/', '*']);
    assert("/// "@ + t =~= "///"@ + u);
    assert("// "@ + t =~= "//"@ + u);
    assert("//! "@ + t =~= "//!"@ + u);
    assert("/** "@ + t =~= "/**"@ + u);
    assert("/* "@ + t =~= "/*"@ + u);
    assert("* "@ + t =~= seq!['*'] + u);
    assert("# "@ + t =~= seq!['#'] + u);
    lemma_trimmed_of_spaced(t);
    lemma_marked("///"@, t);
    lemma_marked("//"@, t);
    lemma_marked("//!"@, t);
    lemma_marked("/**"@, t);
    lemma_marked("/*"@, t);
    lemma_marked(seq!['*'], t);
    lemma_marked(seq!['#'], t);
    lemma_strip_once("///"@ + u, "///"@, u);
    lemma_strip_once("//"@ + u, "//"@, u);
    lemma_strip_once("//!"@ + u, "//!"@, u);
    lemma_strip_once("/**"@ + u, "/**"@, u);
    lemma_strip_once("/*"@ + u, "/*"@, u);
    lemma_no_strip("//"@ + u, "///"@, 2);
    lemma_no_strip("//"@ + u, "//!"@, 2);
    lemma_no_strip("//!"@ + u, "///"@, 2);
    lemma_no_strip("/**"@ + u, "///"@, 1);
    lemma_no_strip("/**"@ + u, "//!"@, 1);
    lemma_no_strip("/**"@ + u, "//"@, 1);
    lemma_no_strip("/*"@ + u, "///"@, 1);
    lemma_no_strip("/*"@ + u, "//!"@, 1);
    lemma_no_strip("/*"@ + u, "//"@, 1);
    lemma_no_strip("/*"@ + u, "/**"@, 2);
    let star = seq!['*'] + u;
    lemma_no_strip(star, "///"@, 0);
    lemma_no_strip(star, "//!"@, 0);
    lemma_no_strip(star, "//"@, 0);
    lemma_no_strip(star, "/**"@, 0);
    lemma_no_strip(star, "/*"@, 0);
    assert(stripped_end(u, "*/"@) == u);
    lemma_star_end(u);
    lemma_trim_start_at(u, is_char('*'), 0);
    assert(u.skip(0) =~= u);
    lemma_trim_start_at(star, is_char('*'), 1);
    assert(star.skip(1) =~= u);
    let hash = seq!['#'] + u;
    lemma_trim_start_at(hash, is_char('#'), 1);
    assert(hash.skip(1) =~= u);
}

proof fn lemma_star_end(u: Seq<char>)
    requires
        u.len() > 0,
        u[0] == ' ',
        !crate::text::ends(u, "*/"@),
    ensures
        stripped_end(seq!['*'] + u, "*/"@) == seq!['*'] + u,
{
    reveal_strlit("*/");
    assert("*/"@.len() == 2 && "*/"@[0] == '*' && "*/"@[1] == '/');
    let s = seq!['*'] + u;
    if crate::text::ends(s, "*/"@) {
        if u.len() >= 2 {
            assert(s.skip(s.len() - 2) =~= u.skip(u.len() - 2));
        } else {
            assert(s.skip(s.len() - 2)[1] == ' ');
        }
    }
}

/// What documents a definition: the comments right above it, with at most one line
/// left free, the last of them last; what stands between makes them none of its own.
pub proof fn law_comment_above_documents(
    lang: Lang,
    ns: Seq<SyntaxView>,
    i: int,
    src: Seq<char>,
    c: int,
)
    requires
        lang != Lang::Python,
        0 <= c < ns.len(),
        previous(ns, anchor(lang, ns, i)) == Some(c),
        previous(ns, c) matches Some(p) ==> 0 <= p < c,
    ensures
        ({
            let k = ns[c].kind;
            let comment = k == "comment"@ || k == "line_comment"@ || k == "block_comment"@;
            let gap = ns[anchor(lang, ns, i)].row - ns[c].end_row;
            &&& comment && gap <= 2 ==> exists|rest: Seq<Seq<char>>|
                doc_of(lang, ns, i, src) == #[trigger] (rest + cleaned(node_text(ns[c], src)))
            &&& comment && gap > 2 ==> doc_of(lang, ns, i, src).len() == 0
            &&& !comment && !(lang == Lang::Rust && k == "attribute_item"@) ==> doc_of(
                lang,
                ns,
                i,
                src,
            ).len() == 0
        }),
{
    let a = anchor(lang, ns, i);
    let k = ns[c].kind;
    let comment = k == "comment"@ || k == "line_comment"@ || k == "block_comment"@;
    let run = comment_run(lang, ns, Some(c), ns[a].row, true);
    if comment && ns[a].row - ns[c].end_row <= 2 {
        let rest = comment_run(lang, ns, previous(ns, c), ns[c].row, false);
        assert(run == seq![c] + rest);
        assert(run.drop_first() =~= rest);
        assert(doc_of(lang, ns, i, src) == run_doc(ns, rest, src) + cleaned(
            node_text(ns[c], src),
        ));
    }
}

} // verus!

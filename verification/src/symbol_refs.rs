//! Where a symbol is defined, called, and otherwise referred to.
//!
//! Each occurrence of a name in a syntax tree is classified; comments and ordinary
//! strings do not count. The names that Flecs systems and Tracy zones are given
//! as strings are the exception: they count as definitions.
use vstd::prelude::*;
use crate::json::{as_str, get, str_or, string_or, u64_or, Datum, Json};
use crate::lang::Lang;
use crate::order::{key_views, sort, sort_order, Key, KeyView};
use crate::smap::{at, put, StrMap};
use crate::syntax::{
    child, child_of, is_part, kind_is, node_text, parent, parse_prepared, place, plays,
    source_nodes, text_of, Nodes, Source, SyntaxView, ARGUMENTS, ATTRIBUTE, DECLARATOR, FIELD,
    FUNCTION, MACRO, NAME, PROPERTY, VALUE,
};
use crate::text::{
    blen, copy, dec, decimal, is_blank, lines, lines_of, lowercase, same, size, squeeze, squeezed,
    starts, starts_with, strs, to_lower, trim, trimmed, trimmed_of, trim_of,
};

pub mod totals;

verus! {

#[derive(Clone, Copy, PartialEq, Eq, Debug, Structural)]
pub enum Role {
    Def,
    Call,
    Ref,
}

/// One classified occurrence of a name, on a line counted from one.
pub struct Occ {
    pub name: String,
    pub role: Role,
    pub line: u64,
}

/// The values of an [`Occ`].
pub struct OccView {
    pub name: Seq<char>,
    pub role: Role,
    pub line: nat,
}

impl View for Occ {
    type V = OccView;

    open spec fn view(&self) -> OccView {
        OccView { name: self.name@, role: self.role, line: self.line as nat }
    }
}

pub open spec fn occ_views(v: Seq<Occ>) -> Seq<OccView> {
    Seq::new(v.len(), |i: int| v[i]@)
}

// ---------------------------------------------------------------------------
// Classifying

/// Whether node `i` plays a part in a node of a kind.
pub open spec fn under(ns: Seq<SyntaxView>, i: int, kind: Seq<char>, part: usize) -> bool {
    match parent(ns, i) {
        Some(p) => ns[p].kind == kind && plays(ns[i], part),
        None => false,
    }
}

/// Whether node `i` plays a part in a node of a kind, which plays a part in a node
/// of another kind.
pub open spec fn under_two(
    ns: Seq<SyntaxView>,
    i: int,
    kind: Seq<char>,
    part: usize,
    outer: Seq<char>,
    outer_part: usize,
) -> bool {
    under(ns, i, kind, part) && under(ns, parent(ns, i)->Some_0, outer, outer_part)
}

fn is_under(t: &Nodes, i: usize, kind: &str, part: usize) -> (r: bool)
    requires
        t.wf(),
        i < t.nodes@.len(),
    ensures
        r == under(t@, i as int, kind@, part),
{
    match t.parent(i) {
        Some(p) => {
            assert(t@[p as int] == t.nodes@[p as int]@);
            assert(t@[i as int] == t.nodes@[i as int]@);
            kind_is(&t.nodes[p], kind) && is_part(&t.nodes[i], part)
        },
        None => false,
    }
}

fn is_under_two(
    t: &Nodes,
    i: usize,
    kind: &str,
    part: usize,
    outer: &str,
    outer_part: usize,
) -> (r: bool)
    requires
        t.wf(),
        i < t.nodes@.len(),
    ensures
        r == under_two(t@, i as int, kind@, part, outer@, outer_part),
{
    if !is_under(t, i, kind, part) {
        return false;
    }
    match t.parent(i) {
        Some(p) => is_under(t, p, outer, outer_part),
        None => false,
    }
}

/// The outermost node whose name node `i` is, through qualifiers and templates.
pub open spec fn cpp_top(ns: Seq<SyntaxView>, i: int) -> int
    decreases i,
{
    match parent(ns, i) {
        Some(p) => if 0 <= p < i && (under(ns, i, "qualified_identifier"@, NAME) || under(
            ns,
            i,
            "template_function"@,
            NAME,
        ) || under(ns, i, "template_type"@, NAME)) {
            cpp_top(ns, p)
        } else {
            i
        },
        None => i,
    }
}

/// The name of a class, structure, union or enumeration.
pub open spec fn cpp_type_name(ns: Seq<SyntaxView>, i: int) -> bool {
    ns[i].kind == "type_identifier"@ && (under(ns, i, "class_specifier"@, NAME) || under(
        ns,
        i,
        "struct_specifier"@,
        NAME,
    ) || under(ns, i, "union_specifier"@, NAME) || under(ns, i, "enum_specifier"@, NAME))
}

/// The role of a name in C, C++ or GLSL.
pub open spec fn cpp_role(ns: Seq<SyntaxView>, i: int) -> Role {
    if cpp_type_name(ns, i) {
        Role::Def
    } else if under_two(ns, i, "field_expression"@, FIELD, "call_expression"@, FUNCTION) {
        Role::Call
    } else {
        let t = cpp_top(ns, i);
        if under(ns, t, "function_declarator"@, DECLARATOR) {
            Role::Def
        } else if under(ns, t, "call_expression"@, FUNCTION) {
            Role::Call
        } else {
            Role::Ref
        }
    }
}

fn cpp_climb(t: &Nodes, i: usize) -> (r: usize)
    requires
        t.wf(),
        i < t.nodes@.len(),
    ensures
        r == cpp_top(t@, i as int),
        r < t.nodes@.len(),
{
    let mut n: usize = i;
    loop
        invariant
            t.wf(),
            n < t.nodes@.len(),
            cpp_top(t@, i as int) == cpp_top(t@, n as int),
        decreases n,
    {
        let wraps: bool = is_under(t, n, "qualified_identifier", NAME) || is_under(
            t,
            n,
            "template_function",
            NAME,
        ) || is_under(t, n, "template_type", NAME);
        match t.parent(n) {
            Some(p) => {
                if !wraps {
                    return n;
                }
                n = p;
            },
            None => {
                return n;
            },
        }
    }
}

pub fn classify(t: &Nodes, i: usize) -> (r: Role)
    requires
        t.wf(),
        i < t.nodes@.len(),
    ensures
        r == cpp_role(t@, i as int),
{
    assert(t@[i as int] == t.nodes@[i as int]@);
    if kind_is(&t.nodes[i], "type_identifier") && (is_under(t, i, "class_specifier", NAME)
        || is_under(t, i, "struct_specifier", NAME) || is_under(t, i, "union_specifier", NAME)
        || is_under(t, i, "enum_specifier", NAME)) {
        return Role::Def;
    }
    if is_under_two(t, i, "field_expression", FIELD, "call_expression", FUNCTION) {
        return Role::Call;
    }
    let top: usize = cpp_climb(t, i);
    if is_under(t, top, "function_declarator", DECLARATOR) {
        Role::Def
    } else if is_under(t, top, "call_expression", FUNCTION) {
        Role::Call
    } else {
        Role::Ref
    }
}

pub open spec fn rust_top(ns: Seq<SyntaxView>, i: int) -> int
    decreases i,
{
    match parent(ns, i) {
        Some(p) => if 0 <= p < i && (under(ns, i, "scoped_identifier"@, NAME) || under(
            ns,
            i,
            "generic_function"@,
            FUNCTION,
        )) {
            rust_top(ns, p)
        } else {
            i
        },
        None => i,
    }
}

/// The name of a Rust item.
pub open spec fn rust_item_name(ns: Seq<SyntaxView>, i: int) -> bool {
    ||| ns[i].kind == "type_identifier"@ && (under(ns, i, "struct_item"@, NAME) || under(
        ns,
        i,
        "enum_item"@,
        NAME,
    ) || under(ns, i, "union_item"@, NAME) || under(ns, i, "trait_item"@, NAME) || under(
        ns,
        i,
        "type_item"@,
        NAME,
    ))
    ||| ns[i].kind == "identifier"@ && (under(ns, i, "function_item"@, NAME) || under(
        ns,
        i,
        "const_item"@,
        NAME,
    ) || under(ns, i, "static_item"@, NAME))
}

/// The role of a name in Rust.
pub open spec fn rust_role(ns: Seq<SyntaxView>, i: int) -> Role {
    if rust_item_name(ns, i) {
        Role::Def
    } else if ns[i].kind == "field_identifier"@ && under_two(
        ns,
        i,
        "field_expression"@,
        FIELD,
        "call_expression"@,
        FUNCTION,
    ) {
        Role::Call
    } else {
        let t = rust_top(ns, i);
        if under(ns, t, "call_expression"@, FUNCTION) || under(ns, t, "macro_invocation"@, MACRO) {
            Role::Call
        } else {
            Role::Ref
        }
    }
}

fn rust_climb(t: &Nodes, i: usize) -> (r: usize)
    requires
        t.wf(),
        i < t.nodes@.len(),
    ensures
        r == rust_top(t@, i as int),
        r < t.nodes@.len(),
{
    let mut n: usize = i;
    loop
        invariant
            t.wf(),
            n < t.nodes@.len(),
            rust_top(t@, i as int) == rust_top(t@, n as int),
        decreases n,
    {
        let wraps: bool = is_under(t, n, "scoped_identifier", NAME) || is_under(
            t,
            n,
            "generic_function",
            FUNCTION,
        );
        match t.parent(n) {
            Some(p) => {
                if !wraps {
                    return n;
                }
                n = p;
            },
            None => {
                return n;
            },
        }
    }
}

pub fn classify_rust(t: &Nodes, i: usize) -> (r: Role)
    requires
        t.wf(),
        i < t.nodes@.len(),
    ensures
        r == rust_role(t@, i as int),
{
    assert(t@[i as int] == t.nodes@[i as int]@);
    if kind_is(&t.nodes[i], "type_identifier") && (is_under(t, i, "struct_item", NAME) || is_under(
        t,
        i,
        "enum_item",
        NAME,
    ) || is_under(t, i, "union_item", NAME) || is_under(t, i, "trait_item", NAME) || is_under(
        t,
        i,
        "type_item",
        NAME,
    )) {
        return Role::Def;
    }
    if kind_is(&t.nodes[i], "identifier") && (is_under(t, i, "function_item", NAME) || is_under(
        t,
        i,
        "const_item",
        NAME,
    ) || is_under(t, i, "static_item", NAME)) {
        return Role::Def;
    }
    if kind_is(&t.nodes[i], "field_identifier") && is_under_two(
        t,
        i,
        "field_expression",
        FIELD,
        "call_expression",
        FUNCTION,
    ) {
        return Role::Call;
    }
    let top: usize = rust_climb(t, i);
    if is_under(t, top, "call_expression", FUNCTION) || is_under(t, top, "macro_invocation", MACRO) {
        Role::Call
    } else {
        Role::Ref
    }
}

/// The role of a name in Python.
pub open spec fn python_role(ns: Seq<SyntaxView>, i: int) -> Role {
    if under(ns, i, "function_definition"@, NAME) || under(ns, i, "class_definition"@, NAME) {
        Role::Def
    } else if under(ns, i, "call"@, FUNCTION) || under_two(
        ns,
        i,
        "attribute"@,
        ATTRIBUTE,
        "call"@,
        FUNCTION,
    ) {
        Role::Call
    } else {
        Role::Ref
    }
}

pub fn classify_python(t: &Nodes, i: usize) -> (r: Role)
    requires
        t.wf(),
        i < t.nodes@.len(),
    ensures
        r == python_role(t@, i as int),
{
    if is_under(t, i, "function_definition", NAME) || is_under(t, i, "class_definition", NAME) {
        Role::Def
    } else if is_under(t, i, "call", FUNCTION) || is_under_two(
        t,
        i,
        "attribute",
        ATTRIBUTE,
        "call",
        FUNCTION,
    ) {
        Role::Call
    } else {
        Role::Ref
    }
}

/// Whether a value is a function.
pub open spec fn function_kind(k: Seq<char>) -> bool {
    k == "arrow_function"@ || k == "function"@ || k == "function_expression"@
}

/// Whether the value of node `i` is a function.
pub open spec fn binds_function(ns: Seq<SyntaxView>, i: int) -> bool {
    match child(ns, i, VALUE) {
        Some(v) => function_kind(ns[v].kind),
        None => false,
    }
}

pub fn is_function_binding(t: &Nodes, i: usize) -> (r: bool)
    requires
        t.wf(),
        i < t.nodes@.len(),
    ensures
        r == binds_function(t@, i as int),
{
    match child_of(&t.nodes, i, VALUE) {
        Some(v) => {
            assert(t@[v as int] == t.nodes@[v as int]@);
            kind_is(&t.nodes[v], "arrow_function") || kind_is(&t.nodes[v], "function") || kind_is(
                &t.nodes[v],
                "function_expression",
            )
        },
        None => false,
    }
}

/// The name of a TypeScript declaration, or of a binding whose value is a
/// function.
pub open spec fn ts_decl_name(ns: Seq<SyntaxView>, i: int) -> bool {
    ||| under(ns, i, "class_declaration"@, NAME)
    ||| under(ns, i, "abstract_class_declaration"@, NAME)
    ||| under(ns, i, "interface_declaration"@, NAME)
    ||| under(ns, i, "type_alias_declaration"@, NAME)
    ||| under(ns, i, "enum_declaration"@, NAME)
    ||| under(ns, i, "function_declaration"@, NAME)
    ||| under(ns, i, "generator_function_declaration"@, NAME)
    ||| under(ns, i, "function_signature"@, NAME)
    ||| under(ns, i, "method_definition"@, NAME)
    ||| under(ns, i, "abstract_method_signature"@, NAME)
    ||| (under(ns, i, "variable_declarator"@, NAME) || under(
        ns,
        i,
        "public_field_definition"@,
        NAME,
    )) && binds_function(ns, parent(ns, i)->Some_0)
}

/// The role of a name in TypeScript.
pub open spec fn ts_role(ns: Seq<SyntaxView>, i: int) -> Role {
    if ts_decl_name(ns, i) {
        Role::Def
    } else if ns[i].kind == "property_identifier"@ && under_two(
        ns,
        i,
        "member_expression"@,
        PROPERTY,
        "call_expression"@,
        FUNCTION,
    ) {
        Role::Call
    } else if under(ns, i, "call_expression"@, FUNCTION) {
        Role::Call
    } else {
        Role::Ref
    }
}

fn is_ts_decl_name(t: &Nodes, i: usize) -> (r: bool)
    requires
        t.wf(),
        i < t.nodes@.len(),
    ensures
        r == ts_decl_name(t@, i as int),
{
    if is_under(t, i, "class_declaration", NAME) || is_under(
        t,
        i,
        "abstract_class_declaration",
        NAME,
    ) || is_under(t, i, "interface_declaration", NAME) || is_under(
        t,
        i,
        "type_alias_declaration",
        NAME,
    ) || is_under(t, i, "enum_declaration", NAME) {
        return true;
    }
    if is_under(t, i, "function_declaration", NAME) || is_under(
        t,
        i,
        "generator_function_declaration",
        NAME,
    ) || is_under(t, i, "function_signature", NAME) || is_under(t, i, "method_definition", NAME)
        || is_under(t, i, "abstract_method_signature", NAME) {
        return true;
    }
    if is_under(t, i, "variable_declarator", NAME) || is_under(
        t,
        i,
        "public_field_definition",
        NAME,
    ) {
        match t.parent(i) {
            Some(p) => is_function_binding(t, p),
            None => false,
        }
    } else {
        false
    }
}

pub fn classify_ts(t: &Nodes, i: usize) -> (r: Role)
    requires
        t.wf(),
        i < t.nodes@.len(),
    ensures
        r == ts_role(t@, i as int),
{
    assert(t@[i as int] == t.nodes@[i as int]@);
    if is_ts_decl_name(t, i) {
        Role::Def
    } else if kind_is(&t.nodes[i], "property_identifier") && is_under_two(
        t,
        i,
        "member_expression",
        PROPERTY,
        "call_expression",
        FUNCTION,
    ) {
        Role::Call
    } else if is_under(t, i, "call_expression", FUNCTION) {
        Role::Call
    } else {
        Role::Ref
    }
}

/// The name of a C# declaration.
pub open spec fn csharp_decl_name(ns: Seq<SyntaxView>, i: int) -> bool {
    ||| under(ns, i, "class_declaration"@, NAME)
    ||| under(ns, i, "struct_declaration"@, NAME)
    ||| under(ns, i, "interface_declaration"@, NAME)
    ||| under(ns, i, "enum_declaration"@, NAME)
    ||| under(ns, i, "record_declaration"@, NAME)
    ||| under(ns, i, "record_struct_declaration"@, NAME)
    ||| under(ns, i, "method_declaration"@, NAME)
    ||| under(ns, i, "constructor_declaration"@, NAME)
    ||| under(ns, i, "destructor_declaration"@, NAME)
    ||| under(ns, i, "property_declaration"@, NAME)
    ||| under(ns, i, "indexer_declaration"@, NAME)
    ||| under(ns, i, "delegate_declaration"@, NAME)
    ||| under(ns, i, "namespace_declaration"@, NAME)
    ||| under(ns, i, "file_scoped_namespace_declaration"@, NAME)
}

/// The role of a name in C#.
pub open spec fn csharp_role(ns: Seq<SyntaxView>, i: int) -> Role {
    if csharp_decl_name(ns, i) {
        Role::Def
    } else if under_two(
        ns,
        i,
        "member_access_expression"@,
        NAME,
        "invocation_expression"@,
        FUNCTION,
    ) || under(ns, i, "invocation_expression"@, FUNCTION) {
        Role::Call
    } else {
        Role::Ref
    }
}

pub fn classify_csharp(t: &Nodes, i: usize) -> (r: Role)
    requires
        t.wf(),
        i < t.nodes@.len(),
    ensures
        r == csharp_role(t@, i as int),
{
    if is_under(t, i, "class_declaration", NAME) || is_under(t, i, "struct_declaration", NAME)
        || is_under(t, i, "interface_declaration", NAME) || is_under(
        t,
        i,
        "enum_declaration",
        NAME,
    ) || is_under(t, i, "record_declaration", NAME) || is_under(
        t,
        i,
        "record_struct_declaration",
        NAME,
    ) || is_under(t, i, "method_declaration", NAME) {
        return Role::Def;
    }
    if is_under(t, i, "constructor_declaration", NAME) || is_under(
        t,
        i,
        "destructor_declaration",
        NAME,
    ) || is_under(t, i, "property_declaration", NAME) || is_under(
        t,
        i,
        "indexer_declaration",
        NAME,
    ) || is_under(t, i, "delegate_declaration", NAME) || is_under(
        t,
        i,
        "namespace_declaration",
        NAME,
    ) || is_under(t, i, "file_scoped_namespace_declaration", NAME) {
        return Role::Def;
    }
    if is_under_two(t, i, "member_access_expression", NAME, "invocation_expression", FUNCTION)
        || is_under(t, i, "invocation_expression", FUNCTION) {
        Role::Call
    } else {
        Role::Ref
    }
}

// ---------------------------------------------------------------------------
// Names given as strings

/// The first child of a kind below node `i`, searching from `j` on.
pub open spec fn child_kind(ns: Seq<SyntaxView>, i: int, kind: Seq<char>, j: int) -> Option<int>
    decreases ns.len() - j,
{
    if j < 0 || j >= ns.len() || ns[j].depth <= ns[i].depth {
        None
    } else if ns[j].depth == ns[i].depth + 1 && ns[j].kind == kind {
        Some(j)
    } else {
        child_kind(ns, i, kind, j + 1)
    }
}

pub fn child_of_kind(t: &Nodes, i: usize, kind: &str) -> (r: Option<usize>)
    requires
        i < t.nodes@.len(),
    ensures
        place(r) == child_kind(t@, i as int, kind@, i + 1),
        r matches Some(c) ==> i < c < t.nodes@.len(),
{
    let d: usize = t.nodes[i].depth;
    let ghost all = t@;
    assert(t.nodes@.len() == t.nodes.len());
    let mut j: usize = i + 1;
    while j < t.nodes.len()
        invariant
            all == t@,
            i < j <= t.nodes@.len(),
            d == t.nodes@[i as int].depth,
            child_kind(all, i as int, kind@, i + 1) == child_kind(all, i as int, kind@, j as int),
        decreases t.nodes@.len() - j,
    {
        assert(all[j as int] == t.nodes@[j as int]@);
        assert(all[i as int] == t.nodes@[i as int]@);
        let dj: usize = t.nodes[j].depth;
        if dj <= d {
            return None;
        }
        if dj - d == 1 && kind_is(&t.nodes[j], kind) {
            return Some(j);
        }
        j = j + 1;
    }
    None
}

/// Whether a call gives a name to a Flecs system or a Tracy zone.
pub open spec fn names_system(ns: Seq<SyntaxView>, f: int, src: Seq<char>) -> bool {
    if ns[f].kind == "field_expression"@ {
        match child(ns, f, FIELD) {
            Some(m) => {
                let name = node_text(ns[m], src);
                name == "system"@ || starts(name, "system<"@)
            },
            None => false,
        }
    } else {
        ns[f].kind == "identifier"@ && node_text(ns[f], src) == "ZoneScopedN"@
    }
}

fn is_naming_system(t: &Nodes, f: usize, src: &Source) -> (r: bool)
    requires
        f < t.nodes@.len(),
        src.wf(),
    ensures
        r == names_system(t@, f as int, src@),
{
    assert(t@[f as int] == t.nodes@[f as int]@);
    if kind_is(&t.nodes[f], "field_expression") {
        match child_of(&t.nodes, f, FIELD) {
            Some(m) => {
                assert(t@[m as int] == t.nodes@[m as int]@);
                let name = text_of(&t.nodes[m], src);
                same(name.as_str(), "system") || starts_with(name.as_str(), "system<")
            },
            None => false,
        }
    } else {
        kind_is(&t.nodes[f], "identifier") && same(
            text_of(&t.nodes[f], src).as_str(),
            "ZoneScopedN",
        )
    }
}

/// The name that a call gives to a system or a zone: its first string, without the
/// quotes.
pub open spec fn system_name(ns: Seq<SyntaxView>, i: int, src: Seq<char>) -> Option<Seq<char>> {
    if ns[i].kind != "call_expression"@ {
        None
    } else {
        match (child(ns, i, FUNCTION), child(ns, i, ARGUMENTS)) {
            (Some(f), Some(a)) => if names_system(ns, f, src) {
                match child_kind(ns, a, "string_literal"@, a + 1) {
                    Some(s) => {
                        let name = trimmed_of(node_text(ns[s], src), '"');
                        if name.len() > 0 {
                            Some(name)
                        } else {
                            None
                        }
                    },
                    None => None,
                }
            } else {
                None
            },
            _ => None,
        }
    }
}

pub fn flecs_tracy_system_name(t: &Nodes, i: usize, src: &Source) -> (r: Option<String>)
    requires
        i < t.nodes@.len(),
        src.wf(),
    ensures
        match r {
            Some(n) => system_name(t@, i as int, src@) == Some(n@),
            None => system_name(t@, i as int, src@) is None,
        },
{
    assert(t@[i as int] == t.nodes@[i as int]@);
    if !kind_is(&t.nodes[i], "call_expression") {
        return None;
    }
    let f: usize = match child_of(&t.nodes, i, FUNCTION) {
        Some(f) => f,
        None => {
            return None;
        },
    };
    let a: usize = match child_of(&t.nodes, i, ARGUMENTS) {
        Some(a) => a,
        None => {
            return None;
        },
    };
    if !is_naming_system(t, f, src) {
        return None;
    }
    match child_of_kind(t, a, "string_literal") {
        Some(s) => {
            assert(t@[s as int] == t.nodes@[s as int]@);
            let name = trim_of(text_of(&t.nodes[s], src).as_str(), '"');
            if is_blank(name.as_str()) {
                None
            } else {
                Some(name)
            }
        },
        None => None,
    }
}

// ---------------------------------------------------------------------------
// Occurrences

pub open spec fn cpp_name_kind(k: Seq<char>) -> bool {
    k == "identifier"@ || k == "field_identifier"@ || k == "type_identifier"@ || k
        == "namespace_identifier"@ || k == "qualified_identifier"@
}

pub open spec fn rust_name_kind(k: Seq<char>) -> bool {
    k == "identifier"@ || k == "field_identifier"@ || k == "type_identifier"@ || k
        == "scoped_identifier"@
}

pub open spec fn ts_name_kind(k: Seq<char>) -> bool {
    k == "identifier"@ || k == "property_identifier"@ || k == "type_identifier"@
}

/// The name that node `i` stands for, if it is a name in its language.
pub open spec fn name_at(lang: Lang, ns: Seq<SyntaxView>, i: int, src: Seq<char>) -> Option<
    Seq<char>,
> {
    let k = ns[i].kind;
    let own = node_text(ns[i], src);
    match lang {
        Lang::Rust => if rust_name_kind(k) {
            Some(own)
        } else {
            None
        },
        Lang::Python => if k == "identifier"@ {
            Some(own)
        } else {
            None
        },
        Lang::Ts | Lang::Tsx | Lang::Svelte => if ts_name_kind(k) {
            Some(own)
        } else {
            None
        },
        Lang::CSharp => if k == "generic_name"@ {
            match child(ns, i, NAME) {
                Some(c) => Some(node_text(ns[c], src)),
                None => None,
            }
        } else if k == "identifier"@ {
            Some(own)
        } else {
            None
        },
        _ => if cpp_name_kind(k) {
            Some(own)
        } else {
            None
        },
    }
}

/// The role of the name at node `i`.
pub open spec fn role_at(lang: Lang, ns: Seq<SyntaxView>, i: int) -> Role {
    match lang {
        Lang::Rust => rust_role(ns, i),
        Lang::Python => python_role(ns, i),
        Lang::Ts | Lang::Tsx | Lang::Svelte => ts_role(ns, i),
        Lang::CSharp => csharp_role(ns, i),
        _ => cpp_role(ns, i),
    }
}

/// Languages whose calls may name systems and zones.
pub open spec fn c_like(lang: Lang) -> bool {
    lang == Lang::Cpp || lang == Lang::Glsl || lang == Lang::Daslang
}

/// The occurrence at node `i`, if there is one.
pub open spec fn occ_at(lang: Lang, ns: Seq<SyntaxView>, i: int, src: Seq<char>) -> Option<
    OccView,
> {
    let line = ns[i].row + 1;
    match name_at(lang, ns, i, src) {
        Some(name) => if name.len() > 0 {
            Some(OccView { name, role: role_at(lang, ns, i), line })
        } else {
            None
        },
        None => if c_like(lang) {
            match system_name(ns, i, src) {
                Some(name) => Some(OccView { name, role: Role::Def, line }),
                None => None,
            }
        } else {
            None
        },
    }
}

/// The occurrences at the first `n` nodes.
pub open spec fn occs_upto(lang: Lang, ns: Seq<SyntaxView>, src: Seq<char>, n: nat) -> Seq<OccView>
    decreases n,
{
    if n == 0 {
        Seq::empty()
    } else {
        let rest = occs_upto(lang, ns, src, (n - 1) as nat);
        match occ_at(lang, ns, n - 1, src) {
            Some(o) => rest.push(o),
            None => rest,
        }
    }
}

/// The occurrences in a source; a language without a grammar has none.
pub open spec fn occurrences(lang: Lang, src: Seq<char>) -> Seq<OccView> {
    match source_nodes(lang, src) {
        None => Seq::empty(),
        Some(ns) => occs_upto(lang, ns, lang.prepared(src), ns.len()),
    }
}

fn find_name(lang: Lang, t: &Nodes, i: usize, src: &Source) -> (r: Option<String>)
    requires
        t.wf(),
        src.wf(),
        i < t.nodes@.len(),
    ensures
        match r {
            Some(n) => name_at(lang, t@, i as int, src@) == Some(n@),
            None => name_at(lang, t@, i as int, src@) is None,
        },
{
    let n = &t.nodes[i];
    assert(t@[i as int] == n@);
    let named: bool = match lang {
        Lang::Rust => kind_is(n, "identifier") || kind_is(n, "field_identifier") || kind_is(
            n,
            "type_identifier",
        ) || kind_is(n, "scoped_identifier"),
        Lang::Python => kind_is(n, "identifier"),
        Lang::Ts | Lang::Tsx | Lang::Svelte => kind_is(n, "identifier") || kind_is(
            n,
            "property_identifier",
        ) || kind_is(n, "type_identifier"),
        Lang::CSharp => {
            if kind_is(n, "generic_name") {
                return match child_of(&t.nodes, i, NAME) {
                    Some(c) => {
                        assert(t@[c as int] == t.nodes@[c as int]@);
                        Some(text_of(&t.nodes[c], src))
                    },
                    None => None,
                };
            }
            kind_is(n, "identifier")
        },
        _ => kind_is(n, "identifier") || kind_is(n, "field_identifier") || kind_is(
            n,
            "type_identifier",
        ) || kind_is(n, "namespace_identifier") || kind_is(n, "qualified_identifier"),
    };
    if named {
        Some(text_of(n, src))
    } else {
        None
    }
}

fn find_role(lang: Lang, t: &Nodes, i: usize) -> (r: Role)
    requires
        t.wf(),
        i < t.nodes@.len(),
    ensures
        r == role_at(lang, t@, i as int),
{
    match lang {
        Lang::Rust => classify_rust(t, i),
        Lang::Python => classify_python(t, i),
        Lang::Ts | Lang::Tsx | Lang::Svelte => classify_ts(t, i),
        Lang::CSharp => classify_csharp(t, i),
        _ => classify(t, i),
    }
}

/// The occurrences in a parsed source.
pub fn scan(lang: Lang, t: &Nodes, src: &Source) -> (r: Vec<Occ>)
    requires
        t.wf(),
        src.wf(),
    ensures
        occ_views(r@) == occs_upto(lang, t@, src@, t@.len()),
{
    let mut out: Vec<Occ> = Vec::new();
    assert(occ_views(out@) =~= Seq::<OccView>::empty());
    for i in 0..t.nodes.len()
        invariant
            t.wf(),
            src.wf(),
            occ_views(out@) == occs_upto(lang, t@, src@, i as nat),
    {
        assert(t@[i as int] == t.nodes@[i as int]@);
        let line: u64 = t.nodes[i].row as u64 + 1;
        let ghost before = out@;
        match find_name(lang, t, i, src) {
            Some(name) => if !is_blank(name.as_str()) {
                let o = Occ { name, role: find_role(lang, t, i), line };
                out.push(o);
                assert(occ_views(out@) =~= occ_views(before).push(o@));
            },
            None => {
                let c: bool = match lang {
                    Lang::Cpp | Lang::Glsl | Lang::Daslang => true,
                    _ => false,
                };
                if c {
                    if let Some(name) = flecs_tracy_system_name(t, i, src) {
                        let o = Occ { name, role: Role::Def, line };
                        out.push(o);
                        assert(occ_views(out@) =~= occ_views(before).push(o@));
                    }
                }
            },
        }
    }
    out
}

/// The occurrences in a source.
pub fn extract_occ(lang: Lang, src: &str) -> (r: Vec<Occ>)
    ensures
        occ_views(r@) == occurrences(lang, src@),
{
    let prepared = lang.preprocess(src);
    match parse_prepared(lang, prepared.as_str()) {
        None => {
            let none: Vec<Occ> = Vec::new();
            assert(occ_views(none@) =~= Seq::<OccView>::empty());
            none
        },
        Some(nodes) => {
            let t = Nodes::new(nodes);
            let source = Source::new(prepared.as_str());
            scan(lang, &t, &source)
        },
    }
}

// ---------------------------------------------------------------------------
// Asking for a symbol

/// Languages whose names are classified.
pub open spec fn classified(lang: Lang) -> bool {
    lang != Lang::Daslang
}

pub fn refs_supported(lang: Lang) -> (r: bool)
    ensures
        r == classified(lang),
{
    match lang {
        Lang::Daslang => false,
        _ => true,
    }
}

/// A file: its path, its text, and its occurrences.
pub struct FileOccs {
    pub rel: String,
    pub text: String,
    pub occs: Vec<Occ>,
}

/// The values of a [`FileOccs`].
pub struct FileView {
    pub rel: Seq<char>,
    pub text: Seq<char>,
    pub occs: Seq<OccView>,
}

impl View for FileOccs {
    type V = FileView;

    open spec fn view(&self) -> FileView {
        FileView { rel: self.rel@, text: self.text@, occs: occ_views(self.occs@) }
    }
}

pub open spec fn file_views(v: Seq<FileOccs>) -> Seq<FileView> {
    Seq::new(v.len(), |i: int| v[i]@)
}

/// What is asked for.
pub struct Query {
    pub symbol: String,
    pub kind: String,
    pub max: u64,
    pub budget: u64,
    pub resume_at: u64,
}

/// The values of a [`Query`].
pub struct QueryView {
    pub symbol: Seq<char>,
    pub kind: Seq<char>,
    pub max: u64,
    pub budget: u64,
    pub resume_at: u64,
}

impl View for Query {
    type V = QueryView;

    open spec fn view(&self) -> QueryView {
        QueryView {
            symbol: self.symbol@,
            kind: self.kind@,
            max: self.max,
            budget: self.budget,
            resume_at: self.resume_at,
        }
    }
}

/// The question that arguments ask; none without a symbol.
pub open spec fn query_of(j: Json, resume_at: u64) -> Option<QueryView> {
    let symbol = trimmed(str_or(j, "symbol"@, ""@));
    if symbol.len() == 0 {
        None
    } else {
        Some(
            QueryView {
                symbol,
                kind: lowercase(str_or(j, "kind"@, "all"@)),
                max: if u64_or(j, "max"@, 60) > 1 {
                    u64_or(j, "max"@, 60)
                } else {
                    1
                },
                budget: u64_or(j, "token_budget"@, 1200),
                resume_at,
            },
        )
    }
}

pub fn read_query(args: &Datum, resume_at: u64) -> (r: Option<Query>)
    ensures
        match r {
            Some(q) => query_of(args@, resume_at) == Some(q@),
            None => query_of(args@, resume_at) is None,
        },
{
    let symbol = trim(string_or(args, "symbol", "").as_str());
    if is_blank(symbol.as_str()) {
        return None;
    }
    let max: u64 = crate::json::number_or(args, "max", 60);
    Some(
        Query {
            symbol,
            kind: to_lower(string_or(args, "kind", "all").as_str()),
            max: if max > 1 {
                max
            } else {
                1
            },
            budget: crate::json::number_or(args, "token_budget", 1200),
            resume_at,
        },
    )
}

/// An occurrence to show.
pub struct Hit {
    pub role: Role,
    pub rel: String,
    pub line: u64,
    pub text: String,
}

/// The values of a [`Hit`].
pub struct HitView {
    pub role: Role,
    pub rel: Seq<char>,
    pub line: nat,
    pub text: Seq<char>,
}

impl View for Hit {
    type V = HitView;

    open spec fn view(&self) -> HitView {
        HitView { role: self.role, rel: self.rel@, line: self.line as nat, text: self.text@ }
    }
}

pub open spec fn hit_views(v: Seq<Hit>) -> Seq<HitView> {
    Seq::new(v.len(), |i: int| v[i]@)
}

/// A line of a text, counted from one, on one line and capped.
pub open spec fn shown_line(text: Seq<char>, line: nat) -> Seq<char> {
    let ls = lines_of(text);
    let row: int = if line == 0 {
        0
    } else {
        line - 1
    };
    if row < ls.len() {
        squeezed(ls[row], 100)
    } else {
        squeezed(""@, 100)
    }
}

fn line_text(ls: &Vec<String>, line: u64) -> (r: String)
    ensures
        forall|text: Seq<char>| strs(ls@) == lines_of(text) ==> r@ == shown_line(text, line as nat),
{
    let row: u64 = if line == 0 {
        0
    } else {
        line - 1
    };
    assert(strs(ls@).len() == ls@.len());
    if row < ls.len() as u64 {
        assert(strs(ls@)[row as int] == ls@[row as int]@);
        squeeze(ls[row as usize].as_str(), 100)
    } else {
        squeeze("", 100)
    }
}

/// The occurrences of a symbol among the first `n` of a file, as hits; only
/// definitions where nothing else is asked for.
pub open spec fn hits_in(f: FileView, q: QueryView, n: nat) -> Seq<HitView>
    decreases n,
{
    if n == 0 {
        Seq::empty()
    } else {
        let rest = hits_in(f, q, (n - 1) as nat);
        let o = f.occs[n - 1];
        if o.name == q.symbol && (q.kind == "def"@ ==> o.role == Role::Def) {
            rest.push(
                HitView { role: o.role, rel: f.rel, line: o.line, text: shown_line(f.text, o.line) },
            )
        } else {
            rest
        }
    }
}

pub open spec fn file_hits(f: FileView, q: QueryView) -> Seq<HitView> {
    hits_in(f, q, f.occs.len())
}

/// The hits in the first `n` files.
pub open spec fn all_hits(fs: Seq<FileView>, q: QueryView, n: nat) -> Seq<HitView>
    decreases n,
{
    if n == 0 {
        Seq::empty()
    } else {
        all_hits(fs, q, (n - 1) as nat) + file_hits(fs[n - 1], q)
    }
}

/// How many of the first `n` files have a hit.
pub open spec fn files_hit(fs: Seq<FileView>, q: QueryView, n: nat) -> nat
    decreases n,
{
    if n == 0 {
        0
    } else {
        files_hit(fs, q, (n - 1) as nat) + (if file_hits(fs[n - 1], q).len() > 0 {
            1nat
        } else {
            0
        })
    }
}

fn gather(files: &Vec<FileOccs>, q: &Query) -> (r: (Vec<Hit>, usize))
    ensures
        hit_views(r.0@) == all_hits(file_views(files@), q@, files@.len()),
        r.1 == files_hit(file_views(files@), q@, files@.len()),
{
    let mut out: Vec<Hit> = Vec::new();
    let mut count: usize = 0;
    let defs_only: bool = same(q.kind.as_str(), "def");
    let ghost fs = file_views(files@);
    assert(hit_views(out@) =~= Seq::<HitView>::empty());
    for i in 0..files.len()
        invariant
            fs == file_views(files@),
            defs_only == (q@.kind == "def"@),
            count <= i,
            hit_views(out@) == all_hits(fs, q@, i as nat),
            count == files_hit(fs, q@, i as nat),
    {
        let f = &files[i];
        assert(fs[i as int] == f@);
        let ghost base = hit_views(out@);
        let before: usize = out.len();
        let ls = lines(f.text.as_str());
        assert(base + hits_in(f@, q@, 0) =~= base);
        for k in 0..f.occs.len()
            invariant
                defs_only == (q@.kind == "def"@),
                strs(ls@) == lines_of(f@.text),
                hit_views(out@) == base + hits_in(f@, q@, k as nat),
        {
            let o = &f.occs[k];
            assert(f@.occs[k as int] == o@);
            if same(o.name.as_str(), q.symbol.as_str()) && (!defs_only || o.role == Role::Def) {
                let ghost mid = out@;
                let h = Hit {
                    role: o.role,
                    rel: copy(f.rel.as_str()),
                    line: o.line,
                    text: line_text(&ls, o.line),
                };
                out.push(h);
                assert(hit_views(out@) =~= hit_views(mid).push(h@));
                assert(hit_views(out@) =~= base + hits_in(f@, q@, (k + 1) as nat));
            }
        }
        assert(hit_views(out@).len() == out@.len());
        assert(base.len() == before);
        if out.len() > before {
            count = count + 1;
        }
    }
    (out, count)
}

pub open spec fn role_rank(r: Role) -> u64 {
    match r {
        Role::Def => 0,
        Role::Call => 1,
        Role::Ref => 2,
    }
}

fn rank_of(r: Role) -> (n: u64)
    ensures
        n == role_rank(r),
{
    match r {
        Role::Def => 0,
        Role::Call => 1,
        Role::Ref => 2,
    }
}

pub open spec fn hit_keys(hs: Seq<HitView>) -> Seq<KeyView> {
    Seq::new(
        hs.len(),
        |i: int|
            KeyView {
                rank: role_rank(hs[i].role),
                name: hs[i].rel,
                number: hs[i].line as u64,
                at: i as nat,
            },
    )
}

/// Definitions, then calls, then references; each by path and line.
pub open spec fn ordered_hits(hs: Seq<HitView>) -> Seq<HitView> {
    crate::izakaya::replay::arranged(hs, sort_order(hit_keys(hs)))
}

impl Hit {
    pub fn copy(&self) -> (r: Hit)
        ensures
            r@ == self@,
    {
        Hit {
            role: self.role,
            rel: copy(self.rel.as_str()),
            line: self.line,
            text: copy(self.text.as_str()),
        }
    }
}

fn sort_hits(hs: &Vec<Hit>) -> (r: Vec<Hit>)
    ensures
        hit_views(r@) == ordered_hits(hit_views(hs@)),
        r@.len() == hs@.len(),
{
    let mut keys: Vec<Key> = Vec::new();
    for i in 0..hs.len()
        invariant
            keys@.len() == i,
            forall|k: int|
                0 <= k < i ==> (#[trigger] keys@[k])@ == (KeyView {
                    rank: role_rank(hs@[k].role),
                    name: hs@[k].rel@,
                    number: hs@[k].line,
                    at: k as nat,
                }),
    {
        keys.push(
            Key {
                rank: rank_of(hs[i].role),
                name: copy(hs[i].rel.as_str()),
                number: hs[i].line,
                at: i,
            },
        );
    }
    assert(key_views(keys@) =~= hit_keys(hit_views(hs@)));
    let order = sort(keys);
    let mut out: Vec<Hit> = Vec::new();
    for i in 0..order.len()
        invariant
            order@.len() == hs@.len(),
            forall|k: int| 0 <= k < order@.len() ==> #[trigger] order@[k] < hs@.len(),
            out@.len() == i,
            forall|k: int| 0 <= k < i ==> (#[trigger] out@[k])@ == hs@[order@[k] as int]@,
    {
        out.push(hs[order[i]].copy());
    }
    assert(hit_views(out@) =~= ordered_hits(hit_views(hs@)));
    out
}

/// How many of the first `n` hits have a role.
pub open spec fn count_role(hs: Seq<HitView>, role: Role, n: nat) -> nat
    decreases n,
{
    if n == 0 {
        0
    } else {
        count_role(hs, role, (n - 1) as nat) + (if hs[n - 1].role == role {
            1nat
        } else {
            0
        })
    }
}

fn count(hs: &Vec<Hit>, role: Role) -> (r: usize)
    ensures
        r == count_role(hit_views(hs@), role, hs@.len()),
{
    let mut n: usize = 0;
    for i in 0..hs.len()
        invariant
            n <= i,
            n == count_role(hit_views(hs@), role, i as nat),
    {
        assert(hit_views(hs@)[i as int] == hs@[i as int]@);
        if hs[i].role == role {
            n = n + 1;
        }
    }
    n
}

/// Whether a kind of question wants a role.
pub open spec fn wants(kind: Seq<char>, role: Role) -> bool {
    if kind == "def"@ {
        role == Role::Def
    } else if kind == "call"@ {
        role == Role::Call
    } else if kind == "ref"@ {
        role == Role::Ref
    } else {
        true
    }
}

fn is_wanted(kind: &str, role: Role) -> (r: bool)
    ensures
        r == wants(kind@, role),
{
    if same(kind, "def") {
        role == Role::Def
    } else if same(kind, "call") {
        role == Role::Call
    } else if same(kind, "ref") {
        role == Role::Ref
    } else {
        true
    }
}

pub open spec fn label_of(r: Role) -> Seq<char> {
    match r {
        Role::Def => "definitions"@,
        Role::Call => "calls"@,
        Role::Ref => "references"@,
    }
}

pub fn label(r: Role) -> (s: &'static str)
    ensures
        s@ == label_of(r),
{
    match r {
        Role::Def => "definitions",
        Role::Call => "calls",
        Role::Ref => "references",
    }
}

/// What stands above the hits.
pub open spec fn heading(q: QueryView, hs: Seq<HitView>, files: nat) -> Seq<char> {
    let nd = dec(count_role(hs, Role::Def, hs.len()));
    let nc = dec(count_role(hs, Role::Call, hs.len()));
    let nr = dec(count_role(hs, Role::Ref, hs.len()));
    (if q.kind == "def"@ {
        "symbol_refs - \""@ + q.symbol + "\": "@ + nd + " def across "@ + dec(files)
            + " file(s) (definition-only)"@
    } else {
        "symbol_refs - \""@ + q.symbol + "\": "@ + nd + " def, "@ + nc + " call, "@ + nr
            + " ref across "@ + dec(files) + " file(s)"@
    }) + (if q.resume_at > 0 {
        " [continuation from hit #"@ + dec(q.resume_at as nat) + "]"@
    } else {
        ""@
    }) + "\n"@ + (if q.kind != "all"@ && q.kind != "def"@ {
        "filter: "@ + q.kind + "\n"@
    } else {
        ""@
    }) + "\n"@
}

fn write_heading(q: &Query, hs: &Vec<Hit>, files: usize) -> (r: String)
    ensures
        r@ == heading(q@, hit_views(hs@), files as nat),
{
    let defs_only: bool = same(q.kind.as_str(), "def");
    assert(hit_views(hs@).len() == hs@.len());
    let mut out = copy("symbol_refs - \"");
    out.append(q.symbol.as_str());
    out.append("\": ");
    out.append(decimal(count(hs, Role::Def) as u64).as_str());
    if defs_only {
        out.append(" def across ");
        out.append(decimal(files as u64).as_str());
        out.append(" file(s) (definition-only)");
    } else {
        out.append(" def, ");
        out.append(decimal(count(hs, Role::Call) as u64).as_str());
        out.append(" call, ");
        out.append(decimal(count(hs, Role::Ref) as u64).as_str());
        out.append(" ref across ");
        out.append(decimal(files as u64).as_str());
        out.append(" file(s)");
    }
    let mut more = copy("");
    if q.resume_at > 0 {
        more = copy(" [continuation from hit #");
        more.append(decimal(q.resume_at).as_str());
        more.append("]");
    }
    out.append(more.as_str());
    out.append("\n");
    let mut filter = copy("");
    if !same(q.kind.as_str(), "all") && !defs_only {
        filter = copy("filter: ");
        filter.append(q.kind.as_str());
        filter.append("\n");
    }
    out.append(filter.as_str());
    out.append("\n");
    out
}

/// The state of a list of hits that is being written.
pub struct PageView {
    pub text: Seq<char>,
    pub used: nat,
    pub shown: nat,
    pub index: nat,
    pub last: Option<Role>,
    pub full: bool,
    pub cut: Option<nat>,
}

pub open spec fn hit_text(h: HitView) -> Seq<char> {
    "  "@ + h.rel + ":"@ + dec(h.line) + "  "@ + h.text + "\n"@
}

/// One hit more. Hits before the place of resumption are passed over. The list
/// is full when it has as many hits as asked for; it is cut where a hit would go
/// over the budget, unless it is the first.
pub open spec fn page_step(p: PageView, h: HitView, q: QueryView) -> PageView {
    if p.full || p.cut is Some || !wants(q.kind, h.role) {
        p
    } else if p.index < q.resume_at {
        PageView { index: p.index + 1, ..p }
    } else if p.shown >= q.max {
        PageView { text: p.text + "… (more hits; raise \"max\")\n"@, full: true, ..p }
    } else {
        let headed = if p.last == Some(h.role) {
            p.text
        } else {
            p.text + label_of(h.role) + ":\n"@
        };
        let cost = blen(hit_text(h)) / 4;
        if p.used + cost > q.budget && p.shown > 0 {
            PageView { text: headed, last: Some(h.role), cut: Some(p.index), ..p }
        } else {
            PageView {
                text: headed + hit_text(h),
                used: p.used + cost,
                shown: p.shown + 1,
                index: p.index + 1,
                last: Some(h.role),
                ..p
            }
        }
    }
}

pub open spec fn pages(start: Seq<char>, hs: Seq<HitView>, q: QueryView, n: nat) -> PageView
    decreases n,
{
    if n == 0 {
        PageView {
            text: start,
            used: blen(start) / 4,
            shown: 0,
            index: 0,
            last: None,
            full: false,
            cut: None,
        }
    } else {
        page_step(pages(start, hs, q, (n - 1) as nat), hs[n - 1], q)
    }
}

/// The answer: its text, how many hits it shows, and where to go on if it was cut.
pub struct Found {
    pub text: String,
    pub shown: u64,
    pub next: Option<u64>,
}

pub open spec fn found_page(fs: Seq<FileView>, q: QueryView) -> PageView {
    let hs = ordered_hits(all_hits(fs, q, fs.len()));
    pages(heading(q, hs, files_hit(fs, q, fs.len())), hs, q, hs.len())
}

/// The text of an answer; one without hits gives a hint, unless it resumes.
pub open spec fn found_text(p: PageView, q: QueryView, hint: Seq<char>) -> Seq<char> {
    if p.shown == 0 && q.resume_at == 0 {
        p.text + "(no matching occurrences)\n"@ + hint
    } else {
        p.text
    }
}

pub fn find(files: &Vec<FileOccs>, q: &Query, hint: &str) -> (r: Found)
    ensures
        ({
            let p = found_page(file_views(files@), q@);
            &&& r.text@ == found_text(p, q@, hint@)
            &&& r.shown == p.shown
            &&& match (r.next, p.cut) {
                (Some(a), Some(b)) => a == b,
                (None, None) => true,
                _ => false,
            }
        }),
{
    let (raw, nfiles) = gather(files, q);
    let hs = sort_hits(&raw);
    let ghost all = hit_views(hs@);
    assert(all.len() == hs@.len());
    let mut text = write_heading(q, &hs, nfiles);
    let ghost start = text@;
    let mut used: u64 = (size(text.as_str()) / 4) as u64;
    let mut shown: u64 = 0;
    let mut index: u64 = 0;
    let mut last: Option<Role> = None;
    let mut full: bool = false;
    let mut cut: Option<u64> = None;
    assert(file_views(files@).len() == files@.len());
    for i in 0..hs.len()
        invariant
            all == hit_views(hs@),
            shown <= index <= i,
            ({
                let p = pages(start, all, q@, i as nat);
                &&& p.text == text@
                &&& p.used == used
                &&& p.shown == shown
                &&& p.index == index
                &&& p.last == last
                &&& p.full == full
                &&& match (cut, p.cut) {
                    (Some(a), Some(b)) => a == b,
                    (None, None) => true,
                    _ => false,
                }
            }),
            used * 4 <= blen(text@),
    {
        let h = &hs[i];
        assert(all[i as int] == h@);
        assert(hs@.len() == hs.len());
        if !full && cut.is_none() && is_wanted(q.kind.as_str(), h.role) {
            if index < q.resume_at {
                index = index + 1;
            } else if shown >= q.max {
                let ghost before = text@;
                text.append("… (more hits; raise \"max\")\n");
                proof {
                    crate::text::lemma_blen_add(before, "… (more hits; raise \"max\")\n"@);
                }
                full = true;
            } else {
                let headed: bool = match last {
                    Some(r) => r == h.role,
                    None => false,
                };
                if !headed {
                    let ghost before = text@;
                    text.append(label(h.role));
                    text.append(":\n");
                    proof {
                        crate::text::lemma_blen_add(before, label_of(h.role));
                        crate::text::lemma_blen_add(before + label_of(h.role), ":\n"@);
                    }
                    last = Some(h.role);
                }
                let mut line = copy("  ");
                line.append(h.rel.as_str());
                line.append(":");
                line.append(decimal(h.line).as_str());
                line.append("  ");
                line.append(h.text.as_str());
                line.append("\n");
                let cost: u64 = (size(line.as_str()) / 4) as u64;
                let have: usize = size(text.as_str());
                if used + cost > q.budget && shown > 0 {
                    cut = Some(index);
                } else {
                    let ghost before = text@;
                    text.append(line.as_str());
                    proof {
                        crate::text::lemma_blen_add(before, line@);
                    }
                    used = used + cost;
                    shown = shown + 1;
                    index = index + 1;
                }
            }
        }
    }
    if shown == 0 && q.resume_at == 0 {
        text.append("(no matching occurrences)\n");
        text.append(hint);
    }
    Found { text, shown, next: cut }
}

// ---------------------------------------------------------------------------
// Counting for other tools

/// The occurrences of a symbol in one file.
pub struct FileRefs {
    pub rel: String,
    pub defs: usize,
    pub calls: usize,
    pub refs: usize,
}

/// The values of a [`FileRefs`].
pub struct FileRefsView {
    pub rel: Seq<char>,
    pub defs: nat,
    pub calls: nat,
    pub refs: nat,
}

impl View for FileRefs {
    type V = FileRefsView;

    open spec fn view(&self) -> FileRefsView {
        FileRefsView {
            rel: self.rel@,
            defs: self.defs as nat,
            calls: self.calls as nat,
            refs: self.refs as nat,
        }
    }
}

pub open spec fn refs_views(v: Seq<FileRefs>) -> Seq<FileRefsView> {
    Seq::new(v.len(), |i: int| v[i]@)
}

/// How often a name occurs in a role among the first `n`.
pub open spec fn tally(os: Seq<OccView>, name: Seq<char>, role: Role, n: nat) -> nat
    decreases n,
{
    if n == 0 {
        0
    } else {
        tally(os, name, role, (n - 1) as nat) + (if os[n - 1].name == name && os[n - 1].role
            == role {
            1nat
        } else {
            0
        })
    }
}

pub open spec fn refs_of(f: FileView, symbol: Seq<char>) -> FileRefsView {
    FileRefsView {
        rel: f.rel,
        defs: tally(f.occs, symbol, Role::Def, f.occs.len()),
        calls: tally(f.occs, symbol, Role::Call, f.occs.len()),
        refs: tally(f.occs, symbol, Role::Ref, f.occs.len()),
    }
}

pub open spec fn total(r: FileRefsView) -> nat {
    r.defs + r.calls + r.refs
}

/// The counts of the files, among the first `n`, in which the symbol occurs.
pub open spec fn refs_upto(fs: Seq<FileView>, symbol: Seq<char>, n: nat) -> Seq<FileRefsView>
    decreases n,
{
    if n == 0 {
        Seq::empty()
    } else {
        let rest = refs_upto(fs, symbol, (n - 1) as nat);
        if total(refs_of(fs[n - 1], symbol)) > 0 {
            rest.push(refs_of(fs[n - 1], symbol))
        } else {
            rest
        }
    }
}

pub open spec fn refs_keys(rs: Seq<FileRefsView>) -> Seq<KeyView> {
    Seq::new(
        rs.len(),
        |i: int|
            KeyView {
                rank: (u64::MAX - total(rs[i])) as u64,
                name: rs[i].rel,
                number: 0,
                at: i as nat,
            },
    )
}

/// The counts for a symbol by file, the most occurrences first, then by path.
pub open spec fn refs_sorted(fs: Seq<FileView>, symbol: Seq<char>) -> Seq<FileRefsView> {
    if symbol.len() == 0 {
        Seq::empty()
    } else {
        let rs = refs_upto(fs, symbol, fs.len());
        crate::izakaya::replay::arranged(rs, sort_order(refs_keys(rs)))
    }
}

fn count_refs(f: &FileOccs, symbol: &str) -> (r: FileRefs)
    ensures
        r@ == refs_of(f@, symbol@),
        r.defs + r.calls + r.refs <= f.occs@.len(),
{
    let mut d: usize = 0;
    let mut c: usize = 0;
    let mut n: usize = 0;
    for i in 0..f.occs.len()
        invariant
            d + c + n <= i,
            d == tally(f@.occs, symbol@, Role::Def, i as nat),
            c == tally(f@.occs, symbol@, Role::Call, i as nat),
            n == tally(f@.occs, symbol@, Role::Ref, i as nat),
    {
        let o = &f.occs[i];
        assert(f@.occs[i as int] == o@);
        if same(o.name.as_str(), symbol) {
            match o.role {
                Role::Def => {
                    d = d + 1;
                },
                Role::Call => {
                    c = c + 1;
                },
                Role::Ref => {
                    n = n + 1;
                },
            }
        }
    }
    FileRefs { rel: copy(f.rel.as_str()), defs: d, calls: c, refs: n }
}

pub fn refs_by_file(symbol: &str, files: &Vec<FileOccs>) -> (r: Vec<FileRefs>)
    ensures
        refs_views(r@) == refs_sorted(file_views(files@), trimmed(symbol@)),
{
    let symbol = trim(symbol);
    let ghost fs = file_views(files@);
    let mut found: Vec<FileRefs> = Vec::new();
    assert(refs_views(found@) =~= Seq::<FileRefsView>::empty());
    if is_blank(symbol.as_str()) {
        return found;
    }
    for i in 0..files.len()
        invariant
            fs == file_views(files@),
            refs_views(found@) == refs_upto(fs, symbol@, i as nat),
            forall|k: int|
                0 <= k < found@.len() ==> total(#[trigger] refs_views(found@)[k]) <= usize::MAX,
    {
        assert(fs[i as int] == files@[i as int]@);
        let c = count_refs(&files[i], symbol.as_str());
        assert(files@[i as int].occs@.len() == files[i as int].occs.len());
        if c.defs > 0 || c.calls > 0 || c.refs > 0 {
            let ghost before = found@;
            let ghost cv = c@;
            found.push(c);
            assert(refs_views(found@) =~= refs_views(before).push(cv));
            assert forall|k: int| 0 <= k < found@.len() implies total(
                #[trigger] refs_views(found@)[k],
            ) <= usize::MAX by {
                if k < before.len() {
                    assert(refs_views(found@)[k] == refs_views(before)[k]);
                }
            }
        }
    }
    let ghost rs = refs_views(found@);
    let mut keys: Vec<Key> = Vec::new();
    for i in 0..found.len()
        invariant
            rs == refs_views(found@),
            forall|k: int| 0 <= k < found@.len() ==> total(#[trigger] rs[k]) <= usize::MAX,
            keys@.len() == i,
            forall|k: int|
                0 <= k < i ==> (#[trigger] keys@[k])@ == (KeyView {
                    rank: (u64::MAX - total(rs[k])) as u64,
                    name: rs[k].rel,
                    number: 0,
                    at: k as nat,
                }),
    {
        let f = &found[i];
        assert(rs[i as int] == f@);
        let sum: u64 = f.defs as u64 + f.calls as u64 + f.refs as u64;
        keys.push(Key { rank: u64::MAX - sum, name: copy(f.rel.as_str()), number: 0, at: i });
    }
    assert(key_views(keys@) =~= refs_keys(rs));
    let order = sort(keys);
    let mut out: Vec<FileRefs> = Vec::new();
    for i in 0..order.len()
        invariant
            rs == refs_views(found@),
            order@.len() == found@.len(),
            forall|k: int| 0 <= k < order@.len() ==> #[trigger] order@[k] < found@.len(),
            out@.len() == i,
            forall|k: int| 0 <= k < i ==> (#[trigger] out@[k])@ == rs[order@[k] as int],
    {
        let f = &found[order[i]];
        assert(rs[order@[i as int] as int] == f@);
        out.push(
            FileRefs { rel: copy(f.rel.as_str()), defs: f.defs, calls: f.calls, refs: f.refs },
        );
    }
    assert(refs_views(out@) =~= refs_sorted(fs, symbol@));
    out
}

/// A place where a symbol is called.
pub struct CallSite {
    pub rel: String,
    pub line: u64,
}

/// The values of a [`CallSite`].
pub struct SiteView {
    pub rel: Seq<char>,
    pub line: nat,
}

impl View for CallSite {
    type V = SiteView;

    open spec fn view(&self) -> SiteView {
        SiteView { rel: self.rel@, line: self.line as nat }
    }
}

pub open spec fn site_views(v: Seq<CallSite>) -> Seq<SiteView> {
    Seq::new(v.len(), |i: int| v[i]@)
}

pub open spec fn calls_in(f: FileView, symbol: Seq<char>, n: nat) -> Seq<SiteView>
    decreases n,
{
    if n == 0 {
        Seq::empty()
    } else {
        let rest = calls_in(f, symbol, (n - 1) as nat);
        if f.occs[n - 1].name == symbol && f.occs[n - 1].role == Role::Call {
            rest.push(SiteView { rel: f.rel, line: f.occs[n - 1].line })
        } else {
            rest
        }
    }
}

pub open spec fn calls_upto(fs: Seq<FileView>, symbol: Seq<char>, n: nat) -> Seq<SiteView>
    decreases n,
{
    if n == 0 {
        Seq::empty()
    } else {
        calls_upto(fs, symbol, (n - 1) as nat) + calls_in(fs[n - 1], symbol, fs[n - 1].occs.len())
    }
}

pub open spec fn site_keys(ss: Seq<SiteView>) -> Seq<KeyView> {
    Seq::new(
        ss.len(),
        |i: int| KeyView { rank: 0, name: ss[i].rel, number: ss[i].line as u64, at: i as nat },
    )
}

/// The calls of a symbol, by path and line.
pub open spec fn calls_sorted(fs: Seq<FileView>, symbol: Seq<char>) -> Seq<SiteView> {
    if symbol.len() == 0 {
        Seq::empty()
    } else {
        let ss = calls_upto(fs, symbol, fs.len());
        crate::izakaya::replay::arranged(ss, sort_order(site_keys(ss)))
    }
}

pub fn call_sites(symbol: &str, files: &Vec<FileOccs>) -> (r: Vec<CallSite>)
    ensures
        site_views(r@) == calls_sorted(file_views(files@), trimmed(symbol@)),
{
    let symbol = trim(symbol);
    let ghost fs = file_views(files@);
    let mut found: Vec<CallSite> = Vec::new();
    assert(site_views(found@) =~= Seq::<SiteView>::empty());
    if is_blank(symbol.as_str()) {
        return found;
    }
    for i in 0..files.len()
        invariant
            fs == file_views(files@),
            site_views(found@) == calls_upto(fs, symbol@, i as nat),
    {
        let f = &files[i];
        assert(fs[i as int] == f@);
        let ghost base = site_views(found@);
        assert(base + calls_in(f@, symbol@, 0) =~= base);
        for k in 0..f.occs.len()
            invariant
                site_views(found@) == base + calls_in(f@, symbol@, k as nat),
        {
            let o = &f.occs[k];
            assert(f@.occs[k as int] == o@);
            if same(o.name.as_str(), symbol.as_str()) && o.role == Role::Call {
                let ghost before = found@;
                let c = CallSite { rel: copy(f.rel.as_str()), line: o.line };
                found.push(c);
                assert(site_views(found@) =~= site_views(before).push(c@));
                assert(site_views(found@) =~= base + calls_in(f@, symbol@, (k + 1) as nat));
            }
        }
    }
    let ghost ss = site_views(found@);
    let mut keys: Vec<Key> = Vec::new();
    for i in 0..found.len()
        invariant
            ss == site_views(found@),
            keys@.len() == i,
            forall|k: int|
                0 <= k < i ==> (#[trigger] keys@[k])@ == (KeyView {
                    rank: 0,
                    name: ss[k].rel,
                    number: ss[k].line as u64,
                    at: k as nat,
                }),
    {
        assert(ss[i as int] == found@[i as int]@);
        keys.push(
            Key { rank: 0, name: copy(found[i].rel.as_str()), number: found[i].line, at: i },
        );
    }
    assert(key_views(keys@) =~= site_keys(ss));
    let order = sort(keys);
    let mut out: Vec<CallSite> = Vec::new();
    for i in 0..order.len()
        invariant
            ss == site_views(found@),
            order@.len() == found@.len(),
            forall|k: int| 0 <= k < order@.len() ==> #[trigger] order@[k] < found@.len(),
            out@.len() == i,
            forall|k: int| 0 <= k < i ==> (#[trigger] out@[k])@ == ss[order@[k] as int],
    {
        let f = &found[order[i]];
        assert(ss[order@[i as int] as int] == f@);
        out.push(CallSite { rel: copy(f.rel.as_str()), line: f.line });
    }
    assert(site_views(out@) =~= calls_sorted(fs, symbol@));
    out
}

/// How often a name occurs in each role. The numbers have room for the occurrences of
/// any list of files.
pub struct Counts {
    pub defs: u128,
    pub calls: u128,
    pub refs: u128,
}

/// The values of a [`Counts`].
pub struct CountsView {
    pub defs: nat,
    pub calls: nat,
    pub refs: nat,
}

impl View for Counts {
    type V = CountsView;

    open spec fn view(&self) -> CountsView {
        CountsView {
            defs: self.defs as nat,
            calls: self.calls as nat,
            refs: self.refs as nat,
        }
    }
}

/// The counts by name with one occurrence more.
pub open spec fn counted(m: Seq<(Seq<char>, CountsView)>, o: OccView) -> Seq<
    (Seq<char>, CountsView),
> {
    let c = match at(m, o.name) {
        Some(c) => c,
        None => CountsView { defs: 0, calls: 0, refs: 0 },
    };
    put(
        m,
        o.name,
        match o.role {
            Role::Def => CountsView { defs: c.defs + 1, ..c },
            Role::Call => CountsView { calls: c.calls + 1, ..c },
            Role::Ref => CountsView { refs: c.refs + 1, ..c },
        },
    )
}

pub open spec fn counts_in(m: Seq<(Seq<char>, CountsView)>, os: Seq<OccView>, n: nat) -> Seq<
    (Seq<char>, CountsView),
>
    decreases n,
{
    if n == 0 {
        m
    } else {
        counted(counts_in(m, os, (n - 1) as nat), os[n - 1])
    }
}

/// The counts by name over the first `n` files.
pub open spec fn counts_upto(fs: Seq<FileView>, n: nat) -> Seq<(Seq<char>, CountsView)>
    decreases n,
{
    if n == 0 {
        Seq::empty()
    } else {
        counts_in(counts_upto(fs, (n - 1) as nat), fs[n - 1].occs, fs[n - 1].occs.len())
    }
}

/// No count goes over a bound.
spec fn counts_within(m: Seq<(Seq<char>, CountsView)>, bound: nat) -> bool {
    forall|i: int|
        0 <= i < m.len() ==> (#[trigger] m[i]).1.defs <= bound && m[i].1.calls <= bound
            && m[i].1.refs <= bound
}

proof fn lemma_within_at(m: Seq<(Seq<char>, CountsView)>, key: Seq<char>, bound: nat)
    requires
        counts_within(m, bound),
    ensures
        at(m, key) matches Some(c) ==> c.defs <= bound && c.calls <= bound && c.refs <= bound,
    decreases m.len(),
{
    if m.len() > 0 && m[0].0 != key {
        let t = m.drop_first();
        assert forall|i: int| 0 <= i < t.len() implies (#[trigger] t[i]).1.defs <= bound
            && t[i].1.calls <= bound && t[i].1.refs <= bound by {
            assert(t[i] == m[i + 1]);
        }
        lemma_within_at(t, key, bound);
    }
}

proof fn lemma_within_put(
    m: Seq<(Seq<char>, CountsView)>,
    key: Seq<char>,
    c: CountsView,
    bound: nat,
)
    requires
        counts_within(m, bound),
        c.defs <= bound && c.calls <= bound && c.refs <= bound,
    ensures
        counts_within(put(m, key, c), bound),
    decreases m.len(),
{
    let r = put(m, key, c);
    if m.len() > 0 {
        let t = m.drop_first();
        assert forall|i: int| 0 <= i < t.len() implies (#[trigger] t[i]).1.defs <= bound
            && t[i].1.calls <= bound && t[i].1.refs <= bound by {
            assert(t[i] == m[i + 1]);
        }
        if m[0].0 == key {
            assert forall|i: int| 0 <= i < r.len() implies (#[trigger] r[i]).1.defs <= bound
                && r[i].1.calls <= bound && r[i].1.refs <= bound by {
                if i > 0 {
                    assert(r[i] == t[i - 1]);
                }
            }
        } else if crate::text::lex_lt(key, m[0].0) {
            assert forall|i: int| 0 <= i < r.len() implies (#[trigger] r[i]).1.defs <= bound
                && r[i].1.calls <= bound && r[i].1.refs <= bound by {
                if i > 0 {
                    assert(r[i] == m[i - 1]);
                }
            }
        } else {
            lemma_within_put(t, key, c, bound);
            let u = put(t, key, c);
            assert forall|i: int| 0 <= i < r.len() implies (#[trigger] r[i]).1.defs <= bound
                && r[i].1.calls <= bound && r[i].1.refs <= bound by {
                if i > 0 {
                    assert(r[i] == u[i - 1]);
                } else {
                    assert(r[0] == m[0]);
                }
            }
        }
    }
}

fn add_occ(m: &mut StrMap<Counts>, o: &Occ, Ghost(bound): Ghost<nat>)
    requires
        old(m).wf(),
        counts_within(old(m)@, bound),
        bound < u128::MAX,
    ensures
        final(m).wf(),
        final(m)@ == counted(old(m)@, o@),
        counts_within(final(m)@, bound + 1),
{
    proof {
        lemma_within_at(m@, o@.name, bound);
        assert(counts_within(m@, bound + 1));
    }
    let ghost before = m@;
    let (d, c, n): (u128, u128, u128) = match m.get(o.name.as_str()) {
        Some(x) => (x.defs, x.calls, x.refs),
        None => (0, 0, 0),
    };
    let next = match o.role {
        Role::Def => Counts { defs: d + 1, calls: c, refs: n },
        Role::Call => Counts { defs: d, calls: c + 1, refs: n },
        Role::Ref => Counts { defs: d, calls: c, refs: n + 1 },
    };
    proof {
        lemma_within_put(before, o@.name, next@, bound + 1);
    }
    m.insert(o.name.as_str(), next);
}

pub fn occurrence_counts(files: &Vec<FileOccs>) -> (r: StrMap<Counts>)
    ensures
        r.wf(),
        r@ == counts_upto(file_views(files@), files@.len()),
{
    let ghost fs = file_views(files@);
    let mut m: StrMap<Counts> = StrMap::new();
    for i in 0..files.len()
        invariant
            fs == file_views(files@),
            m.wf(),
            m@ == counts_upto(fs, i as nat),
            counts_within(m@, (i * u64::MAX) as nat),
    {
        let f = &files[i];
        assert(fs[i as int] == f@);
        assert(files@.len() == files.len());
        assert(f.occs@.len() == f.occs.len());
        let ghost base = m@;
        let ghost seen = (i * u64::MAX) as nat;
        assert(i * u64::MAX + u64::MAX == (i + 1) * u64::MAX) by (nonlinear_arith);
        assert((i + 1) * u64::MAX < u128::MAX) by (nonlinear_arith)
            requires
                i + 1 <= u64::MAX,
        ;
        for k in 0..f.occs.len()
            invariant
                seen + u64::MAX < u128::MAX,
                m.wf(),
                m@ == counts_in(base, f@.occs, k as nat),
                counts_within(m@, (seen + k) as nat),
        {
            assert(f@.occs[k as int] == f.occs@[k as int]@);
            add_occ(&mut m, &f.occs[k], Ghost((seen + k) as nat));
        }
    }
    m
}

// ---------------------------------------------------------------------------
// Laws

proof fn lemma_page_step_shown(p: PageView, h: HitView, q: QueryView)
    requires
        p.shown <= q.max,
    ensures
        page_step(p, h, q).shown <= q.max,
        p.text.is_prefix_of(page_step(p, h, q).text),
        p.cut is Some ==> page_step(p, h, q) == p,
        p.full ==> page_step(p, h, q) == p,
{
}

/// An answer shows no more hits than were asked for, whatever was found.
pub proof fn law_found_within_max(start: Seq<char>, hs: Seq<HitView>, q: QueryView, n: nat)
    ensures
        pages(start, hs, q, n).shown <= q.max,
        start.is_prefix_of(pages(start, hs, q, n).text),
    decreases n,
{
    if n > 0 {
        law_found_within_max(start, hs, q, (n - 1) as nat);
        lemma_page_step_shown(pages(start, hs, q, (n - 1) as nat), hs[n - 1], q);
    }
}

/// Beyond its first hit, an answer takes no more than its budget.
pub proof fn law_found_within_budget(start: Seq<char>, hs: Seq<HitView>, q: QueryView, n: nat)
    ensures
        pages(start, hs, q, n).shown > 1 ==> pages(start, hs, q, n).used <= q.budget,
    decreases n,
{
    if n > 0 {
        law_found_within_budget(start, hs, q, (n - 1) as nat);
    }
}

/// The hits that are asked for, in order: those with a wanted role among the
/// first `n`.
pub open spec fn wanted_hits(hs: Seq<HitView>, kind: Seq<char>, n: nat) -> nat
    decreases n,
{
    if n == 0 {
        0
    } else {
        wanted_hits(hs, kind, (n - 1) as nat) + (if wants(kind, hs[n - 1].role) {
            1nat
        } else {
            0
        })
    }
}

proof fn lemma_page_index(start: Seq<char>, hs: Seq<HitView>, q: QueryView, n: nat)
    ensures
        ({
            let p = pages(start, hs, q, n);
            &&& p.index <= wanted_hits(hs, q.kind, n)
            &&& p.shown <= p.index
            &&& p.shown == (if p.index >= q.resume_at {
                p.index - q.resume_at
            } else {
                0
            })
            &&& p.cut matches Some(c) ==> c == p.index && p.shown > 0
            &&& p.cut is None && !p.full ==> p.index == wanted_hits(hs, q.kind, n)
        }),
    decreases n,
{
    if n > 0 {
        lemma_page_index(start, hs, q, (n - 1) as nat);
    }
}

/// Answers chain: one that was cut names the hit after the last one that it shows,
/// so the answer that resumes there begins where this one ends; and one that was
/// neither cut nor full has shown every wanted hit from its beginning on.
pub proof fn law_found_resumes_where_it_was_cut(
    start: Seq<char>,
    hs: Seq<HitView>,
    q: QueryView,
)
    ensures
        ({
            let p = pages(start, hs, q, hs.len());
            &&& p.cut matches Some(c) ==> c == q.resume_at + p.shown && p.shown > 0
            &&& p.cut is None && !p.full && wanted_hits(hs, q.kind, hs.len()) >= q.resume_at
                ==> q.resume_at + p.shown == wanted_hits(hs, q.kind, hs.len())
        }),
{
    lemma_page_index(start, hs, q, hs.len());
}

proof fn lemma_tally_split(os: Seq<OccView>, name: Seq<char>, n: nat)
    requires
        n <= os.len(),
    ensures
        tally(os, name, Role::Def, n) + tally(os, name, Role::Call, n) + tally(
            os,
            name,
            Role::Ref,
            n,
        ) <= n,
    decreases n,
{
    if n > 0 {
        lemma_tally_split(os, name, (n - 1) as nat);
    }
}

/// An occurrence is counted in one role only.
pub proof fn law_one_role_each(f: FileView, symbol: Seq<char>)
    ensures
        total(refs_of(f, symbol)) <= f.occs.len(),
{
    lemma_tally_split(f.occs, symbol, f.occs.len());
}

/// Of two hits the earlier one is a definition before a call before a reference,
/// and within a role the path, then the line, decides.
pub proof fn law_hits_are_in_order(hs: Seq<HitView>, i: int, j: int)
    requires
        0 <= i < j < hs.len(),
        forall|k: int| 0 <= k < hs.len() ==> (#[trigger] hs[k]).line <= u64::MAX,
    ensures
        ordered_hits(hs).len() == hs.len(),
        ({
            let a = ordered_hits(hs)[i];
            let b = ordered_hits(hs)[j];
            &&& role_rank(a.role) <= role_rank(b.role)
            &&& a.role == b.role ==> a.rel == b.rel || crate::text::lex_lt(a.rel, b.rel)
            &&& a.role == b.role && a.rel == b.rel ==> a.line <= b.line
        }),
{
    let ks = hit_keys(hs);
    crate::order::lemma_sort_order(ks);
    let p = sort_order(ks)[i];
    let q = sort_order(ks)[j];
    assert(!crate::order::key_lt(ks[q], ks[p]));
    crate::text::lemma_lex_total(hs[p].rel, hs[q].rel);
}

proof fn lemma_refs_bounded(fs: Seq<FileView>, symbol: Seq<char>, n: nat)
    requires
        n <= fs.len(),
        forall|k: int| 0 <= k < fs.len() ==> (#[trigger] fs[k]).occs.len() <= u64::MAX,
    ensures
        forall|i: int|
            0 <= i < refs_upto(fs, symbol, n).len() ==> total(
                #[trigger] refs_upto(fs, symbol, n)[i],
            ) <= u64::MAX,
    decreases n,
{
    if n > 0 {
        lemma_refs_bounded(fs, symbol, (n - 1) as nat);
        law_one_role_each(fs[n - 1], symbol);
        let rest = refs_upto(fs, symbol, (n - 1) as nat);
        assert forall|i: int| 0 <= i < refs_upto(fs, symbol, n).len() implies total(
            #[trigger] refs_upto(fs, symbol, n)[i],
        ) <= u64::MAX by {
            if i < rest.len() {
                assert(refs_upto(fs, symbol, n)[i] == rest[i]);
            }
        }
    }
}

/// Files are ranked by how often they name the symbol, then by path.
pub proof fn law_most_hits_come_first(fs: Seq<FileView>, symbol: Seq<char>, i: int, j: int)
    requires
        forall|k: int| 0 <= k < fs.len() ==> (#[trigger] fs[k]).occs.len() <= u64::MAX,
        0 <= i < j < refs_sorted(fs, symbol).len(),
    ensures
        ({
            let a = refs_sorted(fs, symbol)[i];
            let b = refs_sorted(fs, symbol)[j];
            &&& total(a) >= total(b)
            &&& total(a) == total(b) ==> a.rel == b.rel || crate::text::lex_lt(a.rel, b.rel)
        }),
{
    let rs = refs_upto(fs, symbol, fs.len());
    lemma_refs_bounded(fs, symbol, fs.len());
    let ks = refs_keys(rs);
    crate::order::lemma_sort_order(ks);
    let p = sort_order(ks)[i];
    let q = sort_order(ks)[j];
    assert(total(rs[p]) <= u64::MAX && total(rs[q]) <= u64::MAX);
    assert(!crate::order::key_lt(ks[q], ks[p]));
    crate::text::lemma_lex_total(rs[p].rel, rs[q].rel);
}

} // verus!

//! The roles of names, read off the syntax tree: what is defined, what is called, and
//! what is only referred to.
use vstd::prelude::*;
use crate::lang::Lang;
use crate::symbol_refs::{
    binds_function, cpp_top, occs_upto, role_at, rust_top, under, under_two, OccView, Role,
};
use crate::syntax::{
    between, child, parent, SyntaxView, ATTRIBUTE, DECLARATOR, FIELD, FUNCTION, MACRO, NAME,
    PROPERTY, VALUE,
};

verus! {

/// Whether node `p` is the node above node `i`: the last one before it that is less
/// deep.
pub open spec fn lies_under(ns: Seq<SyntaxView>, i: int, p: int) -> bool {
    &&& 0 <= p < i < ns.len()
    &&& ns[p].depth < ns[i].depth
    &&& forall|k: int| p < k < i ==> (#[trigger] ns[k]).depth >= ns[i].depth
}

/// Whether node `i` is the part of that number of the node `p` above it.
pub open spec fn is_the(ns: Seq<SyntaxView>, i: int, part: int, p: int) -> bool {
    lies_under(ns, i, p) && 0 <= part < ns[i].parts.len() && ns[i].parts[part]
}

/// Whether node `i` is a part of a node of a kind.
pub open spec fn part_in(ns: Seq<SyntaxView>, i: int, part: int, kind: Seq<char>) -> bool {
    exists|p: int| #[trigger] is_the(ns, i, part, p) && ns[p].kind == kind
}

/// Whether node `i` is a part of a node of a kind that is a part of a node of another.
pub open spec fn part_in_part(
    ns: Seq<SyntaxView>,
    i: int,
    part: int,
    kind: Seq<char>,
    outer_part: int,
    outer: Seq<char>,
) -> bool {
    exists|p: int|
        #[trigger] is_the(ns, i, part, p) && ns[p].kind == kind && part_in(
            ns,
            p,
            outer_part,
            outer,
        )
}

/// A node has at most one node above it, and the library finds it.
pub proof fn lemma_above_is_found(ns: Seq<SyntaxView>, i: int, p: int)
    requires
        0 <= i < ns.len(),
    ensures
        parent(ns, i) == Some(p) <==> lies_under(ns, i, p),
{
    lemma_above(ns, i, i, ns[i].depth);
    if lies_under(ns, i, p) && parent(ns, i) != Some(p) {
        match parent(ns, i) {
            Some(q) => {
                if q < p {
                    assert(ns[p].depth >= ns[i].depth);
                } else {
                    assert(ns[q].depth >= ns[i].depth);
                }
            },
            None => {
                assert(ns[p].depth >= ns[i].depth);
            },
        }
    }
}

proof fn lemma_above(ns: Seq<SyntaxView>, i: int, j: int, d: nat)
    requires
        0 <= j <= i < ns.len(),
        d == ns[i].depth,
        forall|k: int| j <= k < i ==> (#[trigger] ns[k]).depth >= d,
    ensures
        match crate::syntax::above(ns, j, d) {
            Some(p) => lies_under(ns, i, p),
            None => forall|k: int| 0 <= k < i ==> (#[trigger] ns[k]).depth >= d,
        },
    decreases j,
{
    if j > 0 && ns[j - 1].depth >= d {
        lemma_above(ns, i, j - 1, d);
    }
}

proof fn lemma_under(ns: Seq<SyntaxView>, i: int, kind: Seq<char>, part: usize)
    requires
        0 <= i < ns.len(),
    ensures
        under(ns, i, kind, part) == part_in(ns, i, part as int, kind),
        parent(ns, i) matches Some(p) ==> lies_under(ns, i, p),
        forall|p: int| #[trigger] lies_under(ns, i, p) ==> parent(ns, i) == Some(p),
{
    assert forall|p: int| #[trigger] lies_under(ns, i, p) implies parent(ns, i) == Some(p) by {
        lemma_above_is_found(ns, i, p);
    }
    if let Some(p) = parent(ns, i) {
        lemma_above_is_found(ns, i, p);
        if under(ns, i, kind, part) {
            assert(is_the(ns, i, part as int, p));
        }
    }
    if part_in(ns, i, part as int, kind) {
        let p = choose|p: int| #[trigger] is_the(ns, i, part as int, p) && ns[p].kind == kind;
        lemma_above_is_found(ns, i, p);
    }
}

proof fn lemma_under_two(
    ns: Seq<SyntaxView>,
    i: int,
    kind: Seq<char>,
    part: usize,
    outer: Seq<char>,
    outer_part: usize,
)
    requires
        0 <= i < ns.len(),
    ensures
        under_two(ns, i, kind, part, outer, outer_part) == part_in_part(
            ns,
            i,
            part as int,
            kind,
            outer_part as int,
            outer,
        ),
{
    lemma_under(ns, i, kind, part);
    if let Some(p) = parent(ns, i) {
        lemma_under(ns, p, outer, outer_part);
        if under_two(ns, i, kind, part, outer, outer_part) {
            assert(is_the(ns, i, part as int, p));
        }
    }
    if part_in_part(ns, i, part as int, kind, outer_part as int, outer) {
        let p = choose|p: int|
            #[trigger] is_the(ns, i, part as int, p) && ns[p].kind == kind && part_in(
                ns,
                p,
                outer_part as int,
                outer,
            );
        assert(lies_under(ns, i, p));
        lemma_under(ns, p, outer, outer_part);
    }
}

// ---------------------------------------------------------------------------
// Python

/// In Python the name in a `def` or a `class` is a definition. What is called, be it a
/// name or the attribute of something, is a call. Everything else is a reference.
pub proof fn law_python_roles(ns: Seq<SyntaxView>, i: int)
    requires
        0 <= i < ns.len(),
    ensures
        ({
            let r = role_at(Lang::Python, ns, i);
            let defines = part_in(ns, i, 0, "class_definition"@) || part_in(
                ns,
                i,
                0,
                "function_definition"@,
            );
            let called = part_in(ns, i, 3, "call"@) || part_in_part(
                ns,
                i,
                7,
                "attribute"@,
                3,
                "call"@,
            );
            &&& r == Role::Def <==> defines
            &&& r == Role::Call <==> !defines && called
            &&& r == Role::Ref <==> !defines && !called
        }),
{
    lemma_under(ns, i, "class_definition"@, NAME);
    lemma_under(ns, i, "function_definition"@, NAME);
    lemma_under(ns, i, "call"@, FUNCTION);
    lemma_under_two(ns, i, "attribute"@, ATTRIBUTE, "call"@, FUNCTION);
}

// ---------------------------------------------------------------------------
// TypeScript

/// Whether the value of node `p` is a function: the first node right below it that is
/// its value.
pub open spec fn holds_function(ns: Seq<SyntaxView>, p: int) -> bool {
    exists|v: int|
        #[trigger] first_part(ns, p, 2, v) && (ns[v].kind == "arrow_function"@ || ns[v].kind
            == "function"@ || ns[v].kind == "function_expression"@)
}

/// Whether `c` is the first node right below `p` that is the part of that number.
pub open spec fn first_part(ns: Seq<SyntaxView>, p: int, part: int, c: int) -> bool {
    &&& 0 <= p < c < ns.len()
    &&& ns[c].depth == ns[p].depth + 1
    &&& 0 <= part < ns[c].parts.len() && ns[c].parts[part]
    &&& forall|k: int| p < k < c ==> (#[trigger] ns[k]).depth > ns[p].depth
    &&& forall|k: int|
        p < k < c ==> !((#[trigger] ns[k]).depth == ns[p].depth + 1 && part < ns[k].parts.len()
            && ns[k].parts[part])
}

proof fn lemma_first_part(ns: Seq<SyntaxView>, p: int, part: usize, j: int)
    requires
        0 <= p < j,
        forall|k: int| p < k < j && k < ns.len() ==> (#[trigger] ns[k]).depth > ns[p].depth,
        forall|k: int|
            p < k < j && k < ns.len() ==> !((#[trigger] ns[k]).depth == ns[p].depth + 1 && part
                < ns[k].parts.len() && ns[k].parts[part as int]),
    ensures
        match crate::syntax::part_from(ns, p, part, j) {
            Some(c) => first_part(ns, p, part as int, c),
            None => forall|c: int| !#[trigger] first_part(ns, p, part as int, c),
        },
    decreases ns.len() - j,
{
    if !(j < 0 || j >= ns.len() || ns[j].depth <= ns[p].depth) && !(ns[j].depth == ns[p].depth + 1
        && crate::syntax::plays(ns[j], part)) {
        lemma_first_part(ns, p, part, j + 1);
    } else if j < ns.len() && ns[j].depth <= ns[p].depth {
        assert forall|c: int| !#[trigger] first_part(ns, p, part as int, c) by {
            if first_part(ns, p, part as int, c) && j < c {
                assert(ns[j].depth > ns[p].depth);
            }
        }
    }
}

/// The child that plays a part is the first one that does.
pub proof fn lemma_child(ns: Seq<SyntaxView>, p: int, part: usize)
    requires
        0 <= p,
    ensures
        match child(ns, p, part) {
            Some(c) => first_part(ns, p, part as int, c),
            None => forall|c: int| !#[trigger] first_part(ns, p, part as int, c),
        },
        forall|c: int| #[trigger] first_part(ns, p, part as int, c) ==> child(ns, p, part) == Some(
            c,
        ),
{
    lemma_first_part(ns, p, part, p + 1);
    assert forall|c: int| #[trigger] first_part(ns, p, part as int, c) implies child(ns, p, part)
        == Some(c) by {
        let d = child(ns, p, part)->Some_0;
        if d < c {
            assert(ns[d].depth == ns[p].depth + 1);
        } else if c < d {
            assert(ns[c].depth == ns[p].depth + 1);
        }
    }
}

proof fn lemma_binds(ns: Seq<SyntaxView>, p: int)
    requires
        0 <= p,
    ensures
        binds_function(ns, p) == holds_function(ns, p),
{
    lemma_child(ns, p, VALUE);
    if let Some(v) = child(ns, p, VALUE) {
        assert(first_part(ns, p, 2, v));
    }
}

/// Whether node `i` names something that is bound to a function.
pub open spec fn names_a_function_value(ns: Seq<SyntaxView>, i: int) -> bool {
    exists|p: int|
        #[trigger] is_the(ns, i, 0, p) && (ns[p].kind == "variable_declarator"@ || ns[p].kind
            == "public_field_definition"@) && holds_function(ns, p)
}

/// The declarations of TypeScript that define their name.
pub open spec fn ts_declaration(k: Seq<char>) -> bool {
    ||| k == "class_declaration"@
    ||| k == "abstract_class_declaration"@
    ||| k == "interface_declaration"@
    ||| k == "type_alias_declaration"@
    ||| k == "enum_declaration"@
    ||| k == "function_declaration"@
    ||| k == "generator_function_declaration"@
    ||| k == "function_signature"@
    ||| k == "method_definition"@
    ||| k == "abstract_method_signature"@
}

/// Whether node `i` is the name of a TypeScript declaration.
pub open spec fn ts_names(ns: Seq<SyntaxView>, i: int) -> bool {
    exists|p: int| #[trigger] is_the(ns, i, 0, p) && ts_declaration(ns[p].kind)
}

/// In TypeScript, TSX and Svelte the name of a declaration is a definition, and so is a
/// name that is bound to a function. What is called, be it a name or the property of
/// something, is a call. Everything else is a reference.
pub proof fn law_typescript_roles(lang: Lang, ns: Seq<SyntaxView>, i: int)
    requires
        0 <= i < ns.len(),
        lang == Lang::Ts || lang == Lang::Tsx || lang == Lang::Svelte,
    ensures
        ({
            let r = role_at(lang, ns, i);
            let defines = ts_names(ns, i) || names_a_function_value(ns, i);
            let called = part_in(ns, i, 3, "call_expression"@) || (ns[i].kind
                == "property_identifier"@ && part_in_part(
                ns,
                i,
                6,
                "member_expression"@,
                3,
                "call_expression"@,
            ));
            &&& r == Role::Def <==> defines
            &&& r == Role::Call <==> !defines && called
            &&& r == Role::Ref <==> !defines && !called
        }),
{
    lemma_under(ns, i, "class_declaration"@, NAME);
    lemma_under(ns, i, "call_expression"@, FUNCTION);
    lemma_under_two(ns, i, "member_expression"@, PROPERTY, "call_expression"@, FUNCTION);
    if let Some(p) = parent(ns, i) {
        lemma_binds(ns, p);
        if crate::syntax::plays(ns[i], NAME) {
            assert(is_the(ns, i, 0, p));
        }
    }
    if ts_names(ns, i) {
        let p = choose|p: int| #[trigger] is_the(ns, i, 0, p) && ts_declaration(ns[p].kind);
        assert(lies_under(ns, i, p));
    }
    if names_a_function_value(ns, i) {
        let p = choose|p: int|
            #[trigger] is_the(ns, i, 0, p) && (ns[p].kind == "variable_declarator"@ || ns[p].kind
                == "public_field_definition"@) && holds_function(ns, p);
        assert(lies_under(ns, i, p));
    }
}

// ---------------------------------------------------------------------------
// C#

/// The declarations of C# that define their name.
pub open spec fn csharp_declaration(k: Seq<char>) -> bool {
    ||| k == "class_declaration"@
    ||| k == "struct_declaration"@
    ||| k == "interface_declaration"@
    ||| k == "enum_declaration"@
    ||| k == "record_declaration"@
    ||| k == "record_struct_declaration"@
    ||| k == "method_declaration"@
    ||| k == "constructor_declaration"@
    ||| k == "destructor_declaration"@
    ||| k == "property_declaration"@
    ||| k == "indexer_declaration"@
    ||| k == "delegate_declaration"@
    ||| k == "namespace_declaration"@
    ||| k == "file_scoped_namespace_declaration"@
}

/// Whether node `i` is the name of a C# declaration.
pub open spec fn csharp_names(ns: Seq<SyntaxView>, i: int) -> bool {
    exists|p: int| #[trigger] is_the(ns, i, 0, p) && csharp_declaration(ns[p].kind)
}

/// In C# the name of a declaration is a definition. What is invoked, be it a name or a
/// member of something, is a call. Everything else is a reference.
pub proof fn law_csharp_roles(ns: Seq<SyntaxView>, i: int)
    requires
        0 <= i < ns.len(),
    ensures
        ({
            let r = role_at(Lang::CSharp, ns, i);
            let defines = csharp_names(ns, i);
            let called = part_in(ns, i, 3, "invocation_expression"@) || part_in_part(
                ns,
                i,
                0,
                "member_access_expression"@,
                3,
                "invocation_expression"@,
            );
            &&& r == Role::Def <==> defines
            &&& r == Role::Call <==> !defines && called
            &&& r == Role::Ref <==> !defines && !called
        }),
{
    lemma_under(ns, i, "class_declaration"@, NAME);
    lemma_under(ns, i, "invocation_expression"@, FUNCTION);
    lemma_under_two(ns, i, "member_access_expression"@, NAME, "invocation_expression"@, FUNCTION);
    if let Some(p) = parent(ns, i) {
        if crate::syntax::plays(ns[i], NAME) {
            assert(is_the(ns, i, 0, p));
        }
    }
    if csharp_names(ns, i) {
        let p = choose|p: int| #[trigger] is_the(ns, i, 0, p) && csharp_declaration(ns[p].kind);
        assert(lies_under(ns, i, p));
    }
}

// ---------------------------------------------------------------------------
// C, C++ and GLSL

/// The wrappers of a C++ name: qualifiers and templates.
pub open spec fn cpp_wrapper(k: Seq<char>) -> bool {
    k == "qualified_identifier"@ || k == "template_function"@ || k == "template_type"@
}

/// Whether node `i` is the name in a wrapper `p`.
pub open spec fn cpp_wrapped(ns: Seq<SyntaxView>, i: int, p: int) -> bool {
    is_the(ns, i, 0, p) && cpp_wrapper(ns[p].kind)
}

/// Nodes of which each is the name in the next one, and the last is wrapped no more.
pub open spec fn cpp_chain(ns: Seq<SyntaxView>, c: Seq<int>) -> bool {
    &&& c.len() > 0
    &&& forall|k: int|
        0 <= k < c.len() - 1 ==> cpp_wrapped(ns, #[trigger] c[k], c[k + 1])
    &&& forall|p: int| !#[trigger] cpp_wrapped(ns, c.last(), p)
}

/// The kinds of records and enumerations, which define their name.
pub open spec fn cpp_type_kind(k: Seq<char>) -> bool {
    k == "class_specifier"@ || k == "struct_specifier"@ || k == "union_specifier"@ || k
        == "enum_specifier"@
}

/// Whether node `i` is the name of a record or an enumeration.
pub open spec fn cpp_names_type(ns: Seq<SyntaxView>, i: int) -> bool {
    ns[i].kind == "type_identifier"@ && exists|p: int|
        #[trigger] is_the(ns, i, 0, p) && cpp_type_kind(ns[p].kind)
}

proof fn lemma_cpp_chain(ns: Seq<SyntaxView>, c: Seq<int>)
    requires
        cpp_chain(ns, c),
        0 <= c[0] < ns.len(),
    ensures
        cpp_top(ns, c[0]) == c.last(),
        0 <= c.last() < ns.len(),
    decreases c.len(),
{
    let i = c[0];
    lemma_under(ns, i, "qualified_identifier"@, NAME);
    if c.len() == 1 {
        if let Some(p) = parent(ns, i) {
            if crate::syntax::plays(ns[i], NAME) && cpp_wrapper(ns[p].kind) {
                assert(cpp_wrapped(ns, i, p));
            }
        }
    } else {
        assert(cpp_wrapped(ns, c[0], c[1]));
        assert(lies_under(ns, i, c[1]));
        let t = c.drop_first();
        assert(t.last() == c.last());
        assert forall|k: int| 0 <= k < t.len() - 1 implies cpp_wrapped(
            ns,
            #[trigger] t[k],
            t[k + 1],
        ) by {
            assert(cpp_wrapped(ns, c[k + 1], c[k + 2]));
        }
        lemma_cpp_chain(ns, t);
    }
}

/// In C, C++ and GLSL the name of a record or an enumeration is a definition. So is a
/// name that, with its qualifiers and templates around it, is what a function
/// declarator declares. What is called is a call, be it such a name or the field of
/// something. Everything else is a reference. The nodes of `c` lead from the name to
/// the outermost of its wrappers.
pub proof fn law_cpp_roles(lang: Lang, ns: Seq<SyntaxView>, c: Seq<int>)
    requires
        lang == Lang::Cpp || lang == Lang::Glsl || lang == Lang::Daslang,
        cpp_chain(ns, c),
        0 <= c[0] < ns.len(),
    ensures
        ({
            let i = c[0];
            let r = role_at(lang, ns, i);
            let record = cpp_names_type(ns, i);
            let method = part_in_part(ns, i, 5, "field_expression"@, 3, "call_expression"@);
            let declared = part_in(ns, c.last(), 4, "function_declarator"@);
            let called = part_in(ns, c.last(), 3, "call_expression"@);
            &&& r == Role::Def <==> record || (!method && declared)
            &&& r == Role::Call <==> !record && (method || (!declared && called))
            &&& r == Role::Ref <==> !record && !method && !declared && !called
        }),
{
    let i = c[0];
    lemma_cpp_chain(ns, c);
    lemma_under(ns, i, "class_specifier"@, NAME);
    lemma_under_two(ns, i, "field_expression"@, FIELD, "call_expression"@, FUNCTION);
    lemma_under(ns, c.last(), "function_declarator"@, DECLARATOR);
    lemma_under(ns, c.last(), "call_expression"@, FUNCTION);
    if let Some(p) = parent(ns, i) {
        if crate::syntax::plays(ns[i], NAME) {
            assert(is_the(ns, i, 0, p));
        }
    }
    if cpp_names_type(ns, i) {
        let p = choose|p: int| #[trigger] is_the(ns, i, 0, p) && cpp_type_kind(ns[p].kind);
        assert(lies_under(ns, i, p));
    }
}

// ---------------------------------------------------------------------------
// Rust

/// Whether node `i` is the name in a path, or what a turbofish is put behind.
pub open spec fn rust_wrapped(ns: Seq<SyntaxView>, i: int, p: int) -> bool {
    (is_the(ns, i, 0, p) && ns[p].kind == "scoped_identifier"@) || (is_the(ns, i, 3, p)
        && ns[p].kind == "generic_function"@)
}

/// Nodes of which each is wrapped in the next one, and the last is wrapped no more.
pub open spec fn rust_chain(ns: Seq<SyntaxView>, c: Seq<int>) -> bool {
    &&& c.len() > 0
    &&& forall|k: int|
        0 <= k < c.len() - 1 ==> rust_wrapped(ns, #[trigger] c[k], c[k + 1])
    &&& forall|p: int| !#[trigger] rust_wrapped(ns, c.last(), p)
}

/// Whether node `i` is the name of a Rust item.
pub open spec fn rust_names(ns: Seq<SyntaxView>, i: int) -> bool {
    exists|p: int|
        #[trigger] is_the(ns, i, 0, p) && ((ns[i].kind == "type_identifier"@ && (ns[p].kind
            == "struct_item"@ || ns[p].kind == "enum_item"@ || ns[p].kind == "union_item"@
            || ns[p].kind == "trait_item"@ || ns[p].kind == "type_item"@)) || (ns[i].kind
            == "identifier"@ && (ns[p].kind == "function_item"@ || ns[p].kind == "const_item"@
            || ns[p].kind == "static_item"@)))
}

proof fn lemma_rust_chain(ns: Seq<SyntaxView>, c: Seq<int>)
    requires
        rust_chain(ns, c),
        0 <= c[0] < ns.len(),
    ensures
        rust_top(ns, c[0]) == c.last(),
        0 <= c.last() < ns.len(),
    decreases c.len(),
{
    let i = c[0];
    lemma_under(ns, i, "scoped_identifier"@, NAME);
    lemma_under(ns, i, "generic_function"@, FUNCTION);
    if c.len() == 1 {
        if let Some(p) = parent(ns, i) {
            if under(ns, i, "scoped_identifier"@, NAME) || under(
                ns,
                i,
                "generic_function"@,
                FUNCTION,
            ) {
                assert(rust_wrapped(ns, i, p));
            }
        }
    } else {
        assert(rust_wrapped(ns, c[0], c[1]));
        assert(lies_under(ns, i, c[1]));
        let t = c.drop_first();
        assert(t.last() == c.last());
        assert forall|k: int| 0 <= k < t.len() - 1 implies rust_wrapped(
            ns,
            #[trigger] t[k],
            t[k + 1],
        ) by {
            assert(rust_wrapped(ns, c[k + 1], c[k + 2]));
        }
        lemma_rust_chain(ns, t);
    }
}

/// In Rust the name of an item is a definition. A name that, with its path and its
/// turbofish around it, is what a call calls or a macro invocation invokes is a call, and
/// so is the field that a method call calls. Everything else is a reference. The nodes of
/// `c` lead from the name to the outermost of its wrappers.
pub proof fn law_rust_roles(ns: Seq<SyntaxView>, c: Seq<int>)
    requires
        rust_chain(ns, c),
        0 <= c[0] < ns.len(),
    ensures
        ({
            let i = c[0];
            let r = role_at(Lang::Rust, ns, i);
            let defines = rust_names(ns, i);
            let called = (ns[i].kind == "field_identifier"@ && part_in_part(
                ns,
                i,
                5,
                "field_expression"@,
                3,
                "call_expression"@,
            )) || part_in(ns, c.last(), 3, "call_expression"@) || part_in(
                ns,
                c.last(),
                8,
                "macro_invocation"@,
            );
            &&& r == Role::Def <==> defines
            &&& r == Role::Call <==> !defines && called
            &&& r == Role::Ref <==> !defines && !called
        }),
{
    let i = c[0];
    lemma_rust_chain(ns, c);
    lemma_under(ns, i, "struct_item"@, NAME);
    lemma_under_two(ns, i, "field_expression"@, FIELD, "call_expression"@, FUNCTION);
    lemma_under(ns, c.last(), "call_expression"@, FUNCTION);
    lemma_under(ns, c.last(), "macro_invocation"@, MACRO);
    if let Some(p) = parent(ns, i) {
        if crate::syntax::plays(ns[i], NAME) {
            assert(is_the(ns, i, 0, p));
        }
    }
    if rust_names(ns, i) {
        let p = choose|p: int| #[trigger] is_the(ns, i, 0, p) && (ns[i].kind == "type_identifier"@
            || ns[i].kind == "identifier"@) && ((ns[i].kind == "type_identifier"@ && (ns[p].kind
            == "struct_item"@ || ns[p].kind == "enum_item"@ || ns[p].kind == "union_item"@
            || ns[p].kind == "trait_item"@ || ns[p].kind == "type_item"@)) || (ns[i].kind
            == "identifier"@ && (ns[p].kind == "function_item"@ || ns[p].kind == "const_item"@
            || ns[p].kind == "static_item"@)));
        assert(lies_under(ns, i, p));
    }
}

// ---------------------------------------------------------------------------
// Occurrences

/// The kinds of nodes that are names in a language.
pub open spec fn name_node(lang: Lang, k: Seq<char>) -> bool {
    match lang {
        Lang::Rust => k == "identifier"@ || k == "field_identifier"@ || k == "type_identifier"@
            || k == "scoped_identifier"@,
        Lang::Python => k == "identifier"@,
        Lang::Ts | Lang::Tsx | Lang::Svelte => k == "identifier"@ || k == "property_identifier"@
            || k == "type_identifier"@,
        Lang::CSharp => k == "identifier"@,
        _ => k == "identifier"@ || k == "field_identifier"@ || k == "type_identifier"@ || k
            == "namespace_identifier"@ || k == "qualified_identifier"@,
    }
}

/// Every name in a source is an occurrence, with the text, the role and the line of its
/// node.
pub proof fn law_names_occur(lang: Lang, ns: Seq<SyntaxView>, src: Seq<char>, i: int)
    requires
        0 <= i < ns.len(),
        name_node(lang, ns[i].kind),
        between(src, ns[i].start, ns[i].end).len() > 0,
    ensures
        occs_upto(lang, ns, src, ns.len()).contains(
            OccView {
                name: between(src, ns[i].start, ns[i].end),
                role: role_at(lang, ns, i),
                line: ns[i].row + 1,
            },
        ),
{
    reveal_strlit("generic_name");
    reveal_strlit("identifier");
    assert("generic_name"@.len() == 12 && "identifier"@.len() == 10);
    lemma_occurs(lang, ns, src, i, ns.len());
}

proof fn lemma_occurs(lang: Lang, ns: Seq<SyntaxView>, src: Seq<char>, i: int, n: nat)
    requires
        0 <= i < n <= ns.len(),
        crate::symbol_refs::occ_at(lang, ns, i, src) is Some,
    ensures
        occs_upto(lang, ns, src, n).contains(
            crate::symbol_refs::occ_at(lang, ns, i, src)->Some_0,
        ),
    decreases n,
{
    let o = crate::symbol_refs::occ_at(lang, ns, i, src)->Some_0;
    let v = occs_upto(lang, ns, src, n);
    if i == n - 1 {
        assert(v[v.len() - 1] == o);
    } else {
        lemma_occurs(lang, ns, src, i, (n - 1) as nat);
        let w = occs_upto(lang, ns, src, (n - 1) as nat);
        let k = choose|k: int| 0 <= k < w.len() && w[k] == o;
        assert(v[k] == o);
    }
}

/// Every occurrence stands at a node: it is a name of the language or, in C, C++ and
/// GLSL, the name that a call gives to a system or a zone; that one is a definition. The
/// occurrences come in the order of the nodes, one for each.
pub proof fn law_occurrences_are_names(lang: Lang, ns: Seq<SyntaxView>, src: Seq<char>, n: nat)
    -> (places: Seq<int>)
    requires
        n <= ns.len(),
    ensures
        places.len() == occs_upto(lang, ns, src, n).len(),
        forall|k: int| 0 <= k < places.len() ==> 0 <= #[trigger] places[k] < n,
        forall|k: int, m: int|
            0 <= k < m < places.len() ==> #[trigger] places[k] < #[trigger] places[m],
        forall|k: int|
            0 <= k < places.len() ==> {
                let o = #[trigger] occs_upto(lang, ns, src, n)[k];
                let j = places[k];
                &&& o.name.len() > 0
                &&& o.line == ns[j].row + 1
                &&& if name_node(lang, ns[j].kind) {
                    o.name == between(src, ns[j].start, ns[j].end) && o.role == role_at(lang, ns, j)
                } else if lang == Lang::CSharp {
                    ns[j].kind == "generic_name"@ && o.role == role_at(lang, ns, j)
                } else {
                    (lang == Lang::Cpp || lang == Lang::Glsl || lang == Lang::Daslang) && ns[j].kind
                        == "call_expression"@ && o.role == Role::Def
                }
            },
    decreases n,
{
    if n == 0 {
        Seq::empty()
    } else {
        let m = (n - 1) as nat;
        let rest = law_occurrences_are_names(lang, ns, src, m);
        let v = occs_upto(lang, ns, src, m);
        let w = occs_upto(lang, ns, src, n);
        let places = match crate::symbol_refs::occ_at(lang, ns, m as int, src) {
            Some(_) => rest.push(m as int),
            None => rest,
        };
        reveal_strlit("generic_name");
        reveal_strlit("identifier");
        assert("generic_name"@.len() == 12 && "identifier"@.len() == 10);
        assert forall|k: int| 0 <= k < places.len() implies {
            let o = #[trigger] w[k];
            let j = places[k];
            &&& o.name.len() > 0
            &&& o.line == ns[j].row + 1
            &&& if name_node(lang, ns[j].kind) {
                o.name == between(src, ns[j].start, ns[j].end) && o.role == role_at(lang, ns, j)
            } else if lang == Lang::CSharp {
                ns[j].kind == "generic_name"@ && o.role == role_at(lang, ns, j)
            } else {
                (lang == Lang::Cpp || lang == Lang::Glsl || lang == Lang::Daslang) && ns[j].kind
                    == "call_expression"@ && o.role == Role::Def
            }
        } by {
            if k < rest.len() {
                assert(w[k] == v[k]);
            }
        }
        places
    }
}

} // verus!

//! Definitions: their names, signatures, documentation, bodies and line spans.
//!
//! A query agrees with a name if they are the same or if their last `::` segments
//! are.
use vstd::prelude::*;
use crate::lang::Lang;
use crate::symbol_refs::{binds_function, child_kind, child_of_kind, is_function_binding};
use crate::syntax::{
    between, child, child_of, kind_is, node_text, parent, parse_prepared, place, previous,
    previous_of, source_nodes, subtree_end, text_of, Nodes, Source, SyntaxNode, SyntaxView,
    BODY, DECLARATOR, NAME, VALUE,
};
use crate::text::{
    blen, capped, contains, copy, count_up, holds, is_blank, lines, lines_of, same, size,
    slice, squeeze, squeezed, starts, starts_with, strip_end, strip_start, stripped_end,
    stripped_start, strs, to_chars,
    trim, trim_end_of, trim_of, trim_start_by, trim_start_of, trimmed, trimmed_end_of, trimmed_of,
    trimmed_start_of,
};

verus! {

/// What a definition defines.
#[derive(Clone, Copy, PartialEq, Eq, Debug, Structural)]
pub enum DefKind {
    Function,
    Record,
    Other,
}

impl DefKind {
    pub open spec fn text(self) -> Seq<char> {
        match self {
            DefKind::Function => "function"@,
            DefKind::Record => "record"@,
            DefKind::Other => "symbol"@,
        }
    }

    pub fn label(self) -> (r: &'static str)
        ensures
            r@ == self.text(),
    {
        match self {
            DefKind::Function => "function",
            DefKind::Record => "record",
            DefKind::Other => "symbol",
        }
    }
}

/// What a definition yields. Lines are counted from one; the body is filled in
/// only where it is asked for.
pub struct DefInfo {
    pub rel: String,
    pub line: u64,
    pub end_line: u64,
    pub kind: DefKind,
    pub name: String,
    pub signature: String,
    pub doc: Vec<String>,
    pub body: String,
}

/// The values of a [`DefInfo`].
pub struct InfoView {
    pub rel: Seq<char>,
    pub line: nat,
    pub end_line: nat,
    pub kind: DefKind,
    pub name: Seq<char>,
    pub signature: Seq<char>,
    pub doc: Seq<Seq<char>>,
    pub body: Seq<char>,
}

impl View for DefInfo {
    type V = InfoView;

    open spec fn view(&self) -> InfoView {
        InfoView {
            rel: self.rel@,
            line: self.line as nat,
            end_line: self.end_line as nat,
            kind: self.kind,
            name: self.name@,
            signature: self.signature@,
            doc: strs(self.doc@),
            body: self.body@,
        }
    }
}

/// The lines of a function or method.
pub struct Span {
    pub name: String,
    pub start: u64,
    pub end: u64,
    pub signature: String,
}

/// The values of a [`Span`].
pub struct SpanView {
    pub name: Seq<char>,
    pub start: nat,
    pub end: nat,
    pub signature: Seq<char>,
}

impl View for Span {
    type V = SpanView;

    open spec fn view(&self) -> SpanView {
        SpanView {
            name: self.name@,
            start: self.start as nat,
            end: self.end as nat,
            signature: self.signature@,
        }
    }
}

pub open spec fn span_views(v: Seq<Span>) -> Seq<SpanView> {
    Seq::new(v.len(), |i: int| v[i]@)
}

/// A definition without its body: whether it is documented and exported.
pub struct DefBrief {
    pub name: String,
    pub kind: DefKind,
    pub line: u64,
    pub signature: String,
    pub has_doc: bool,
    pub exported: bool,
}

/// The values of a [`DefBrief`].
pub struct BriefView {
    pub name: Seq<char>,
    pub kind: DefKind,
    pub line: nat,
    pub signature: Seq<char>,
    pub has_doc: bool,
    pub exported: bool,
}

impl View for DefBrief {
    type V = BriefView;

    open spec fn view(&self) -> BriefView {
        BriefView {
            name: self.name@,
            kind: self.kind,
            line: self.line as nat,
            signature: self.signature@,
            has_doc: self.has_doc,
            exported: self.exported,
        }
    }
}

pub open spec fn brief_views(v: Seq<DefBrief>) -> Seq<BriefView> {
    Seq::new(v.len(), |i: int| v[i]@)
}

// ---------------------------------------------------------------------------
// Names

/// The text of the child that plays a part.
pub open spec fn child_text(ns: Seq<SyntaxView>, i: int, part: usize, src: Seq<char>) -> Option<
    Seq<char>,
> {
    match child(ns, i, part) {
        Some(c) => Some(node_text(ns[c], src)),
        None => None,
    }
}

pub fn text_of_child(t: &Nodes, i: usize, part: usize, src: &Source) -> (r: Option<String>)
    requires
        i < t.nodes@.len(),
        src.wf(),
    ensures
        match r {
            Some(s) => child_text(t@, i as int, part, src@) == Some(s@),
            None => child_text(t@, i as int, part, src@) is None,
        },
{
    match child_of(&t.nodes, i, part) {
        Some(c) => {
            assert(t@[c as int] == t.nodes@[c as int]@);
            Some(text_of(&t.nodes[c], src))
        },
        None => None,
    }
}

/// The first node of a kind from `j` up to `e`.
pub open spec fn first_of_kind(ns: Seq<SyntaxView>, kind: Seq<char>, j: int, e: int) -> Option<int>
    decreases e - j,
{
    if j < 0 || j >= e || j >= ns.len() {
        None
    } else if ns[j].kind == kind {
        Some(j)
    } else {
        first_of_kind(ns, kind, j + 1, e)
    }
}

/// The name that a function definition in C or C++ declares: the declarator of the
/// first function declarator within its own.
pub open spec fn cpp_function_name(ns: Seq<SyntaxView>, i: int, src: Seq<char>) -> Option<
    Seq<char>,
> {
    match child(ns, i, DECLARATOR) {
        None => None,
        Some(d) => match first_of_kind(
            ns,
            "function_declarator"@,
            d,
            subtree_end(ns, d, ns.len() as int),
        ) {
            None => None,
            Some(f) => child_text(ns, f, DECLARATOR, src),
        },
    }
}

fn find_cpp_function_name(t: &Nodes, i: usize, src: &Source) -> (r: Option<String>)
    requires
        i < t.nodes@.len(),
        src.wf(),
    ensures
        match r {
            Some(s) => cpp_function_name(t@, i as int, src@) == Some(s@),
            None => cpp_function_name(t@, i as int, src@) is None,
        },
{
    let d: usize = match child_of(&t.nodes, i, DECLARATOR) {
        Some(d) => d,
        None => {
            return None;
        },
    };
    let e: usize = crate::syntax::find_end(&t.nodes, d, t.nodes.len());
    let mut j: usize = d;
    while j < e
        invariant
            d <= j <= e <= t.nodes@.len(),
            src.wf(),
            i < t.nodes@.len(),
            child(t@, i as int, DECLARATOR) == Some(d as int),
            e == subtree_end(t@, d as int, t@.len() as int),
            first_of_kind(t@, "function_declarator"@, d as int, e as int) == first_of_kind(
                t@,
                "function_declarator"@,
                j as int,
                e as int,
            ),
        decreases e - j,
    {
        assert(t@[j as int] == t.nodes@[j as int]@);
        if kind_is(&t.nodes[j], "function_declarator") {
            return text_of_child(t, j, DECLARATOR, src);
        }
        j = j + 1;
    }
    None
}

pub open spec fn named(name: Option<Seq<char>>, kind: DefKind) -> Option<(Seq<char>, DefKind)> {
    match name {
        Some(n) => Some((n, kind)),
        None => None,
    }
}

/// The name and the kind of the definition at node `i`, if there is one. A record
/// in C or C++ needs a body.
pub open spec fn def_at(lang: Lang, ns: Seq<SyntaxView>, i: int, src: Seq<char>) -> Option<
    (Seq<char>, DefKind),
> {
    let k = ns[i].kind;
    let name = child_text(ns, i, NAME, src);
    match lang {
        Lang::Cpp | Lang::Glsl => if k == "function_definition"@ {
            named(cpp_function_name(ns, i, src), DefKind::Function)
        } else if k == "struct_specifier"@ || k == "class_specifier"@ || k == "union_specifier"@ {
            if child(ns, i, BODY) is Some {
                named(name, DefKind::Record)
            } else {
                None
            }
        } else if k == "enum_specifier"@ {
            named(name, DefKind::Record)
        } else {
            None
        },
        Lang::Rust => if k == "function_item"@ || k == "function_signature_item"@ {
            named(name, DefKind::Function)
        } else if k == "struct_item"@ || k == "enum_item"@ || k == "union_item"@ {
            named(name, DefKind::Record)
        } else if k == "trait_item"@ || k == "type_item"@ {
            named(name, DefKind::Other)
        } else {
            None
        },
        Lang::Python => if k == "function_definition"@ {
            named(name, DefKind::Function)
        } else if k == "class_definition"@ {
            named(name, DefKind::Record)
        } else {
            None
        },
        Lang::Ts | Lang::Tsx | Lang::Svelte => if k == "function_declaration"@ || k
            == "generator_function_declaration"@ || k == "method_definition"@ {
            named(name, DefKind::Function)
        } else if k == "class_declaration"@ || k == "abstract_class_declaration"@ || k
            == "interface_declaration"@ || k == "enum_declaration"@ {
            named(name, DefKind::Record)
        } else if k == "type_alias_declaration"@ {
            named(name, DefKind::Other)
        } else if k == "variable_declarator"@ && binds_function(ns, i) {
            named(name, DefKind::Function)
        } else {
            None
        },
        Lang::CSharp => if k == "method_declaration"@ || k == "constructor_declaration"@ || k
            == "destructor_declaration"@ {
            named(name, DefKind::Function)
        } else if k == "class_declaration"@ || k == "struct_declaration"@ || k
            == "interface_declaration"@ || k == "enum_declaration"@ || k == "record_declaration"@
            || k == "record_struct_declaration"@ {
            named(name, DefKind::Record)
        } else if k == "property_declaration"@ || k == "delegate_declaration"@ {
            named(name, DefKind::Other)
        } else {
            None
        },
        Lang::Daslang => None,
    }
}

/// The kind of definition that a node of a kind is, where its name is the child
/// that plays that part.
fn plain_kind(lang: Lang, t: &Nodes, i: usize) -> (r: Option<DefKind>)
    requires
        t.wf(),
        i < t.nodes@.len(),
    ensures
        forall|src: Seq<char>|
            !((lang == Lang::Cpp || lang == Lang::Glsl) && t@[i as int].kind
                == "function_definition"@) ==> #[trigger] def_at(lang, t@, i as int, src) == (
            match r {
                Some(k) => named(child_text(t@, i as int, NAME, src), k),
                None => None,
            }),
{
    let n = &t.nodes[i];
    assert(t@[i as int] == n@);
    match lang {
        Lang::Cpp | Lang::Glsl => if kind_is(n, "struct_specifier") || kind_is(
            n,
            "class_specifier",
        ) || kind_is(n, "union_specifier") {
            if child_of(&t.nodes, i, BODY).is_some() {
                Some(DefKind::Record)
            } else {
                None
            }
        } else if kind_is(n, "enum_specifier") {
            Some(DefKind::Record)
        } else {
            None
        },
        Lang::Rust => if kind_is(n, "function_item") || kind_is(n, "function_signature_item") {
            Some(DefKind::Function)
        } else if kind_is(n, "struct_item") || kind_is(n, "enum_item") || kind_is(n, "union_item") {
            Some(DefKind::Record)
        } else if kind_is(n, "trait_item") || kind_is(n, "type_item") {
            Some(DefKind::Other)
        } else {
            None
        },
        Lang::Python => if kind_is(n, "function_definition") {
            Some(DefKind::Function)
        } else if kind_is(n, "class_definition") {
            Some(DefKind::Record)
        } else {
            None
        },
        Lang::Ts | Lang::Tsx | Lang::Svelte => if kind_is(n, "function_declaration") || kind_is(
            n,
            "generator_function_declaration",
        ) || kind_is(n, "method_definition") {
            Some(DefKind::Function)
        } else if kind_is(n, "class_declaration") || kind_is(n, "abstract_class_declaration")
            || kind_is(n, "interface_declaration") || kind_is(n, "enum_declaration") {
            Some(DefKind::Record)
        } else if kind_is(n, "type_alias_declaration") {
            Some(DefKind::Other)
        } else if kind_is(n, "variable_declarator") && is_function_binding(t, i) {
            Some(DefKind::Function)
        } else {
            None
        },
        Lang::CSharp => if kind_is(n, "method_declaration") || kind_is(
            n,
            "constructor_declaration",
        ) || kind_is(n, "destructor_declaration") {
            Some(DefKind::Function)
        } else if kind_is(n, "class_declaration") || kind_is(n, "struct_declaration") || kind_is(
            n,
            "interface_declaration",
        ) || kind_is(n, "enum_declaration") || kind_is(n, "record_declaration") || kind_is(
            n,
            "record_struct_declaration",
        ) {
            Some(DefKind::Record)
        } else if kind_is(n, "property_declaration") || kind_is(n, "delegate_declaration") {
            Some(DefKind::Other)
        } else {
            None
        },
        Lang::Daslang => None,
    }
}

pub fn def_name(lang: Lang, t: &Nodes, i: usize, src: &Source) -> (r: Option<(String, DefKind)>)
    requires
        t.wf(),
        src.wf(),
        i < t.nodes@.len(),
    ensures
        match r {
            Some(d) => def_at(lang, t@, i as int, src@) == Some((d.0@, d.1)),
            None => def_at(lang, t@, i as int, src@) is None,
        },
{
    assert(t@[i as int] == t.nodes@[i as int]@);
    let c: bool = match lang {
        Lang::Cpp | Lang::Glsl => true,
        _ => false,
    };
    if c && kind_is(&t.nodes[i], "function_definition") {
        return match find_cpp_function_name(t, i, src) {
            Some(n) => Some((n, DefKind::Function)),
            None => None,
        };
    }
    let kind = plain_kind(lang, t, i);
    assert(def_at(lang, t@, i as int, src@) == (match kind {
        Some(k) => named(child_text(t@, i as int, NAME, src@), k),
        None => None,
    }));
    match kind {
        None => None,
        Some(k) => match text_of_child(t, i, NAME, src) {
            Some(n) => Some((n, k)),
            None => None,
        },
    }
}

/// The last `::` segment of a name, looked for from the end.
pub open spec fn segment_from(s: Seq<char>, n: int) -> Seq<char>
    decreases n,
{
    if n < 2 || n > s.len() {
        s
    } else if s[n - 2] == ':' && s[n - 1] == ':' {
        s.skip(n)
    } else {
        segment_from(s, n - 1)
    }
}

pub open spec fn segment(s: Seq<char>) -> Seq<char> {
    segment_from(s, s.len() as int)
}

pub fn seg(name: &str) -> (r: String)
    ensures
        r@ == segment(name@),
{
    let v = to_chars(name);
    let mut n: usize = v.len();
    while n >= 2
        invariant
            v@ == name@,
            n <= v@.len(),
            segment(name@) == segment_from(name@, n as int),
        decreases n,
    {
        if v[n - 2] == ':' && v[n - 1] == ':' {
            assert(name@.subrange(n as int, name@.len() as int) =~= name@.skip(n as int));
            return slice(&v, n, v.len());
        }
        n = n - 1;
    }
    copy(name)
}

/// Whether two names are the same or end in the same segment.
pub open spec fn names_agree(a: Seq<char>, b: Seq<char>) -> bool {
    a == b || segment(a) == segment(b)
}

pub fn name_matches(a: &str, b: &str) -> (r: bool)
    ensures
        r == names_agree(a@, b@),
{
    same(a, b) || same(seg(a).as_str(), seg(b).as_str())
}

// ---------------------------------------------------------------------------
// Signatures and bodies

/// The body of a definition, or of the function that it binds.
pub open spec fn body_at(ns: Seq<SyntaxView>, i: int) -> Option<int> {
    match child(ns, i, BODY) {
        Some(b) => Some(b),
        None => match child(ns, i, VALUE) {
            Some(v) => child(ns, v, BODY),
            None => None,
        },
    }
}

pub fn body_of(t: &Nodes, i: usize) -> (r: Option<usize>)
    requires
        i < t.nodes@.len(),
    ensures
        place(r) == body_at(t@, i as int),
        r matches Some(b) ==> b < t.nodes@.len(),
{
    match child_of(&t.nodes, i, BODY) {
        Some(b) => Some(b),
        None => match child_of(&t.nodes, i, VALUE) {
            Some(v) => child_of(&t.nodes, v, BODY),
            None => None,
        },
    }
}

/// The text from a node's start to its body, on one line.
pub open spec fn signature(ns: Seq<SyntaxView>, i: int, src: Seq<char>) -> Seq<char> {
    let end = match body_at(ns, i) {
        Some(b) => ns[b].start,
        None => ns[i].end,
    };
    squeezed(trimmed(trimmed_end_of(trimmed(between(src, ns[i].start, end)), '{')), 200)
}

pub fn signature_of(t: &Nodes, i: usize, src: &Source) -> (r: String)
    requires
        i < t.nodes@.len(),
        src.wf(),
    ensures
        r@ == signature(t@, i as int, src@),
{
    assert(t@[i as int] == t.nodes@[i as int]@);
    let end: usize = match body_of(t, i) {
        Some(b) => {
            assert(t@[b as int] == t.nodes@[b as int]@);
            t.nodes[b].start
        },
        None => t.nodes[i].end,
    };
    let raw = src.text(t.nodes[i].start, end);
    let a = trim(raw.as_str());
    let b = trim_end_of(a.as_str(), '{');
    let c = trim(b.as_str());
    squeeze(c.as_str(), 200)
}

// ---------------------------------------------------------------------------
// Documentation

/// A line of a comment without its markers. The marker of a comment that begins with
/// `#` is that sign alone.
pub open spec fn comment_text(line: Seq<char>, hash: bool) -> Seq<char> {
    if hash {
        trimmed(trimmed_start_of(trimmed(line), '#'))
    } else {
        slashed_text(line)
    }
}

/// A line of a comment without the markers that are made of slashes and stars.
pub open spec fn slashed_text(line: Seq<char>) -> Seq<char> {
    let a = stripped_start(trimmed(line), "///"@);
    let b = stripped_start(a, "//!"@);
    let c = stripped_start(b, "//"@);
    let d = stripped_start(c, "/**"@);
    let e = stripped_start(d, "/*"@);
    let f = stripped_end(e, "*/"@);
    trimmed(trimmed_start_of(f, '*'))
}

fn comment_line(line: &str, hash: bool) -> (r: String)
    ensures
        r@ == comment_text(line@, hash),
{
    let t = trim(line);
    if hash {
        return trim(trim_start_of(t.as_str(), '#').as_str());
    }
    let a = strip_start(t.as_str(), "///");
    let b = strip_start(a.as_str(), "//!");
    let c = strip_start(b.as_str(), "//");
    let d = strip_start(c.as_str(), "/**");
    let e = strip_start(d.as_str(), "/*");
    let f = strip_end(e.as_str(), "*/");
    let g = trim_start_of(f.as_str(), '*');
    trim(g.as_str())
}

/// The lines of a comment that say something, among the first `n`.
pub open spec fn comment_lines(ls: Seq<Seq<char>>, hash: bool, n: nat) -> Seq<Seq<char>>
    decreases n,
{
    if n == 0 {
        Seq::empty()
    } else {
        let rest = comment_lines(ls, hash, (n - 1) as nat);
        let t = comment_text(ls[n - 1], hash);
        if t.len() > 0 {
            rest.push(squeezed(t, 200))
        } else {
            rest
        }
    }
}

/// A comment as lines of documentation.
pub open spec fn cleaned(raw: Seq<char>) -> Seq<Seq<char>> {
    comment_lines(lines_of(raw), starts(trimmed(raw), "#"@), lines_of(raw).len())
}

pub fn clean_comment(raw: &str) -> (r: Vec<String>)
    ensures
        strs(r@) == cleaned(raw@),
{
    let ls = lines(raw);
    let hash: bool = starts_with(trim(raw).as_str(), "#");
    let mut out = crate::text::no_strings();
    assert(strs(ls@).len() == ls@.len());
    for i in 0..ls.len()
        invariant
            strs(out@) == comment_lines(strs(ls@), hash, i as nat),
    {
        assert(strs(ls@)[i as int] == ls@[i as int]@);
        let t = comment_line(ls[i].as_str(), hash);
        if !is_blank(t.as_str()) {
            crate::izakaya::board::add_line(&mut out, squeeze(t.as_str(), 200));
        }
    }
    out
}

/// The letters that can stand before a Python string.
pub open spec fn string_prefix() -> spec_fn(char) -> bool {
    |c: char|
        c == 'r' || c == 'R' || c == 'b' || c == 'B' || c == 'f' || c == 'F' || c == 'u' || c == 'U'
}

/// A Python string without its prefix and its quotes.
pub open spec fn pydoc_text(raw: Seq<char>) -> Seq<char> {
    let a = trim_start_by(trimmed(raw), string_prefix());
    let b = stripped_start(a, "\"\"\""@);
    let c = stripped_end(b, "\"\"\""@);
    let d = stripped_start(c, "'''"@);
    let e = stripped_end(d, "'''"@);
    trimmed_of(trimmed_of(e, '"'), '\'')
}

fn strip_prefix_letters(s: &str) -> (r: String)
    ensures
        r@ == trim_start_by(s@, string_prefix()),
{
    let v = to_chars(s);
    let mut n: usize = 0;
    let ghost p = string_prefix();
    assert(s@.skip(0) =~= s@);
    while n < v.len() && (v[n] == 'r' || v[n] == 'R' || v[n] == 'b' || v[n] == 'B' || v[n] == 'f'
        || v[n] == 'F' || v[n] == 'u' || v[n] == 'U')
        invariant
            v@ == s@,
            n <= v@.len(),
            p == string_prefix(),
            trim_start_by(s@, p) == trim_start_by(s@.skip(n as int), p),
        decreases v@.len() - n,
    {
        assert(s@.skip(n as int).drop_first() =~= s@.skip(n + 1));
        n = n + 1;
    }
    assert(s@.subrange(n as int, s@.len() as int) =~= s@.skip(n as int));
    slice(&v, n, v.len())
}

/// The lines of a documentation string that say something, among the first `n`.
pub open spec fn pydoc_lines(ls: Seq<Seq<char>>, n: nat) -> Seq<Seq<char>>
    decreases n,
{
    if n == 0 {
        Seq::empty()
    } else {
        let rest = pydoc_lines(ls, (n - 1) as nat);
        let t = trimmed(ls[n - 1]);
        if t.len() > 0 {
            rest.push(squeezed(t, 200))
        } else {
            rest
        }
    }
}

pub open spec fn pydoc(raw: Seq<char>) -> Seq<Seq<char>> {
    let ls = lines_of(pydoc_text(raw));
    pydoc_lines(ls, ls.len())
}

pub fn clean_pydoc(raw: &str) -> (r: Vec<String>)
    ensures
        strs(r@) == pydoc(raw@),
{
    let t = trim(raw);
    let a = strip_prefix_letters(t.as_str());
    let b = strip_start(a.as_str(), "\"\"\"");
    let c = strip_end(b.as_str(), "\"\"\"");
    let d = strip_start(c.as_str(), "'''");
    let e = strip_end(d.as_str(), "'''");
    let f = trim_of(e.as_str(), '"');
    let g = trim_of(f.as_str(), '\'');
    let ls = lines(g.as_str());
    let mut out = crate::text::no_strings();
    assert(strs(ls@).len() == ls@.len());
    for i in 0..ls.len()
        invariant
            strs(out@) == pydoc_lines(strs(ls@), i as nat),
    {
        assert(strs(ls@)[i as int] == ls@[i as int]@);
        let l = trim(ls[i].as_str());
        if !is_blank(l.as_str()) {
            crate::izakaya::board::add_line(&mut out, squeeze(l.as_str(), 200));
        }
    }
    out
}

/// The first string statement in the body of a Python definition.
pub open spec fn docstring(ns: Seq<SyntaxView>, i: int, src: Seq<char>) -> Seq<Seq<char>> {
    match child(ns, i, BODY) {
        None => Seq::empty(),
        Some(b) => {
            let s = b + 1;
            if s < ns.len() && ns[s].depth == ns[b].depth + 1 && ns[s].kind
                == "expression_statement"@ {
                match child_kind(ns, s, "string"@, s + 1) {
                    Some(e) => pydoc(node_text(ns[e], src)),
                    None => Seq::empty(),
                }
            } else {
                Seq::empty()
            }
        },
    }
}

pub fn python_docstring(t: &Nodes, i: usize, src: &Source) -> (r: Vec<String>)
    requires
        i < t.nodes@.len(),
        src.wf(),
    ensures
        strs(r@) == docstring(t@, i as int, src@),
{
    let b: usize = match child_of(&t.nodes, i, BODY) {
        Some(b) => b,
        None => {
            return crate::text::no_strings();
        },
    };
    assert(t.nodes@.len() == t.nodes.len());
    let s: usize = b + 1;
    if s < t.nodes.len() {
        assert(t@[s as int] == t.nodes@[s as int]@);
        assert(t@[b as int] == t.nodes@[b as int]@);
        let db: usize = t.nodes[b].depth;
        let ds: usize = t.nodes[s].depth;
        if ds > db && ds - db == 1 && kind_is(&t.nodes[s], "expression_statement") {
            if let Some(e) = child_of_kind(t, s, "string") {
                assert(t@[e as int] == t.nodes@[e as int]@);
                return clean_pydoc(text_of(&t.nodes[e], src).as_str());
            }
        }
    }
    crate::text::no_strings()
}

/// Whether a node of a kind wraps a definition, so that comments stand before it.
pub open spec fn wraps(lang: Lang, kind: Seq<char>) -> bool {
    match lang {
        Lang::Ts | Lang::Tsx | Lang::Svelte => kind == "export_statement"@,
        Lang::Python => kind == "decorated_definition"@,
        Lang::Cpp | Lang::Glsl => kind == "template_declaration"@,
        _ => false,
    }
}

fn is_wrapping(lang: Lang, n: &SyntaxNode) -> (r: bool)
    ensures
        r == wraps(lang, n@.kind),
{
    match lang {
        Lang::Ts | Lang::Tsx | Lang::Svelte => kind_is(n, "export_statement"),
        Lang::Python => kind_is(n, "decorated_definition"),
        Lang::Cpp | Lang::Glsl => kind_is(n, "template_declaration"),
        _ => false,
    }
}

/// The outermost node that wraps a definition.
pub open spec fn anchor(lang: Lang, ns: Seq<SyntaxView>, i: int) -> int
    decreases i,
{
    match parent(ns, i) {
        Some(p) => if 0 <= p < i && wraps(lang, ns[p].kind) {
            anchor(lang, ns, p)
        } else {
            i
        },
        None => i,
    }
}

fn find_anchor(lang: Lang, t: &Nodes, i: usize) -> (r: usize)
    requires
        t.wf(),
        i < t.nodes@.len(),
    ensures
        r == anchor(lang, t@, i as int),
        r < t.nodes@.len(),
{
    let mut n: usize = i;
    loop
        invariant
            t.wf(),
            n < t.nodes@.len(),
            anchor(lang, t@, i as int) == anchor(lang, t@, n as int),
        decreases n,
    {
        match t.parent(n) {
            Some(p) => {
                assert(t@[p as int] == t.nodes@[p as int]@);
                if !is_wrapping(lang, &t.nodes[p]) {
                    return n;
                }
                n = p;
            },
            None => {
                return n;
            },
        }
    }
}

pub open spec fn comment_kind(k: Seq<char>) -> bool {
    k == "comment"@ || k == "line_comment"@ || k == "block_comment"@
}

pub open spec fn rows_between(below: nat, above: nat) -> nat {
    if below >= above {
        (below - above) as nat
    } else {
        0
    }
}

/// The comments right above a place, the nearest first. The nearest may be
/// a line away, the others follow directly; Rust attributes are passed over.
pub open spec fn comment_run(
    lang: Lang,
    ns: Seq<SyntaxView>,
    s: Option<int>,
    row: nat,
    first: bool,
) -> Seq<int>
    decreases (match s {
        Some(i) => i + 1,
        None => 0int,
    }),
{
    match s {
        None => Seq::empty(),
        Some(i) => if i < 0 || i >= ns.len() || (previous(ns, i) matches Some(p) && !(0 <= p < i)) {
            Seq::empty()
        } else if comment_kind(ns[i].kind) {
            if rows_between(row, ns[i].end_row) <= (if first {
                2nat
            } else {
                1
            }) {
                seq![i] + comment_run(lang, ns, previous(ns, i), ns[i].row, false)
            } else {
                Seq::empty()
            }
        } else if lang == Lang::Rust && ns[i].kind == "attribute_item"@ {
            comment_run(lang, ns, previous(ns, i), ns[i].row, first)
        } else {
            Seq::empty()
        },
    }
}

/// The documentation in comments that stand nearest first.
pub open spec fn run_doc(ns: Seq<SyntaxView>, run: Seq<int>, src: Seq<char>) -> Seq<Seq<char>>
    decreases run.len(),
{
    if run.len() == 0 {
        Seq::empty()
    } else {
        run_doc(ns, run.drop_first(), src) + cleaned(node_text(ns[run[0]], src))
    }
}

/// The documentation of a definition: a Python string, or the comments above it.
pub open spec fn doc_of(lang: Lang, ns: Seq<SyntaxView>, i: int, src: Seq<char>) -> Seq<Seq<char>> {
    if lang == Lang::Python && docstring(ns, i, src).len() > 0 {
        docstring(ns, i, src)
    } else {
        let a = anchor(lang, ns, i);
        run_doc(ns, comment_run(lang, ns, previous(ns, a), ns[a].row, true), src)
    }
}

fn find_run(lang: Lang, t: &Nodes, a: usize) -> (r: Vec<usize>)
    requires
        a < t.nodes@.len(),
    ensures
        crate::izakaya::replay::positions(r@) == comment_run(
            lang,
            t@,
            previous(t@, a as int),
            t@[a as int].row,
            true,
        ),
        forall|k: int| 0 <= k < r@.len() ==> #[trigger] r@[k] < t.nodes@.len(),
{
    let mut out: Vec<usize> = Vec::new();
    assert(t@[a as int] == t.nodes@[a as int]@);
    let ghost want = comment_run(lang, t@, previous(t@, a as int), t@[a as int].row, true);
    let mut row: u32 = t.nodes[a].row;
    let mut first: bool = true;
    let mut s: Option<usize> = previous_of(&t.nodes, a);
    assert(crate::izakaya::replay::positions(out@) =~= Seq::<int>::empty());
    assert(want =~= crate::izakaya::replay::positions(out@) + comment_run(
        lang,
        t@,
        place(s),
        row as nat,
        first,
    ));
    loop
        invariant
            s matches Some(i) ==> i < t.nodes@.len(),
            want == comment_run(lang, t@, previous(t@, a as int), t@[a as int].row, true),
            want == crate::izakaya::replay::positions(out@) + comment_run(
                lang,
                t@,
                place(s),
                row as nat,
                first,
            ),
            forall|k: int| 0 <= k < out@.len() ==> #[trigger] out@[k] < t.nodes@.len(),
        decreases (match s {
            Some(i) => i + 1,
            None => 0int,
        }),
    {
        let i: usize = match s {
            Some(i) => i,
            None => {
                assert(want =~= crate::izakaya::replay::positions(out@));
                return out;
            },
        };
        let n = &t.nodes[i];
        assert(t@[i as int] == n@);
        let prev = previous_of(&t.nodes, i);
        if kind_is(n, "comment") || kind_is(n, "line_comment") || kind_is(n, "block_comment") {
            let gap: u32 = if row >= n.end_row {
                row - n.end_row
            } else {
                0
            };
            let ok: bool = if first {
                gap <= 2
            } else {
                gap <= 1
            };
            if !ok {
                assert(want =~= crate::izakaya::replay::positions(out@));
                return out;
            }
            let ghost before = out@;
            let ghost rest = comment_run(lang, t@, place(prev), n.row as nat, false);
            out.push(i);
            proof {
                assert(crate::izakaya::replay::positions(out@)
                    =~= crate::izakaya::replay::positions(before).push(i as int));
                assert(crate::izakaya::replay::positions(before) + (seq![i as int] + rest)
                    =~= crate::izakaya::replay::positions(out@) + rest);
            }
            row = n.row;
            first = false;
            s = prev;
        } else {
            let attr: bool = match lang {
                Lang::Rust => kind_is(n, "attribute_item"),
                _ => false,
            };
            if !attr {
                assert(want =~= crate::izakaya::replay::positions(out@));
                return out;
            }
            row = n.row;
            s = prev;
        }
    }
}

pub fn leading_doc(lang: Lang, t: &Nodes, i: usize, src: &Source) -> (r: Vec<String>)
    requires
        t.wf(),
        src.wf(),
        i < t.nodes@.len(),
    ensures
        strs(r@) == doc_of(lang, t@, i as int, src@),
{
    let python: bool = match lang {
        Lang::Python => true,
        _ => false,
    };
    if python {
        let d = python_docstring(t, i, src);
        assert(strs(d@).len() == d@.len());
        if d.len() > 0 {
            return d;
        }
    }
    let a: usize = find_anchor(lang, t, i);
    let run = find_run(lang, t, a);
    let ghost ids = crate::izakaya::replay::positions(run@);
    let mut out = crate::text::no_strings();
    let mut k: usize = run.len();
    assert(ids.skip(ids.len() as int) =~= Seq::<int>::empty());
    while k > 0
        invariant
            src.wf(),
            k <= run@.len(),
            ids == crate::izakaya::replay::positions(run@),
            forall|m: int| 0 <= m < run@.len() ==> #[trigger] run@[m] < t.nodes@.len(),
            strs(out@) == run_doc(t@, ids.skip(k as int), src@),
        decreases k,
    {
        k = k - 1;
        let n = &t.nodes[run[k]];
        assert(t@[ids[k as int]] == n@);
        assert(ids.skip(k as int).drop_first() =~= ids.skip(k + 1));
        let more = clean_comment(text_of(n, src).as_str());
        let ghost before = out@;
        let ghost added = more@;
        let mut m = more;
        out.append(&mut m);
        assert(strs(out@) =~= strs(before) + strs(added));
    }
    assert(ids.skip(0) =~= ids);
    out
}

// ---------------------------------------------------------------------------
// Visibility

/// Whether something above a node is of a kind.
pub open spec fn within(ns: Seq<SyntaxView>, i: int, kind: Seq<char>) -> bool
    decreases i,
{
    match parent(ns, i) {
        Some(p) => if 0 <= p < i {
            ns[p].kind == kind || within(ns, p, kind)
        } else {
            false
        },
        None => false,
    }
}

fn is_within(t: &Nodes, i: usize, kind: &str) -> (r: bool)
    requires
        t.wf(),
        i < t.nodes@.len(),
    ensures
        r == within(t@, i as int, kind@),
{
    let mut n: usize = i;
    loop
        invariant
            t.wf(),
            n < t.nodes@.len(),
            within(t@, i as int, kind@) == within(t@, n as int, kind@),
        decreases n,
    {
        match t.parent(n) {
            Some(p) => {
                assert(t@[p as int] == t.nodes@[p as int]@);
                if kind_is(&t.nodes[p], kind) {
                    return true;
                }
                n = p;
            },
            None => {
                return false;
            },
        }
    }
}

/// Whether a modifier makes a C# member visible.
pub open spec fn visible_word(s: Seq<char>) -> bool {
    s == "public"@ || s == "protected"@ || s == "internal"@
}

/// Whether a child of node `i`, from `j` on, is a modifier that makes it visible.
pub open spec fn has_visible(ns: Seq<SyntaxView>, i: int, src: Seq<char>, j: int) -> bool
    decreases ns.len() - j,
{
    if j < 0 || j >= ns.len() || ns[j].depth <= ns[i].depth {
        false
    } else if ns[j].depth == ns[i].depth + 1 && ns[j].kind == "modifier"@ && visible_word(
        trimmed(node_text(ns[j], src)),
    ) {
        true
    } else {
        has_visible(ns, i, src, j + 1)
    }
}

fn finds_visible(t: &Nodes, i: usize, src: &Source) -> (r: bool)
    requires
        i < t.nodes@.len(),
        src.wf(),
    ensures
        r == has_visible(t@, i as int, src@, i + 1),
{
    let d: usize = t.nodes[i].depth;
    let ghost all = t@;
    assert(t.nodes@.len() == t.nodes.len());
    let mut j: usize = i + 1;
    while j < t.nodes.len()
        invariant
            all == t@,
            src.wf(),
            i < j <= t.nodes@.len(),
            d == t.nodes@[i as int].depth,
            has_visible(all, i as int, src@, i + 1) == has_visible(all, i as int, src@, j as int),
        decreases t.nodes@.len() - j,
    {
        let n = &t.nodes[j];
        assert(all[j as int] == n@);
        assert(all[i as int] == t.nodes@[i as int]@);
        if n.depth <= d {
            return false;
        }
        if n.depth - d == 1 && kind_is(n, "modifier") {
            let w = trim(text_of(n, src).as_str());
            if same(w.as_str(), "public") || same(w.as_str(), "protected") || same(
                w.as_str(),
                "internal",
            ) {
                return true;
            }
        }
        j = j + 1;
    }
    false
}

/// Whether a Python definition stands at the top of its module.
pub open spec fn python_toplevel(ns: Seq<SyntaxView>, i: int) -> bool {
    match parent(ns, i) {
        Some(p) => ns[p].kind == "module"@ || (ns[p].kind == "decorated_definition"@ && match parent(
            ns,
            p,
        ) {
            Some(g) => ns[g].kind == "module"@,
            None => false,
        }),
        None => false,
    }
}

fn is_python_toplevel(t: &Nodes, i: usize) -> (r: bool)
    requires
        t.wf(),
        i < t.nodes@.len(),
    ensures
        r == python_toplevel(t@, i as int),
{
    match t.parent(i) {
        Some(p) => {
            assert(t@[p as int] == t.nodes@[p as int]@);
            if kind_is(&t.nodes[p], "module") {
                return true;
            }
            if !kind_is(&t.nodes[p], "decorated_definition") {
                return false;
            }
            match t.parent(p) {
                Some(g) => {
                    assert(t@[g as int] == t.nodes@[g as int]@);
                    kind_is(&t.nodes[g], "module")
                },
                None => false,
            }
        },
        None => false,
    }
}

/// Whether a definition can be seen from outside.
pub open spec fn exported(lang: Lang, ns: Seq<SyntaxView>, i: int, src: Seq<char>) -> bool {
    match lang {
        Lang::Rust => child_kind(ns, i, "visibility_modifier"@, i + 1) is Some,
        Lang::Ts | Lang::Tsx | Lang::Svelte => within(ns, i, "export_statement"@),
        Lang::CSharp => has_visible(ns, i, src, i + 1),
        Lang::Python => python_toplevel(ns, i),
        Lang::Cpp | Lang::Glsl | Lang::Daslang => false,
    }
}

pub fn is_exported(lang: Lang, t: &Nodes, i: usize, src: &Source) -> (r: bool)
    requires
        t.wf(),
        src.wf(),
        i < t.nodes@.len(),
    ensures
        r == exported(lang, t@, i as int, src@),
{
    match lang {
        Lang::Rust => child_of_kind(t, i, "visibility_modifier").is_some(),
        Lang::Ts | Lang::Tsx | Lang::Svelte => is_within(t, i, "export_statement"),
        Lang::CSharp => finds_visible(t, i, src),
        Lang::Python => is_python_toplevel(t, i),
        Lang::Cpp | Lang::Glsl | Lang::Daslang => false,
    }
}

// ---------------------------------------------------------------------------
// Collecting

/// Languages in which definitions can be found.
pub open spec fn has_definitions(lang: Lang) -> bool {
    lang != Lang::Daslang
}

pub fn supported(lang: Lang) -> (r: bool)
    ensures
        r == has_definitions(lang),
{
    match lang {
        Lang::Daslang => false,
        _ => true,
    }
}

/// The first definition, from node `i` on, whose name agrees with a symbol.
pub open spec fn def_from(
    lang: Lang,
    ns: Seq<SyntaxView>,
    src: Seq<char>,
    symbol: Seq<char>,
    i: int,
) -> Option<int>
    decreases ns.len() - i,
{
    if i < 0 || i >= ns.len() {
        None
    } else {
        match def_at(lang, ns, i, src) {
            Some((name, _)) => if names_agree(name, symbol) {
                Some(i)
            } else {
                def_from(lang, ns, src, symbol, i + 1)
            },
            None => def_from(lang, ns, src, symbol, i + 1),
        }
    }
}

pub fn find_def(lang: Lang, t: &Nodes, src: &Source, symbol: &str) -> (r: Option<usize>)
    requires
        t.wf(),
        src.wf(),
    ensures
        place(r) == def_from(lang, t@, src@, symbol@, 0),
        r matches Some(i) ==> i < t.nodes@.len(),
{
    for i in 0..t.nodes.len()
        invariant
            t.wf(),
            src.wf(),
            def_from(lang, t@, src@, symbol@, 0) == def_from(
                lang,
                t@,
                src@,
                symbol@,
                i as int,
            ),
    {
        if let Some(d) = def_name(lang, t, i, src) {
            if name_matches(d.0.as_str(), symbol) {
                return Some(i);
            }
        }
    }
    None
}

/// What the definition at node `i` yields.
pub open spec fn info_at(
    lang: Lang,
    ns: Seq<SyntaxView>,
    i: int,
    src: Seq<char>,
    rel: Seq<char>,
    want_body: bool,
) -> InfoView {
    let d = def_at(lang, ns, i, src)->Some_0;
    InfoView {
        rel,
        line: ns[i].row + 1,
        end_line: ns[i].end_row + 1,
        kind: d.1,
        name: d.0,
        signature: signature(ns, i, src),
        doc: doc_of(lang, ns, i, src),
        body: if want_body {
            node_text(ns[i], src)
        } else {
            ""@
        },
    }
}

/// The definition of a symbol in a parsed file. The name has to stand in the text
/// at all.
pub open spec fn located(
    lang: Lang,
    ns: Seq<SyntaxView>,
    src: Seq<char>,
    rel: Seq<char>,
    symbol: Seq<char>,
    want_body: bool,
) -> Option<InfoView> {
    if !holds(src, symbol) {
        None
    } else {
        match def_from(lang, ns, src, symbol, 0) {
            Some(i) => Some(info_at(lang, ns, i, src, rel, want_body)),
            None => None,
        }
    }
}

pub fn locate_in(
    lang: Lang,
    t: &Nodes,
    src: &Source,
    text: &str,
    rel: &str,
    symbol: &str,
    want_body: bool,
) -> (r: Option<DefInfo>)
    requires
        t.wf(),
        src.wf(),
        src@ == text@,
    ensures
        match r {
            Some(d) => located(lang, t@, src@, rel@, symbol@, want_body) == Some(d@),
            None => located(lang, t@, src@, rel@, symbol@, want_body) is None,
        },
{
    if !contains(text, symbol) {
        return None;
    }
    let i: usize = match find_def(lang, t, src, symbol) {
        Some(i) => i,
        None => {
            return None;
        },
    };
    let (name, kind) = match def_name(lang, t, i, src) {
        Some(d) => d,
        None => {
            proof {
                lemma_def_from(lang, t@, src@, symbol@, 0);
            }
            return None;
        },
    };
    assert(t@[i as int] == t.nodes@[i as int]@);
    Some(
        DefInfo {
            rel: copy(rel),
            line: t.nodes[i].row as u64 + 1,
            end_line: t.nodes[i].end_row as u64 + 1,
            kind,
            name,
            signature: signature_of(t, i, src),
            doc: leading_doc(lang, t, i, src),
            body: if want_body {
                text_of(&t.nodes[i], src)
            } else {
                copy("")
            },
        },
    )
}

proof fn lemma_def_from(
    lang: Lang,
    ns: Seq<SyntaxView>,
    src: Seq<char>,
    symbol: Seq<char>,
    i: int,
)
    requires
        0 <= i,
    ensures
        def_from(lang, ns, src, symbol, i) matches Some(k) ==> i <= k < ns.len() && def_at(
            lang,
            ns,
            k,
            src,
        ) is Some && names_agree(def_at(lang, ns, k, src)->Some_0.0, symbol),
    decreases ns.len() - i,
{
    if i < ns.len() {
        match def_at(lang, ns, i, src) {
            Some((name, _)) => if !names_agree(name, symbol) {
                lemma_def_from(lang, ns, src, symbol, i + 1);
            },
            None => lemma_def_from(lang, ns, src, symbol, i + 1),
        }
    }
}

/// The definition of a symbol in a source.
pub open spec fn located_in_source(
    lang: Lang,
    raw: Seq<char>,
    rel: Seq<char>,
    symbol: Seq<char>,
    want_body: bool,
) -> Option<InfoView> {
    match source_nodes(lang, raw) {
        None => None,
        Some(ns) => located(lang, ns, lang.prepared(raw), rel, symbol, want_body),
    }
}

/// Finds the definition of a symbol in one file.
pub fn locate_source(lang: Lang, raw: &str, rel: &str, symbol: &str, want_body: bool) -> (r: Option<
    DefInfo,
>)
    ensures
        match r {
            Some(d) => located_in_source(lang, raw@, rel@, symbol@, want_body) == Some(d@),
            None => located_in_source(lang, raw@, rel@, symbol@, want_body) is None,
        },
{
    let prepared = lang.preprocess(raw);
    match parse_prepared(lang, prepared.as_str()) {
        None => None,
        Some(nodes) => {
            let t = Nodes::new(nodes);
            let src = Source::new(prepared.as_str());
            locate_in(lang, &t, &src, prepared.as_str(), rel, symbol, want_body)
        },
    }
}

/// A file to look into.
pub struct FileText {
    pub rel: String,
    pub lang: Lang,
    pub text: String,
}

/// The values of a [`FileText`].
pub struct FileTextView {
    pub rel: Seq<char>,
    pub lang: Lang,
    pub text: Seq<char>,
}

impl View for FileText {
    type V = FileTextView;

    open spec fn view(&self) -> FileTextView {
        FileTextView { rel: self.rel@, lang: self.lang, text: self.text@ }
    }
}

pub open spec fn text_views(v: Seq<FileText>) -> Seq<FileTextView> {
    Seq::new(v.len(), |i: int| v[i]@)
}

/// The definition of a symbol in the files from `k` on, in the first file that has
/// one, and the bytes of the files that were parsed up to it.
pub open spec fn located_from(
    fs: Seq<FileTextView>,
    symbol: Seq<char>,
    want_body: bool,
    scanned: nat,
    k: int,
) -> (Option<InfoView>, nat)
    decreases fs.len() - k,
{
    if k < 0 || k >= fs.len() {
        (None, scanned)
    } else {
        let f = fs[k];
        match source_nodes(f.lang, f.text) {
            None => located_from(fs, symbol, want_body, scanned, k + 1),
            Some(ns) => {
                let src = f.lang.prepared(f.text);
                let seen = scanned + blen(src);
                match located(f.lang, ns, src, f.rel, symbol, want_body) {
                    Some(d) => (Some(d), seen),
                    None => located_from(fs, symbol, want_body, seen, k + 1),
                }
            },
        }
    }
}

/// Finds the definition of a symbol in files, and counts the bytes looked through,
/// as far as the count fits.
pub fn locate(files: &Vec<FileText>, symbol: &str, want_body: bool) -> (r: (Option<DefInfo>, u64))
    ensures
        match r.0 {
            Some(d) => located_from(text_views(files@), symbol@, want_body, 0, 0).0 == Some(d@),
            None => located_from(text_views(files@), symbol@, want_body, 0, 0).0 is None,
        },
        r.1 == capped(located_from(text_views(files@), symbol@, want_body, 0, 0).1),
{
    let ghost fs = text_views(files@);
    let ghost want = located_from(fs, symbol@, want_body, 0, 0);
    let mut scanned: u64 = 0;
    let ghost mut total: nat = 0;
    for k in 0..files.len()
        invariant
            fs == text_views(files@),
            want == located_from(fs, symbol@, want_body, 0, 0),
            want == located_from(fs, symbol@, want_body, total, k as int),
            scanned == capped(total),
    {
        let f = &files[k];
        assert(fs[k as int] == f@);
        let prepared = f.lang.preprocess(f.text.as_str());
        if let Some(nodes) = parse_prepared(f.lang, prepared.as_str()) {
            let t = Nodes::new(nodes);
            let src = Source::new(prepared.as_str());
            scanned = count_up(scanned, size(prepared.as_str()) as u64);
            proof {
                total = total + blen(prepared@);
            }
            let found = locate_in(
                f.lang,
                &t,
                &src,
                prepared.as_str(),
                f.rel.as_str(),
                symbol,
                want_body,
            );
            if found.is_some() {
                return (found, scanned);
            }
        }
    }
    (None, scanned)
}

/// The spans of the functions among the first `n` nodes.
pub open spec fn spans_upto(lang: Lang, ns: Seq<SyntaxView>, src: Seq<char>, n: nat) -> Seq<
    SpanView,
>
    decreases n,
{
    if n == 0 {
        Seq::empty()
    } else {
        let rest = spans_upto(lang, ns, src, (n - 1) as nat);
        match def_at(lang, ns, n - 1, src) {
            Some((name, kind)) => if kind == DefKind::Function {
                rest.push(
                    SpanView {
                        name,
                        start: ns[n - 1].row + 1,
                        end: ns[n - 1].end_row + 1,
                        signature: signature(ns, n - 1, src),
                    },
                )
            } else {
                rest
            },
            None => rest,
        }
    }
}

/// The spans of the functions in a source.
pub open spec fn spans_of(lang: Lang, raw: Seq<char>) -> Seq<SpanView> {
    match source_nodes(lang, raw) {
        None => Seq::empty(),
        Some(ns) => spans_upto(lang, ns, lang.prepared(raw), ns.len()),
    }
}

pub fn collect_spans(lang: Lang, t: &Nodes, src: &Source) -> (r: Vec<Span>)
    requires
        t.wf(),
        src.wf(),
    ensures
        span_views(r@) == spans_upto(lang, t@, src@, t@.len()),
{
    let mut out: Vec<Span> = Vec::new();
    assert(span_views(out@) =~= Seq::<SpanView>::empty());
    for i in 0..t.nodes.len()
        invariant
            t.wf(),
            src.wf(),
            span_views(out@) == spans_upto(lang, t@, src@, i as nat),
    {
        assert(t@[i as int] == t.nodes@[i as int]@);
        if let Some((name, kind)) = def_name(lang, t, i, src) {
            if kind == DefKind::Function {
                let ghost before = out@;
                let s = Span {
                    name,
                    start: t.nodes[i].row as u64 + 1,
                    end: t.nodes[i].end_row as u64 + 1,
                    signature: signature_of(t, i, src),
                };
                out.push(s);
                assert(span_views(out@) =~= span_views(before).push(s@));
            }
        }
    }
    out
}

pub fn function_spans_from_str(lang: Lang, raw: &str) -> (r: Vec<Span>)
    ensures
        span_views(r@) == spans_of(lang, raw@),
{
    let prepared = lang.preprocess(raw);
    match parse_prepared(lang, prepared.as_str()) {
        None => {
            let none: Vec<Span> = Vec::new();
            assert(span_views(none@) =~= Seq::<SpanView>::empty());
            none
        },
        Some(nodes) => {
            let t = Nodes::new(nodes);
            let src = Source::new(prepared.as_str());
            collect_spans(lang, &t, &src)
        },
    }
}

/// The definitions at the first `n` nodes, in brief.
pub open spec fn briefs_upto(lang: Lang, ns: Seq<SyntaxView>, src: Seq<char>, n: nat) -> Seq<
    BriefView,
>
    decreases n,
{
    if n == 0 {
        Seq::empty()
    } else {
        let rest = briefs_upto(lang, ns, src, (n - 1) as nat);
        match def_at(lang, ns, n - 1, src) {
            Some((name, kind)) => rest.push(
                BriefView {
                    name,
                    kind,
                    line: ns[n - 1].row + 1,
                    signature: signature(ns, n - 1, src),
                    has_doc: doc_of(lang, ns, n - 1, src).len() > 0,
                    exported: exported(lang, ns, n - 1, src),
                },
            ),
            None => rest,
        }
    }
}

pub open spec fn briefs_of(lang: Lang, raw: Seq<char>) -> Seq<BriefView> {
    match source_nodes(lang, raw) {
        None => Seq::empty(),
        Some(ns) => briefs_upto(lang, ns, lang.prepared(raw), ns.len()),
    }
}

pub fn collect_defs(lang: Lang, t: &Nodes, src: &Source) -> (r: Vec<DefBrief>)
    requires
        t.wf(),
        src.wf(),
    ensures
        brief_views(r@) == briefs_upto(lang, t@, src@, t@.len()),
{
    let mut out: Vec<DefBrief> = Vec::new();
    assert(brief_views(out@) =~= Seq::<BriefView>::empty());
    for i in 0..t.nodes.len()
        invariant
            t.wf(),
            src.wf(),
            brief_views(out@) == briefs_upto(lang, t@, src@, i as nat),
    {
        assert(t@[i as int] == t.nodes@[i as int]@);
        if let Some((name, kind)) = def_name(lang, t, i, src) {
            let ghost before = out@;
            let doc = leading_doc(lang, t, i, src);
            assert(strs(doc@).len() == doc@.len());
            let b = DefBrief {
                name,
                kind,
                line: t.nodes[i].row as u64 + 1,
                signature: signature_of(t, i, src),
                has_doc: doc.len() > 0,
                exported: is_exported(lang, t, i, src),
            };
            out.push(b);
            assert(brief_views(out@) =~= brief_views(before).push(b@));
        }
    }
    out
}

pub fn definitions(lang: Lang, raw: &str) -> (r: Vec<DefBrief>)
    ensures
        brief_views(r@) == briefs_of(lang, raw@),
{
    let prepared = lang.preprocess(raw);
    match parse_prepared(lang, prepared.as_str()) {
        None => {
            let none: Vec<DefBrief> = Vec::new();
            assert(brief_views(none@) =~= Seq::<BriefView>::empty());
            none
        },
        Some(nodes) => {
            let t = Nodes::new(nodes);
            let src = Source::new(prepared.as_str());
            collect_defs(lang, &t, &src)
        },
    }
}

// ---------------------------------------------------------------------------
// Laws

/// Agreement of names is symmetric, holds of every name with itself, and holds of
/// a qualified name and its last segment.
pub proof fn law_names_agree(a: Seq<char>, b: Seq<char>)
    ensures
        names_agree(a, b) == names_agree(b, a),
        names_agree(a, a),
        segment(b) == a ==> names_agree(a, b) || segment(a) != a,
{
}

/// A definition that is found for a symbol has a name that agrees with it, and
/// none that stands before it has.
pub proof fn law_found_definition_agrees(
    lang: Lang,
    ns: Seq<SyntaxView>,
    src: Seq<char>,
    symbol: Seq<char>,
    k: int,
)
    requires
        def_from(lang, ns, src, symbol, 0) == Some(k),
    ensures
        0 <= k < ns.len(),
        def_at(lang, ns, k, src) matches Some(d) && names_agree(d.0, symbol),
        forall|j: int|
            0 <= j < k ==> !(#[trigger] def_at(lang, ns, j, src) matches Some(d) && names_agree(
                d.0,
                symbol,
            )),
{
    lemma_def_from(lang, ns, src, symbol, 0);
    assert forall|j: int| 0 <= j < k implies !(#[trigger] def_at(lang, ns, j, src) matches Some(d)
        && names_agree(d.0, symbol)) by {
        lemma_def_none_before(lang, ns, src, symbol, 0, j, k);
    }
}

proof fn lemma_def_none_before(
    lang: Lang,
    ns: Seq<SyntaxView>,
    src: Seq<char>,
    symbol: Seq<char>,
    i: int,
    j: int,
    k: int,
)
    requires
        0 <= i <= j < k < ns.len(),
        def_from(lang, ns, src, symbol, i) == Some(k),
    ensures
        !(def_at(lang, ns, j, src) matches Some(d) && names_agree(d.0, symbol)),
    decreases j - i,
{
    if i < j {
        lemma_def_none_before(lang, ns, src, symbol, i + 1, j, k);
    }
}

} // verus!

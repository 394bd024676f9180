//! Syntax trees as plain lists of nodes.
//!
//! The nodes of a tree stand in the order in which a walk meets them: a node,
//! then what is below it, then what follows it. The depth of a node tells where
//! it belongs.
use vstd::prelude::*;
use crate::lang::{Grammar, Lang};
use crate::text::{blen, char_width, copy, same, size, slice, to_chars};

verus! {

/// The parts that a node can play in the node above it.
pub const NAME: usize = 0;

pub const BODY: usize = 1;

pub const VALUE: usize = 2;

pub const FUNCTION: usize = 3;

pub const DECLARATOR: usize = 4;

pub const FIELD: usize = 5;

pub const PROPERTY: usize = 6;

pub const ATTRIBUTE: usize = 7;

pub const MACRO: usize = 8;

pub const ARGUMENTS: usize = 9;

/// A node: its kind, its place in bytes and in rows, how deep it lies, and which
/// parts it plays in the node above.
pub struct SyntaxNode {
    pub kind: String,
    pub start: usize,
    pub end: usize,
    pub row: u32,
    pub end_row: u32,
    pub depth: usize,
    pub parts: Vec<bool>,
}

/// The values of a [`SyntaxNode`].
pub struct SyntaxView {
    pub kind: Seq<char>,
    pub start: nat,
    pub end: nat,
    pub row: nat,
    pub end_row: nat,
    pub depth: nat,
    pub parts: Seq<bool>,
}

impl View for SyntaxNode {
    type V = SyntaxView;

    open spec fn view(&self) -> SyntaxView {
        SyntaxView {
            kind: self.kind@,
            start: self.start as nat,
            end: self.end as nat,
            row: self.row as nat,
            end_row: self.end_row as nat,
            depth: self.depth as nat,
            parts: self.parts@,
        }
    }
}

pub open spec fn node_views(v: Seq<SyntaxNode>) -> Seq<SyntaxView> {
    Seq::new(v.len(), |i: int| v[i]@)
}

// ---------------------------------------------------------------------------
// Parsing

#[verifier::external_type_specification]
#[verifier::external_body]
pub struct ExTree(tree_sitter::Tree);

/// The nodes of a tree, in the order of a walk. A part is played by the first
/// child that the node above has under the name of the part.
pub uninterp spec fn tree_nodes(t: tree_sitter::Tree) -> Seq<SyntaxView>;

/// The nodes that `tree-sitter` finds in a text with a grammar.
pub uninterp spec fn syntax_nodes(g: Grammar, text: Seq<char>) -> Option<Seq<SyntaxView>>;

/// `Parser::set_language` and `Parser::parse` of `tree-sitter`, without an earlier
/// tree: the tree that a grammar makes of a text, or nothing where the grammar
/// cannot be used.
#[verifier::external_body]
fn parse_tree(g: Grammar, text: &str) -> (r: Option<tree_sitter::Tree>)
    ensures
        match r {
            Some(t) => syntax_nodes(g, text@) == Some(tree_nodes(t)),
            None => syntax_nodes(g, text@) is None,
        },
{
    let language: tree_sitter::Language = match g {
        Grammar::Cpp => tree_sitter_cpp::LANGUAGE.into(),
        Grammar::Rust => tree_sitter_rust::LANGUAGE.into(),
        Grammar::Python => tree_sitter_python::LANGUAGE.into(),
        Grammar::Glsl => tree_sitter_glsl::LANGUAGE_GLSL.into(),
        Grammar::TypeScript => tree_sitter_typescript::LANGUAGE_TYPESCRIPT.into(),
        Grammar::Tsx => tree_sitter_typescript::LANGUAGE_TSX.into(),
        Grammar::CSharp => tree_sitter_c_sharp::LANGUAGE.into(),
    };
    let mut parser = tree_sitter::Parser::new();
    parser.set_language(&language).ok()?;
    parser.parse(text, None)
}

/// `Tree::walk` of `tree-sitter`: the nodes of a tree, taken down one by one as
/// the cursor meets them.
#[verifier::external_body]
fn list_nodes(tree: &tree_sitter::Tree) -> (r: Vec<SyntaxNode>)
    ensures
        node_views(r@) == tree_nodes(*tree),
{
    let fields = ["name", "body", "value", "function", "declarator", "field", "property", "attribute", "macro", "arguments"];
    let mut c = tree.walk();
    let mut out = Vec::new();
    loop {
        let n = c.node();
        let parts = fields.map(|f| n.parent().and_then(|q| q.child_by_field_name(f)) == Some(n)).to_vec();
        let (row, end_row) = (n.start_position().row as u32, n.end_position().row as u32);
        out.push(SyntaxNode { kind: n.kind().into(), start: n.start_byte(), end: n.end_byte(), row, end_row, depth: c.depth() as usize, parts });
        if !c.goto_first_child() {
            while !c.goto_next_sibling() {
                if !c.goto_parent() { return out; }
            }
        }
    }
}

/// The nodes of a source in a language, prepared as the language asks for.
pub open spec fn source_nodes(lang: Lang, src: Seq<char>) -> Option<Seq<SyntaxView>> {
    match lang.grammar() {
        None => None,
        Some(g) => syntax_nodes(g, lang.prepared(src)),
    }
}

/// Parses a source that has been prepared.
pub fn parse_prepared(lang: Lang, prepared: &str) -> (r: Option<Vec<SyntaxNode>>)
    ensures
        match (r, lang.grammar()) {
            (Some(v), Some(g)) => syntax_nodes(g, prepared@) == Some(node_views(v@)),
            (None, Some(g)) => syntax_nodes(g, prepared@) is None,
            (Some(_), None) => false,
            (None, None) => true,
        },
{
    match lang.ts_language() {
        None => None,
        Some(g) => match parse_tree(g, prepared) {
            None => None,
            Some(t) => Some(list_nodes(&t)),
        },
    }
}

// ---------------------------------------------------------------------------
// Places in a text

/// A text with the byte at which each of its characters begins.
pub struct Source {
    pub chars: Vec<char>,
    pub starts: Vec<usize>,
}

impl View for Source {
    type V = Seq<char>;

    open spec fn view(&self) -> Seq<char> {
        self.chars@
    }
}

/// The character position of a byte offset, where a character begins or the text
/// ends.
pub open spec fn at_byte(s: Seq<char>, b: nat) -> Option<int> {
    if exists|i: int| 0 <= i <= s.len() && #[trigger] blen(s.take(i)) == b {
        Some(choose|i: int| 0 <= i <= s.len() && #[trigger] blen(s.take(i)) == b)
    } else {
        None
    }
}

pub proof fn lemma_blen_strict(s: Seq<char>, i: int, j: int)
    requires
        0 <= i < j <= s.len(),
    ensures
        blen(s.take(i)) < blen(s.take(j)),
    decreases j - i,
{
    assert(s.take(j) =~= s.take(j - 1).push(s[j - 1]));
    crate::text::lemma_blen_push(s.take(j - 1), s[j - 1]);
    if i < j - 1 {
        lemma_blen_strict(s, i, j - 1);
    }
}

pub proof fn lemma_at_byte(s: Seq<char>, i: int)
    requires
        0 <= i <= s.len(),
    ensures
        at_byte(s, blen(s.take(i))) == Some(i),
{
    let b = blen(s.take(i));
    let k = choose|k: int| 0 <= k <= s.len() && #[trigger] blen(s.take(k)) == b;
    if k < i {
        lemma_blen_strict(s, k, i);
    } else if i < k {
        lemma_blen_strict(s, i, k);
    }
}

/// The text between two bytes; empty where they are no bounds of characters.
pub open spec fn between(s: Seq<char>, a: nat, b: nat) -> Seq<char> {
    match (at_byte(s, a), at_byte(s, b)) {
        (Some(i), Some(j)) => if i <= j {
            s.subrange(i, j)
        } else {
            ""@
        },
        _ => ""@,
    }
}

impl Source {
    pub open spec fn wf(&self) -> bool {
        &&& self.starts@.len() == self.chars@.len() + 1
        &&& forall|i: int|
            0 <= i <= self.chars@.len() ==> #[trigger] self.starts@[i] == blen(self.chars@.take(i))
    }

    pub fn new(text: &str) -> (r: Source)
        ensures
            r.wf(),
            r@ == text@,
    {
        let chars = to_chars(text);
        let total: usize = size(text);
        let mut starts: Vec<usize> = Vec::new();
        let mut at: usize = 0;
        starts.push(0);
        assert(text@.take(0) =~= Seq::<char>::empty());
        for i in 0..chars.len()
            invariant
                chars@ == text@,
                total == blen(text@),
                at == blen(text@.take(i as int)),
                starts@.len() == i + 1,
                forall|k: int|
                    0 <= k <= i ==> #[trigger] starts@[k] == blen(text@.take(k)),
        {
            proof {
                assert(text@.take(i + 1) =~= text@.take(i as int).push(text@[i as int]));
                crate::text::lemma_blen_push(text@.take(i as int), text@[i as int]);
                crate::text::lemma_blen_take(text@, i + 1);
            }
            at = at + char_width(chars[i]);
            starts.push(at);
        }
        Source { chars, starts }
    }

    /// The position of a byte offset.
    pub fn position(&self, b: usize) -> (r: Option<usize>)
        requires
            self.wf(),
        ensures
            match r {
                Some(i) => at_byte(self@, b as nat) == Some(i as int) && i <= self.chars@.len(),
                None => at_byte(self@, b as nat) is None,
            },
    {
        let mut lo: usize = 0;
        let mut hi: usize = self.starts.len();
        let ghost s = self@;
        while lo < hi
            invariant
                self.wf(),
                s == self@,
                lo <= hi <= self.starts@.len(),
                forall|k: int| 0 <= k < lo ==> #[trigger] self.starts@[k] < b,
                forall|k: int| hi <= k < self.starts@.len() ==> #[trigger] self.starts@[k] > b,
            decreases hi - lo,
        {
            let mid: usize = lo + (hi - lo) / 2;
            let x: usize = self.starts[mid];
            if x == b {
                proof {
                    lemma_at_byte(s, mid as int);
                }
                return Some(mid);
            }
            if x < b {
                proof {
                    assert forall|k: int| 0 <= k <= mid implies #[trigger] self.starts@[k] < b by {
                        if k < mid {
                            lemma_blen_strict(s, k, mid as int);
                            assert(self.starts@[k] == blen(s.take(k)));
                        }
                    }
                }
                lo = mid + 1;
            } else {
                proof {
                    assert forall|k: int| mid <= k < self.starts@.len() implies #[trigger]
                        self.starts@[k] > b by {
                        if mid < k {
                            lemma_blen_strict(s, mid as int, k);
                            assert(self.starts@[k] == blen(s.take(k)));
                        }
                    }
                }
                hi = mid;
            }
        }
        proof {
            assert forall|i: int| 0 <= i <= s.len() implies #[trigger] blen(s.take(i)) != b by {
                assert(self.starts@[i] == blen(s.take(i)));
            }
        }
        None
    }

    /// The text between two bytes.
    pub fn text(&self, a: usize, b: usize) -> (r: String)
        requires
            self.wf(),
        ensures
            r@ == between(self@, a as nat, b as nat),
    {
        match self.position(a) {
            None => copy(""),
            Some(i) => match self.position(b) {
                None => copy(""),
                Some(j) => if i <= j {
                    slice(&self.chars, i, j)
                } else {
                    copy("")
                },
            },
        }
    }
}

// ---------------------------------------------------------------------------
// Finding one's way

/// Whether a node plays a part in the node above it.
pub open spec fn plays(n: SyntaxView, part: usize) -> bool {
    part < n.parts.len() && n.parts[part as int]
}

pub fn is_part(n: &SyntaxNode, part: usize) -> (r: bool)
    ensures
        r == plays(n@, part),
{
    part < n.parts.len() && n.parts[part]
}

/// The nearest node before `j` that is less deep than `d`.
pub open spec fn above(ns: Seq<SyntaxView>, j: int, d: nat) -> Option<int>
    decreases j,
{
    if j <= 0 || j > ns.len() {
        None
    } else if ns[j - 1].depth < d {
        Some(j - 1)
    } else {
        above(ns, j - 1, d)
    }
}

/// The node above a node.
pub open spec fn parent(ns: Seq<SyntaxView>, i: int) -> Option<int> {
    above(ns, i, ns[i].depth)
}

pub open spec fn place(r: Option<usize>) -> Option<int> {
    match r {
        Some(i) => Some(i as int),
        None => None,
    }
}

proof fn lemma_above_skip(ns: Seq<SyntaxView>, a: int, b: int, d: nat)
    requires
        0 <= a <= b <= ns.len(),
        forall|k: int| a <= k < b ==> (#[trigger] ns[k]).depth >= d,
    ensures
        above(ns, b, d) == above(ns, a, d),
    decreases b - a,
{
    if a < b {
        assert(ns[b - 1].depth >= d);
        lemma_above_skip(ns, a, b - 1, d);
    }
}

proof fn lemma_above(ns: Seq<SyntaxView>, j: int, d: nat)
    requires
        0 <= j <= ns.len(),
    ensures
        match above(ns, j, d) {
            Some(p) => 0 <= p < j && ns[p].depth < d && (forall|k: int|
                p < k < j ==> (#[trigger] ns[k]).depth >= d),
            None => forall|k: int| 0 <= k < j ==> (#[trigger] ns[k]).depth >= d,
        },
    decreases j,
{
    if j > 0 && ns[j - 1].depth >= d {
        lemma_above(ns, j - 1, d);
    }
}

pub proof fn lemma_parent(ns: Seq<SyntaxView>, i: int)
    requires
        0 <= i < ns.len(),
    ensures
        parent(ns, i) matches Some(p) ==> 0 <= p < i,
{
    lemma_above(ns, i, ns[i].depth);
}

/// A list of nodes with the node above each of them.
pub struct Nodes {
    pub nodes: Vec<SyntaxNode>,
    pub up: Vec<Option<usize>>,
}

impl View for Nodes {
    type V = Seq<SyntaxView>;

    open spec fn view(&self) -> Seq<SyntaxView> {
        node_views(self.nodes@)
    }
}

impl Nodes {
    pub open spec fn wf(&self) -> bool {
        &&& self.up@.len() == self.nodes@.len()
        &&& forall|i: int|
            0 <= i < self.up@.len() ==> place(#[trigger] self.up@[i]) == parent(self@, i)
    }

    pub fn new(nodes: Vec<SyntaxNode>) -> (r: Nodes)
        ensures
            r.wf(),
            r@ == node_views(nodes@),
    {
        let ghost all = node_views(nodes@);
        let mut up: Vec<Option<usize>> = Vec::new();
        for i in 0..nodes.len()
            invariant
                all == node_views(nodes@),
                up@.len() == i,
                forall|k: int| 0 <= k < i ==> place(#[trigger] up@[k]) == parent(all, k),
        {
            let d: usize = nodes[i].depth;
            assert(all[i as int] == nodes@[i as int]@);
            let mut found: Option<usize> = None;
            let mut at: Option<usize> = if i == 0 {
                None
            } else {
                Some(i - 1)
            };
            let mut j: usize = i;
            while at.is_some() && found.is_none()
                invariant
                    all == node_views(nodes@),
                    i < nodes@.len(),
                    d == all[i as int].depth,
                    up@.len() == i,
                    j <= i,
                    forall|k: int| 0 <= k < i ==> place(#[trigger] up@[k]) == parent(all, k),
                    found is None ==> match at {
                        Some(x) => x + 1 == j,
                        None => j == 0,
                    },
                    found is None ==> parent(all, i as int) == above(all, j as int, d as nat),
                    found matches Some(p) ==> parent(all, i as int) == Some(p as int),
                decreases j, if found is None { 1int } else { 0 },
            {
                let x: usize = at.unwrap();
                assert(all[x as int] == nodes@[x as int]@);
                if nodes[x].depth < d {
                    found = Some(x);
                } else {
                    let next = up[x];
                    proof {
                        lemma_above(all, x as int, all[x as int].depth);
                        assert(place(up@[x as int]) == parent(all, x as int));
                        let to: int = match next {
                            Some(p) => p + 1,
                            None => 0,
                        };
                        lemma_above_skip(all, to, x + 1, d as nat);
                    }
                    j = match next {
                        Some(p) => p + 1,
                        None => 0,
                    };
                    at = next;
                }
            }
            up.push(found);
        }
        Nodes { nodes, up }
    }

    /// The node above a node.
    pub fn parent(&self, i: usize) -> (r: Option<usize>)
        requires
            self.wf(),
            i < self.nodes@.len(),
        ensures
            place(r) == parent(self@, i as int),
            r matches Some(p) ==> p < i,
    {
        proof {
            lemma_parent(self@, i as int);
        }
        self.up[i]
    }
}

/// Where what lies below a node ends, searching up to `e`.
pub open spec fn end_of(ns: Seq<SyntaxView>, d: nat, j: int, e: int) -> int
    decreases e - j,
{
    if j >= e || j < 0 || j >= ns.len() || ns[j].depth <= d {
        j
    } else {
        end_of(ns, d, j + 1, e)
    }
}

pub proof fn lemma_end_of(ns: Seq<SyntaxView>, d: nat, j: int, e: int)
    requires
        j <= e,
    ensures
        j <= end_of(ns, d, j, e) <= e,
    decreases e - j,
{
    if !(j >= e || j < 0 || j >= ns.len() || ns[j].depth <= d) {
        lemma_end_of(ns, d, j + 1, e);
    }
}

/// The end of what lies below node `i`.
pub open spec fn subtree_end(ns: Seq<SyntaxView>, i: int, e: int) -> int {
    end_of(ns, ns[i].depth, i + 1, e)
}

pub fn find_end(ns: &Vec<SyntaxNode>, i: usize, e: usize) -> (r: usize)
    requires
        i < e <= ns@.len(),
    ensures
        r == subtree_end(node_views(ns@), i as int, e as int),
        i < r <= e,
{
    let d: usize = ns[i].depth;
    let mut j: usize = i + 1;
    while j < e && ns[j].depth > d
        invariant
            i < j <= e <= ns@.len(),
            i < ns@.len(),
            d == ns@[i as int].depth,
            subtree_end(node_views(ns@), i as int, e as int) == end_of(
                node_views(ns@),
                d as nat,
                j as int,
                e as int,
            ),
        decreases e - j,
    {
        assert(node_views(ns@)[j as int] == ns@[j as int]@);
        j = j + 1;
    }
    assert(j < e ==> node_views(ns@)[j as int] == ns@[j as int]@);
    j
}

/// The first child of node `i` that plays a part, searching from `j` on.
pub open spec fn part_from(ns: Seq<SyntaxView>, i: int, part: usize, j: int) -> Option<int>
    decreases ns.len() - j,
{
    if j < 0 || j >= ns.len() || ns[j].depth <= ns[i].depth {
        None
    } else if ns[j].depth == ns[i].depth + 1 && plays(ns[j], part) {
        Some(j)
    } else {
        part_from(ns, i, part, j + 1)
    }
}

/// The child of a node that plays a part.
pub open spec fn child(ns: Seq<SyntaxView>, i: int, part: usize) -> Option<int> {
    part_from(ns, i, part, i + 1)
}

pub fn child_of(ns: &Vec<SyntaxNode>, i: usize, part: usize) -> (r: Option<usize>)
    requires
        i < ns@.len(),
    ensures
        place(r) == child(node_views(ns@), i as int, part),
        r matches Some(c) ==> i < c < ns@.len(),
{
    let d: usize = ns[i].depth;
    let ghost all = node_views(ns@);
    assert(ns@.len() == ns.len());
    let mut j: usize = i + 1;
    while j < ns.len()
        invariant
            all == node_views(ns@),
            i < j <= ns@.len(),
            d == ns@[i as int].depth,
            child(all, i as int, part) == part_from(all, i as int, part, j as int),
        decreases ns@.len() - j,
    {
        assert(all[j as int] == ns@[j as int]@);
        assert(all[i as int] == ns@[i as int]@);
        let dj: usize = ns[j].depth;
        if dj <= d {
            return None;
        }
        if dj - d == 1 && is_part(&ns[j], part) {
            return Some(j);
        }
        j = j + 1;
    }
    None
}

/// The sibling before a node.
pub open spec fn sibling_before(ns: Seq<SyntaxView>, i: int, j: int) -> Option<int>
    decreases j,
{
    if j <= 0 || j > ns.len() || ns[j - 1].depth < ns[i].depth {
        None
    } else if ns[j - 1].depth == ns[i].depth {
        Some(j - 1)
    } else {
        sibling_before(ns, i, j - 1)
    }
}

pub open spec fn previous(ns: Seq<SyntaxView>, i: int) -> Option<int> {
    sibling_before(ns, i, i)
}

pub fn previous_of(ns: &Vec<SyntaxNode>, i: usize) -> (r: Option<usize>)
    requires
        i < ns@.len(),
    ensures
        place(r) == previous(node_views(ns@), i as int),
        r matches Some(p) ==> p < i,
{
    let d: usize = ns[i].depth;
    let ghost all = node_views(ns@);
    let mut j: usize = i;
    while j > 0
        invariant
            all == node_views(ns@),
            j <= i < ns@.len(),
            d == ns@[i as int].depth,
            previous(all, i as int) == sibling_before(all, i as int, j as int),
        decreases j,
    {
        assert(all[j - 1] == ns@[j - 1]@);
        assert(all[i as int] == ns@[i as int]@);
        if ns[j - 1].depth < d {
            return None;
        }
        if ns[j - 1].depth == d {
            return Some(j - 1);
        }
        j = j - 1;
    }
    None
}

/// The text of a node.
pub open spec fn node_text(n: SyntaxView, src: Seq<char>) -> Seq<char> {
    between(src, n.start, n.end)
}

pub fn text_of(n: &SyntaxNode, src: &Source) -> (r: String)
    requires
        src.wf(),
    ensures
        r@ == node_text(n@, src@),
{
    src.text(n.start, n.end)
}

pub fn kind_is(n: &SyntaxNode, kind: &str) -> (r: bool)
    ensures
        r == (n@.kind == kind@),
{
    same(n.kind.as_str(), kind)
}

} // verus!

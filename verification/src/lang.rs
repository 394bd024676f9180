//! Languages, by file extension, and what is done to a source before it is
//! parsed.
use vstd::prelude::*;
use vstd::utf8::{encode_scalar, encode_utf8};
use crate::text::{
    blen, copy, char_width, find, find_from, lower_ascii, lowered, push_spaces, same, slice,
    spaces, split_char, split_on, strs, to_chars, width,
};

verus! {

#[derive(Clone, Copy, PartialEq, Eq, Debug, Structural)]
pub enum Lang {
    Cpp,
    Rust,
    Python,
    Daslang,
    Glsl,
    Ts,
    Tsx,
    Svelte,
    CSharp,
}

/// The grammars that sources are parsed with.
#[derive(Clone, Copy, PartialEq, Eq, Debug, Structural)]
pub enum Grammar {
    Cpp,
    Rust,
    Python,
    Glsl,
    TypeScript,
    Tsx,
    CSharp,
}

/// The language of an extension in small letters.
pub open spec fn lang_of(e: Seq<char>) -> Option<Lang> {
    if e == "h"@ || e == "hpp"@ || e == "hh"@ || e == "cpp"@ || e == "cc"@ || e == "cxx"@ {
        Some(Lang::Cpp)
    } else if e == "rs"@ {
        Some(Lang::Rust)
    } else if e == "py"@ || e == "pyi"@ {
        Some(Lang::Python)
    } else if e == "das"@ {
        Some(Lang::Daslang)
    } else if e == "glsl"@ || e == "vert"@ || e == "frag"@ || e == "comp"@ || e == "geom"@ || e
        == "tesc"@ || e == "tese"@ || e == "vs"@ || e == "fs"@ {
        Some(Lang::Glsl)
    } else if e == "ts"@ || e == "mts"@ || e == "cts"@ || e == "js"@ || e == "mjs"@ || e == "cjs"@ {
        Some(Lang::Ts)
    } else if e == "tsx"@ {
        Some(Lang::Tsx)
    } else if e == "svelte"@ {
        Some(Lang::Svelte)
    } else if e == "cs"@ {
        Some(Lang::CSharp)
    } else {
        None
    }
}

/// A part of a path that names something: not empty, and not the dot that stands
/// for the directory itself.
pub open spec fn names_something() -> spec_fn(Seq<char>) -> bool {
    |p: Seq<char>| p.len() > 0 && p != "."@
}

/// The file name at the end of a path.
pub open spec fn file_name(path: Seq<char>) -> Option<Seq<char>> {
    let parts = split_on(path, '/').filter(names_something());
    if parts.len() == 0 || parts.last() == ".."@ {
        None
    } else {
        Some(parts.last())
    }
}

/// Where the last dot stands among the first `n` characters.
pub open spec fn last_dot(s: Seq<char>, n: nat) -> Option<int>
    decreases n,
{
    if n == 0 || n > s.len() {
        None
    } else if s[n - 1] == '.' {
        Some(n - 1)
    } else {
        last_dot(s, (n - 1) as nat)
    }
}

/// The extension of a file name: what follows its last dot, unless the name
/// begins with that dot.
pub open spec fn extension(name: Seq<char>) -> Option<Seq<char>> {
    match last_dot(name, name.len()) {
        None => None,
        Some(i) => if i == 0 {
            None
        } else {
            Some(name.skip(i + 1))
        },
    }
}

/// The language of a path.
pub open spec fn path_lang(path: Seq<char>) -> Option<Lang> {
    match file_name(path) {
        None => None,
        Some(name) => match extension(name) {
            None => None,
            Some(e) => lang_of(lowered(e)),
        },
    }
}

pub fn name_of(path: &str) -> (r: Option<String>)
    ensures
        match r {
            Some(n) => file_name(path@) == Some(n@),
            None => file_name(path@) is None,
        },
{
    let parts = split_char(path, '/');
    let ghost all = strs(parts@);
    let ghost keep = names_something();
    let mut last: Option<usize> = None;
    proof {
        reveal(Seq::filter);
    }
    assert(all.take(0).filter(keep) =~= Seq::<Seq<char>>::empty());
    for i in 0..parts.len()
        invariant
            all == strs(parts@),
            keep == names_something(),
            match last {
                Some(k) => k < i && all.take(i as int).filter(keep).len() > 0 && all.take(
                    i as int,
                ).filter(keep).last() == all[k as int],
                None => all.take(i as int).filter(keep).len() == 0,
            },
    {
        proof {
            assert(all.take(i + 1) =~= all.take(i as int).push(all[i as int]));
            all.take(i as int).lemma_filter_push(all[i as int], keep);
        }
        assert(all[i as int] == parts@[i as int]@);
        if !crate::text::is_blank(parts[i].as_str()) && !same(parts[i].as_str(), ".") {
            last = Some(i);
        }
    }
    assert(all.take(all.len() as int) =~= all);
    match last {
        None => None,
        Some(k) => {
            assert(all[k as int] == parts@[k as int]@);
            if same(parts[k].as_str(), "..") {
                None
            } else {
                Some(copy(parts[k].as_str()))
            }
        },
    }
}

pub fn extension_of(name: &str) -> (r: Option<String>)
    ensures
        match r {
            Some(e) => extension(name@) == Some(e@),
            None => extension(name@) is None,
        },
{
    let v = to_chars(name);
    let mut n: usize = v.len();
    while n > 0 && v[n - 1] != '.'
        invariant
            v@ == name@,
            n <= v@.len(),
            last_dot(name@, name@.len()) == last_dot(name@, n as nat),
        decreases n,
    {
        n = n - 1;
    }
    if n <= 1 {
        None
    } else {
        assert(name@.subrange(n as int, name@.len() as int) =~= name@.skip(n as int));
        Some(slice(&v, n, v.len()))
    }
}

impl Lang {
    /// The language of a bare extension, in letters of any size.
    pub fn from_ext(ext: &str) -> (r: Option<Lang>)
        ensures
            r == lang_of(lowered(ext@)),
    {
        let low = lower_ascii(ext);
        let e = low.as_str();
        if same(e, "h") || same(e, "hpp") || same(e, "hh") || same(e, "cpp") || same(e, "cc")
            || same(e, "cxx") {
            Some(Lang::Cpp)
        } else if same(e, "rs") {
            Some(Lang::Rust)
        } else if same(e, "py") || same(e, "pyi") {
            Some(Lang::Python)
        } else if same(e, "das") {
            Some(Lang::Daslang)
        } else if same(e, "glsl") || same(e, "vert") || same(e, "frag") || same(e, "comp") || same(
            e,
            "geom",
        ) || same(e, "tesc") || same(e, "tese") || same(e, "vs") || same(e, "fs") {
            Some(Lang::Glsl)
        } else if same(e, "ts") || same(e, "mts") || same(e, "cts") || same(e, "js") || same(
            e,
            "mjs",
        ) || same(e, "cjs") {
            Some(Lang::Ts)
        } else if same(e, "tsx") {
            Some(Lang::Tsx)
        } else if same(e, "svelte") {
            Some(Lang::Svelte)
        } else if same(e, "cs") {
            Some(Lang::CSharp)
        } else {
            None
        }
    }

    /// The language of a path with forward slashes, by its extension.
    pub fn from_path(path: &str) -> (r: Option<Lang>)
        ensures
            r == path_lang(path@),
    {
        match name_of(path) {
            None => None,
            Some(name) => match extension_of(name.as_str()) {
                None => None,
                Some(e) => Lang::from_ext(e.as_str()),
            },
        }
    }

    /// The grammar of a language; Daslang has none and is scanned by lines. TSX
    /// has its own dialect, Svelte is reduced to its scripts first.
    pub open spec fn grammar(self) -> Option<Grammar> {
        match self {
            Lang::Cpp => Some(Grammar::Cpp),
            Lang::Rust => Some(Grammar::Rust),
            Lang::Python => Some(Grammar::Python),
            Lang::Glsl => Some(Grammar::Glsl),
            Lang::Ts => Some(Grammar::TypeScript),
            Lang::Svelte => Some(Grammar::TypeScript),
            Lang::Tsx => Some(Grammar::Tsx),
            Lang::CSharp => Some(Grammar::CSharp),
            Lang::Daslang => None,
        }
    }

    pub fn ts_language(self) -> (r: Option<Grammar>)
        ensures
            r == self.grammar(),
    {
        match self {
            Lang::Cpp => Some(Grammar::Cpp),
            Lang::Rust => Some(Grammar::Rust),
            Lang::Python => Some(Grammar::Python),
            Lang::Glsl => Some(Grammar::Glsl),
            Lang::Ts => Some(Grammar::TypeScript),
            Lang::Svelte => Some(Grammar::TypeScript),
            Lang::Tsx => Some(Grammar::Tsx),
            Lang::CSharp => Some(Grammar::CSharp),
            Lang::Daslang => None,
        }
    }

    /// The source as it is parsed: of a Svelte component only its scripts remain,
    /// where they stood; any other source is left alone.
    pub open spec fn prepared(self, raw: Seq<char>) -> Seq<char> {
        if self == Lang::Svelte {
            scripts(raw, 0, 0)
        } else {
            raw
        }
    }

    pub fn preprocess(self, raw: &str) -> (r: String)
        ensures
            r@ == self.prepared(raw@),
    {
        match self {
            Lang::Svelte => svelte_script_only(raw),
            _ => copy(raw),
        }
    }
}

/// A character blanked: a line break stays, any other becomes as many spaces as
/// it has bytes.
pub open spec fn blank_char(c: char) -> Seq<char> {
    if c == '\n' {
        seq!['\n']
    } else {
        spaces(width(c))
    }
}

pub open spec fn blanked(s: Seq<char>) -> Seq<char>
    decreases s.len(),
{
    if s.len() == 0 {
        Seq::empty()
    } else {
        blanked(s.drop_last()) + blank_char(s.last())
    }
}

/// The next script at or behind a place: where its content begins and where it
/// ends.
pub open spec fn next_script(s: Seq<char>, from: int) -> Option<(int, int)> {
    let low = lowered(s);
    match find_from(low, "<script"@, from) {
        None => None,
        Some(o) => match find_from(low, ">"@, o) {
            None => None,
            Some(g) => match find_from(low, "</script>"@, g + 1) {
                None => None,
                Some(c) => Some((g + 1, c)),
            },
        },
    }
}

/// Everything from `b` on blanked but the scripts found from `k` on.
pub open spec fn scripts(s: Seq<char>, b: int, k: int) -> Seq<char>
    decreases s.len() - b,
{
    if b < 0 || b > s.len() {
        Seq::empty()
    } else {
        match next_script(s, k) {
            None => blanked(s.skip(b)),
            Some((open, close)) => if b < open <= close <= s.len() {
                blanked(s.subrange(b, open)) + s.subrange(open, close) + scripts(
                    s,
                    close,
                    close + 9,
                )
            } else {
                blanked(s.skip(b))
            },
        }
    }
}

fn push_blank(out: &mut String, v: &Vec<char>, a: usize, b: usize)
    requires
        a <= b <= v@.len(),
    ensures
        final(out)@ == old(out)@ + blanked(v@.subrange(a as int, b as int)),
{
    let ghost start = out@;
    assert(v@.subrange(a as int, a as int) =~= Seq::<char>::empty());
    assert(out@ =~= start + blanked(v@.subrange(a as int, a as int)));
    for i in a..b
        invariant
            a <= i <= b <= v@.len(),
            out@ == start + blanked(v@.subrange(a as int, i as int)),
    {
        let ghost mid = out@;
        let ghost done = v@.subrange(a as int, i as int);
        assert(v@.subrange(a as int, i + 1).drop_last() =~= done);
        if v[i] == '\n' {
            out.push('\n');
            assert(out@ =~= mid + seq!['\n']);
        } else {
            push_spaces(out, char_width(v[i]));
        }
        assert(out@ =~= start + blanked(v@.subrange(a as int, i + 1)));
    }
}

fn push_slice(out: &mut String, v: &Vec<char>, a: usize, b: usize)
    requires
        a <= b <= v@.len(),
    ensures
        final(out)@ == old(out)@ + v@.subrange(a as int, b as int),
{
    let s = slice(v, a, b);
    out.append(s.as_str());
}

fn svelte_script_only(raw: &str) -> (r: String)
    ensures
        r@ == scripts(raw@, 0, 0),
{
    let v = to_chars(raw);
    let low = to_chars(lower_ascii(raw).as_str());
    let open_tag = to_chars("<script");
    let gt = to_chars(">");
    let close_tag = to_chars("</script>");
    proof {
        reveal_strlit("<script");
        reveal_strlit(">");
        reveal_strlit("</script>");
    }
    let mut out = String::new();
    let mut b: usize = 0;
    let mut k: usize = 0;
    loop
        invariant
            v@ == raw@,
            low@ == lowered(raw@),
            open_tag@ == "<script"@,
            gt@ == ">"@,
            close_tag@ == "</script>"@,
            open_tag@.len() == 7,
            gt@.len() == 1,
            close_tag@.len() == 9,
            b <= k <= v@.len(),
            scripts(raw@, 0, 0) == out@ + scripts(raw@, b as int, k as int),
        decreases v@.len() - b,
    {
        let ghost before = out@;
        assert(low@.len() == low.len());
        assert(v@.subrange(b as int, v@.len() as int) =~= v@.skip(b as int));
        let o = match find(&low, &open_tag, k) {
            Some(o) => o,
            None => {
                push_blank(&mut out, &v, b, v.len());
                return out;
            },
        };
        let g = match find(&low, &gt, o) {
            Some(g) => g,
            None => {
                push_blank(&mut out, &v, b, v.len());
                return out;
            },
        };
        let c = match find(&low, &close_tag, g + 1) {
            Some(c) => c,
            None => {
                push_blank(&mut out, &v, b, v.len());
                return out;
            },
        };
        proof {
            crate::text::lemma_find_from(low@, "<script"@, k as int);
            crate::text::lemma_find_from(low@, ">"@, o as int);
            crate::text::lemma_find_from(low@, "</script>"@, g + 1);
        }
        push_blank(&mut out, &v, b, g + 1);
        push_slice(&mut out, &v, g + 1, c);
        let ghost first = blanked(v@.subrange(b as int, g + 1));
        let ghost second = v@.subrange(g + 1, c as int);
        assert(out@ == before + first + second);
        assert(scripts(raw@, b as int, k as int) == first + second + scripts(
            raw@,
            c as int,
            c + 9,
        ));
        assert(before + (first + second + scripts(raw@, c as int, c + 9)) =~= out@ + scripts(
            raw@,
            c as int,
            c + 9,
        ));
        b = c;
        k = c + 9;
    }
}

// ---------------------------------------------------------------------------
// Laws

proof fn lemma_spaces_size(n: nat)
    ensures
        blen(spaces(n)) == n,
    decreases n,
{
    if n > 0 {
        lemma_spaces_size((n - 1) as nat);
        assert(spaces(n) =~= spaces((n - 1) as nat).push(' '));
        crate::text::lemma_blen_push(spaces((n - 1) as nat), ' ');
    } else {
        assert(spaces(0) =~= Seq::<char>::empty());
    }
}

proof fn lemma_blank_char_size(c: char)
    ensures
        blen(blank_char(c)) == width(c),
{
    if c == '\n' {
        assert(seq!['\n'] =~= Seq::<char>::empty().push('\n'));
        crate::text::lemma_blen_push(Seq::empty(), '\n');
    } else {
        lemma_spaces_size(width(c));
    }
}

proof fn lemma_blanked_size(s: Seq<char>)
    ensures
        blen(blanked(s)) == blen(s),
    decreases s.len(),
{
    if s.len() > 0 {
        lemma_blanked_size(s.drop_last());
        lemma_blank_char_size(s.last());
        crate::text::lemma_blen_add(blanked(s.drop_last()), blank_char(s.last()));
        assert(s =~= s.drop_last().push(s.last()));
        crate::text::lemma_blen_push(s.drop_last(), s.last());
    }
}

proof fn lemma_scripts_size(s: Seq<char>, b: int, k: int)
    requires
        0 <= b <= s.len(),
    ensures
        blen(scripts(s, b, k)) == blen(s.skip(b)),
    decreases s.len() - b,
{
    lemma_blanked_size(s.skip(b));
    if let Some((open, close)) = next_script(s, k) {
        if b < open <= close <= s.len() {
            let x = s.subrange(b, open);
            let y = s.subrange(open, close);
            lemma_scripts_size(s, close, close + 9);
            lemma_blanked_size(x);
            crate::text::lemma_blen_add(blanked(x), y);
            crate::text::lemma_blen_add(blanked(x) + y, scripts(s, close, close + 9));
            crate::text::lemma_blen_add(x, y);
            crate::text::lemma_blen_add(x + y, s.skip(close));
            assert(x + y + s.skip(close) =~= s.skip(b));
        }
    }
}

/// How many line breaks a text has.
pub open spec fn breaks(s: Seq<char>) -> nat
    decreases s.len(),
{
    if s.len() == 0 {
        0
    } else {
        breaks(s.drop_last()) + (if s.last() == '\n' {
            1nat
        } else {
            0
        })
    }
}

proof fn lemma_breaks_add(a: Seq<char>, b: Seq<char>)
    ensures
        breaks(a + b) == breaks(a) + breaks(b),
    decreases b.len(),
{
    if b.len() == 0 {
        assert(a + b =~= a);
    } else {
        assert((a + b).drop_last() =~= a + b.drop_last());
        lemma_breaks_add(a, b.drop_last());
    }
}

proof fn lemma_spaces_breaks(n: nat)
    ensures
        breaks(spaces(n)) == 0,
    decreases n,
{
    if n > 0 {
        lemma_spaces_breaks((n - 1) as nat);
        assert(spaces(n).drop_last() =~= spaces((n - 1) as nat));
    }
}

proof fn lemma_blanked_breaks(s: Seq<char>)
    ensures
        breaks(blanked(s)) == breaks(s),
    decreases s.len(),
{
    if s.len() > 0 {
        lemma_blanked_breaks(s.drop_last());
        lemma_breaks_add(blanked(s.drop_last()), blank_char(s.last()));
        lemma_spaces_breaks(width(s.last()));
        if s.last() == '\n' {
            assert(seq!['\n'].drop_last() =~= Seq::<char>::empty());
            assert(breaks(seq!['\n']) == 1) by {
                assert(breaks(Seq::<char>::empty()) == 0);
            }
        }
    }
}

proof fn lemma_scripts_breaks(s: Seq<char>, b: int, k: int)
    requires
        0 <= b <= s.len(),
    ensures
        breaks(scripts(s, b, k)) == breaks(s.skip(b)),
    decreases s.len() - b,
{
    lemma_blanked_breaks(s.skip(b));
    if let Some((open, close)) = next_script(s, k) {
        if b < open <= close <= s.len() {
            let x = s.subrange(b, open);
            let y = s.subrange(open, close);
            lemma_scripts_breaks(s, close, close + 9);
            lemma_blanked_breaks(x);
            lemma_breaks_add(blanked(x), y);
            lemma_breaks_add(blanked(x) + y, scripts(s, close, close + 9));
            lemma_breaks_add(x, y);
            lemma_breaks_add(x + y, s.skip(close));
            assert(x + y + s.skip(close) =~= s.skip(b));
        }
    }
}

/// Preparing a source changes neither its size in bytes nor the number of its
/// lines, so that places and lines in the result are those of the source.
pub proof fn law_prepared_keeps_places(lang: Lang, raw: Seq<char>)
    ensures
        blen(lang.prepared(raw)) == blen(raw),
        breaks(lang.prepared(raw)) == breaks(raw),
        lang != Lang::Svelte ==> lang.prepared(raw) == raw,
{
    assert(raw.skip(0) =~= raw);
    lemma_scripts_size(raw, 0, 0);
    lemma_scripts_breaks(raw, 0, 0);
}

/// Whether the character at `i` lies in one of the scripts found from `k` on.
pub open spec fn in_script(s: Seq<char>, k: int, i: int) -> bool
    decreases s.len() - k,
{
    match next_script(s, k) {
        Some((open, close)) => k < open <= close && close + 9 <= s.len() && (open <= i < close
            || in_script(s, close + 9, i)),
        None => false,
    }
}

proof fn lemma_behind(s: Seq<char>, k: int, i: int)
    requires
        in_script(s, k, i),
    ensures
        k < i,
    decreases s.len() - k,
{
    if let Some((open, close)) = next_script(s, k) {
        if !(open <= i < close) {
            lemma_behind(s, close + 9, i);
        }
    }
}

proof fn lemma_next_script(s: Seq<char>, k: int)
    requires
        0 <= k,
    ensures
        next_script(s, k) matches Some((open, close)) ==> k < open <= close && close + 9
            <= s.len(),
{
    let low = lowered(s);
    reveal_strlit("<script");
    reveal_strlit(">");
    reveal_strlit("</script>");
    crate::text::lemma_find_from(low, "<script"@, k);
    if let Some(o) = find_from(low, "<script"@, k) {
        crate::text::lemma_find_from(low, ">"@, o);
        if let Some(g) = find_from(low, ">"@, o) {
            crate::text::lemma_find_from(low, "</script>"@, g + 1);
        }
    }
}

proof fn lemma_blanked_add(a: Seq<char>, b: Seq<char>)
    ensures
        blanked(a + b) == blanked(a) + blanked(b),
    decreases b.len(),
{
    if b.len() == 0 {
        assert(a + b =~= a);
        assert(blanked(a) + blanked(b) =~= blanked(a));
    } else {
        assert((a + b).drop_last() =~= a + b.drop_last());
        lemma_blanked_add(a, b.drop_last());
        assert(blanked(a + b) =~= blanked(a) + blanked(b));
    }
}

proof fn lemma_space_bytes(n: nat, d: int)
    requires
        0 <= d < n,
    ensures
        encode_utf8(spaces(n)).len() == n,
        encode_utf8(spaces(n))[d] == 0x20,
    decreases n,
{
    let c = ' ' as u32;
    assert((0x20u32 & 0x7f) as u8 == 0x20) by (bit_vector);
    lemma_spaces_size(n);
    crate::text::lemma_bytes_one(' ');
    assert(encode_scalar(c)[0] == 0x20);
    let m = (n - 1) as nat;
    lemma_spaces_size(m);
    assert(spaces(n) =~= spaces(m) + seq![' ']);
    crate::text::lemma_bytes_add(spaces(m), seq![' ']);
    if d < m {
        lemma_space_bytes(m, d);
    }
}

proof fn lemma_blanked_byte(s: Seq<char>, i: int, d: int)
    requires
        0 <= i < s.len(),
        0 <= d < width(s[i]),
    ensures
        0 <= blen(s.take(i)) + d < blen(blanked(s)),
        encode_utf8(blanked(s))[blen(s.take(i)) + d] == (if s[i] == '\n' {
            encode_scalar(s[i] as u32)[d]
        } else {
            0x20
        }),
{
    let a = s.take(i);
    let c = s[i];
    let z = s.skip(i + 1);
    assert(s =~= a + seq![c] + z);
    lemma_blanked_add(a + seq![c], z);
    lemma_blanked_add(a, seq![c]);
    assert(blanked(seq![c]) =~= blank_char(c)) by {
        assert(seq![c].drop_last() =~= Seq::<char>::empty());
        assert(blanked(Seq::<char>::empty()) =~= Seq::<char>::empty());
    }
    crate::text::lemma_bytes_add(blanked(a) + blank_char(c), blanked(z));
    crate::text::lemma_bytes_add(blanked(a), blank_char(c));
    lemma_blanked_size(a);
    lemma_blank_char_size(c);
    if c == '\n' {
        crate::text::lemma_bytes_one(c);
    } else {
        lemma_space_bytes(width(c), d);
    }
}

proof fn lemma_scripts_byte(s: Seq<char>, b: int, k: int, i: int, d: int)
    requires
        0 <= b <= k <= s.len(),
        b <= i < s.len(),
        0 <= d < width(s[i]),
    ensures
        0 <= blen(s.subrange(b, i)) + d < blen(scripts(s, b, k)),
        encode_utf8(scripts(s, b, k))[blen(s.subrange(b, i)) + d] == (if s[i] == '\n'
            || in_script(s, k, i) {
            encode_scalar(s[i] as u32)[d]
        } else {
            0x20
        }),
    decreases s.len() - b,
{
    lemma_next_script(s, k);
    match next_script(s, k) {
        None => {
            assert(s.skip(b).take(i - b) =~= s.subrange(b, i));
            lemma_blanked_byte(s.skip(b), i - b, d);
        },
        Some((open, close)) => {
            let x = s.subrange(b, open);
            let y = s.subrange(open, close);
            let rest = scripts(s, close, close + 9);
            crate::text::lemma_bytes_add(blanked(x) + y, rest);
            crate::text::lemma_bytes_add(blanked(x), y);
            lemma_blanked_size(x);
            if in_script(s, close + 9, i) {
                lemma_behind(s, close + 9, i);
            }
            if i < open {
                assert(x.take(i - b) =~= s.subrange(b, i));
                lemma_blanked_byte(x, i - b, d);
            } else if i < close {
                assert(y.take(i - open) =~= s.subrange(open, i));
                assert(s.subrange(b, i) =~= x + s.subrange(open, i));
                crate::text::lemma_blen_add(x, s.subrange(open, i));
                crate::text::lemma_byte_at(y, i - open, d);
            } else {
                assert(s.subrange(b, i) =~= x + y + s.subrange(close, i));
                crate::text::lemma_blen_add(x + y, s.subrange(close, i));
                crate::text::lemma_blen_add(x, y);
                lemma_scripts_byte(s, close, close + 9, i, d);
            }
        },
    }
}

/// Preparing a component leaves its line feeds and the bytes of its scripts where they
/// are, and puts a space in the place of every other byte. `d` counts the bytes of the
/// character at `i`, whose first byte stands behind those of the characters before it.
pub proof fn law_prepared_keeps_bytes(raw: Seq<char>, i: int, d: int)
    requires
        0 <= i < raw.len(),
        0 <= d < width(raw[i]),
    ensures
        ({
            let before = encode_utf8(raw);
            let after = encode_utf8(Lang::Svelte.prepared(raw));
            let p = blen(raw.take(i)) + d;
            &&& before.len() == after.len()
            &&& 0 <= p < before.len()
            &&& after[p] == (if raw[i] == '\n' || in_script(raw, 0, i) {
                before[p]
            } else {
                0x20
            })
            &&& after[p] == 0x0a <==> before[p] == 0x0a
        }),
{
    law_prepared_keeps_places(Lang::Svelte, raw);
    assert(raw.subrange(0, i) =~= raw.take(i));
    lemma_scripts_byte(raw, 0, 0, i, d);
    crate::text::lemma_byte_at(raw, i, d);
    crate::text::lemma_line_feed(raw[i], d);
}

} // verus!

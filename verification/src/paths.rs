//! Paths below the root of a repository.
use vstd::prelude::*;
use crate::text::{among, copy, has_char, is_among, is_blank, outcome, replace_char, replaced};
use crate::text::{split_char, split_on, starts, strip_start, stripped_start, strs, to_chars, trim};
use crate::text::{trim_end_of, trimmed, trimmed_end_of};

verus! {

/// A path with forward slashes, without `./` before it and without slashes behind
/// it.
pub open spec fn tidy_path(raw: Seq<char>) -> Seq<char> {
    trimmed_end_of(stripped_start(replaced(trimmed(raw), '\\', '/'), "./"@), '/')
}

/// Whether a path begins at the root of a file system or of a drive.
pub open spec fn is_absolute(path: Seq<char>) -> bool {
    (path.len() > 0 && path[0] == '/') || (path.len() > 1 && path[1] == ':')
}

/// Whether a part of a path is `..`.
pub open spec fn climbs(path: Seq<char>) -> bool {
    among(split_on(path, '/'), ".."@)
}

/// A path that is relative and does not climb, tidied; no other path is accepted.
pub open spec fn rel_path(raw: Seq<char>) -> Result<Seq<char>, Seq<char>> {
    let path = tidy_path(raw);
    if path.len() == 0 {
        Err("path must not be empty"@)
    } else if is_absolute(path) {
        Err("path must be relative to the root: "@ + raw)
    } else if climbs(path) {
        Err("path must not hold `..`: "@ + raw)
    } else {
        Ok(path)
    }
}

/// Checks a path that is to lie below the root.
pub fn validate_rel_path(raw: &str) -> (r: Result<String, String>)
    ensures
        outcome(r) == rel_path(raw@),
{
    let slashed = replace_char(trim(raw).as_str(), '\\', '/');
    let path = trim_end_of(strip_start(slashed.as_str(), "./").as_str(), '/');
    if is_blank(path.as_str()) {
        return Err(copy("path must not be empty"));
    }
    let v = to_chars(path.as_str());
    if v[0] == '/' || (v.len() > 1 && v[1] == ':') {
        let mut e = copy("path must be relative to the root: ");
        e.append(raw);
        return Err(e);
    }
    let parts = split_char(path.as_str(), '/');
    if is_among(&parts, "..") {
        let mut e = copy("path must not hold `..`: ");
        e.append(raw);
        return Err(e);
    }
    Ok(path)
}

proof fn lemma_stripped_part(s: Seq<char>, pat: Seq<char>, c: char)
    requires
        !has_char(s, c),
    ensures
        !has_char(stripped_start(s, pat), c),
    decreases s.len(),
{
    if pat.len() > 0 && starts(s, pat) {
        let t = s.skip(pat.len() as int);
        assert forall|i: int| 0 <= i < t.len() implies t[i] != c by {
            assert(t[i] == s[i + pat.len()]);
        }
        lemma_stripped_part(t, pat, c);
    }
}

proof fn lemma_trimmed_part(s: Seq<char>, p: spec_fn(char) -> bool, c: char)
    requires
        !has_char(s, c),
    ensures
        !has_char(crate::text::trim_end_by(s, p), c),
    decreases s.len(),
{
    if s.len() > 0 && p(s.last()) {
        lemma_trimmed_part(s.drop_last(), p, c);
    }
}

/// A path that is accepted stays below the root: it is not empty, begins neither at
/// the root of the file system nor at a drive, knows no other slash than `/`, and no
/// part of it is `..`.
pub proof fn law_accepted_path_stays_below(raw: Seq<char>)
    ensures
        rel_path(raw) matches Ok(path) ==> {
            &&& path.len() > 0
            &&& !is_absolute(path)
            &&& !has_char(path, '\\')
            &&& forall|i: int|
                0 <= i < split_on(path, '/').len() ==> #[trigger] split_on(path, '/')[i] != ".."@
        },
{
    let s = replaced(trimmed(raw), '\\', '/');
    assert(!has_char(s, '\\'));
    lemma_stripped_part(s, "./"@, '\\');
    lemma_trimmed_part(stripped_start(s, "./"@), crate::text::is_char('/'), '\\');
}

} // verus!

//! Reading the arguments of a request.
use vstd::prelude::*;
use crate::json::{get, get_str, get_strings, strings_at, Datum, Json};
use crate::text::{copy, is_blank, opt_text, outcome, strs, trim, trim_names, trimmed, trimmed_names};

verus! {

/// The text at a member, trimmed; nothing where it is blank or no text.
pub open spec fn text_at(j: Json, key: Seq<char>) -> Option<Seq<char>> {
    match get(j, key) {
        Some(Json::Str(s)) => if trimmed(s).len() > 0 {
            Some(trimmed(s))
        } else {
            None
        },
        _ => None,
    }
}

pub fn optional_str(args: &Datum, key: &str) -> (r: Option<String>)
    ensures
        opt_text(r) == text_at(args@, key@),
{
    match get_str(args, key) {
        Some(s) => {
            let t = trim(s.as_str());
            if is_blank(t.as_str()) {
                None
            } else {
                Some(t)
            }
        },
        None => None,
    }
}

/// The text at a member that has to be there.
pub open spec fn required_at(j: Json, key: Seq<char>) -> Result<Seq<char>, Seq<char>> {
    match text_at(j, key) {
        Some(s) => Ok(s),
        None => Err(key + " is required"@),
    }
}

pub fn required_str(args: &Datum, key: &str) -> (r: Result<String, String>)
    ensures
        outcome(r) == required_at(args@, key@),
{
    match optional_str(args, key) {
        Some(s) => Ok(s),
        None => {
            let mut e = copy(key);
            e.append(" is required");
            Err(e)
        },
    }
}

/// The texts of the list at a member, trimmed; blank ones are left out.
pub open spec fn texts_at(j: Json, key: Seq<char>) -> Seq<Seq<char>> {
    trimmed_names(strings_at(j, key), strings_at(j, key).len())
}

pub fn string_array(args: &Datum, key: &str) -> (r: Vec<String>)
    ensures
        strs(r@) == texts_at(args@, key@),
{
    let v = get_strings(args, key);
    assert(strs(v@).len() == v@.len());
    trim_names(&v)
}

/// A text that reading leaves as it is: not blank, and without white space around.
pub open spec fn tidy_text(s: Seq<char>) -> bool {
    s.len() > 0 && trimmed(s) == s
}

pub open spec fn tidy_texts(v: Seq<Seq<char>>) -> bool {
    forall|i: int| 0 <= i < v.len() ==> tidy_text(#[trigger] v[i])
}

/// Tidy texts come back as they are.
pub proof fn lemma_tidy_names(v: Seq<Seq<char>>, n: nat)
    requires
        tidy_texts(v),
        n <= v.len(),
    ensures
        trimmed_names(v, n) == v.take(n as int),
    decreases n,
{
    if n == 0 {
        assert(v.take(0) =~= Seq::<Seq<char>>::empty());
    } else {
        lemma_tidy_names(v, (n - 1) as nat);
        assert(tidy_text(v[n - 1]));
        assert(v.take(n as int) =~= v.take(n - 1).push(v[n - 1]));
    }
}

} // verus!

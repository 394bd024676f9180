//! What an answer on a changed definition says: whether its signature changed, which
//! parts of the file are shown, and what stood there before.
use vstd::prelude::*;
use crate::lang::path_lang;
use crate::laws::texts::{law_joined_words_differ, law_words_are_solid, lemma_starts_add};
use crate::laws::texts::lemma_starts_both;
use crate::symbol_def::InfoView;
use crate::symbol_diff::{
    capped_from, changed_text, diffed, hunks_of, lines_from, hunks_from, old_definition, touching,
    with_hunks, DiffAskView, HunkView,
};
use crate::text::{dec, lines_of, starts, words_of};

verus! {

/// The beginning of the first line of an answer.
pub open spec fn opening(a: DiffAskView, d: InfoView) -> Seq<char> {
    "symbol_diff - \""@ + d.name + "\" at "@ + d.rel + ":"@ + dec(d.line) + "-"@ + dec(d.end_line)
        + "  (vs "@ + a.gitref
}

/// The beginning of an answer that speaks of a changed signature and shows both.
pub open spec fn says_signature(
    a: DiffAskView,
    d: InfoView,
    old_sig: Seq<char>,
) -> Seq<char> {
    opening(a, d) + ", signature changed)\n\nsignature:\n- "@ + old_sig + "\n+ "@ + d.signature
        + "\n\n"@
}

/// The beginning of an answer that speaks of a changed body alone.
pub open spec fn says_body(a: DiffAskView, d: InfoView) -> Seq<char> {
    opening(a, d) + ", body-only)\n\n--- old ("@ + a.gitref + ") ---\n"@
}

/// The answer says that the signature changed, and shows the old and the new one, if and
/// only if the two differ in their words, and not in white space alone. It says that only
/// the body changed if and only if they do not.
pub proof fn law_signature_change_is_told(
    a: DiffAskView,
    paths: Seq<Seq<char>>,
    d: InfoView,
    scanned: u64,
    diff: Seq<char>,
    old_src: Seq<char>,
)
    requires
        crate::text::trimmed(diff).len() > 0,
        path_lang(d.rel) is Some,
        old_definition(old_src, path_lang(d.rel)->Some_0, d.name) is Some,
    ensures
        ({
            let old_sig = old_definition(old_src, path_lang(d.rel)->Some_0, d.name)->Some_0.0;
            let text = diffed(a, paths, Some(d), scanned, Ok(diff), Some(old_src)).text;
            let same_words = words_of(old_sig) == words_of(d.signature);
            &&& starts(text, says_signature(a, d, old_sig)) <==> !same_words
            &&& starts(text, says_body(a, d)) <==> same_words
        }),
{
    let (old_sig, old_body) = old_definition(old_src, path_lang(d.rel)->Some_0, d.name)->Some_0;
    let text = changed_text(a, d, diff, Some(old_src));
    let same_words = words_of(old_sig) == words_of(d.signature);
    law_words_are_solid(old_sig);
    law_words_are_solid(d.signature);
    if crate::symbol_diff::plain_sig(old_sig) == crate::symbol_diff::plain_sig(d.signature) {
        law_joined_words_differ(words_of(old_sig), words_of(d.signature));
    }
    let p = crate::symbol_diff::PlaceView {
        gitref: a.gitref,
        name: d.name,
        rel: d.rel,
        start: d.line,
        end: d.end_line,
    };
    let o = opening(a, d);
    let s = says_signature(a, d, old_sig);
    let b = says_body(a, d);
    reveal_strlit(", signature changed)\n\nsignature:\n- ");
    reveal_strlit(", signature changed");
    reveal_strlit(", body-only");
    reveal_strlit(", body-only)\n\n--- old (");
    reveal_strlit(")\n\n");
    reveal_strlit("signature:\n");
    reveal_strlit("- ");
    reveal_strlit("+ ");
    reveal_strlit("\n");
    reveal_strlit("\n+ ");
    reveal_strlit("--- old (");
    assert(s[o.len() as int + 2] == 's');
    assert(b[o.len() as int + 2] == 'b');
    if same_words {
        let head = crate::symbol_diff::diff_head(p, ", body-only"@) + "--- old ("@ + p.gitref
            + ") ---\n"@;
        assert(head =~= b);
        lemma_capped_starts(head, lines_of(old_body), a.budget as nat, 0);
        let mid = capped_from(head, lines_of(old_body), a.budget as nat, 0) + "\n"@
            + "+++ new (working) ---\n"@;
        lemma_capped_starts(mid, lines_of(d.body), a.budget as nat, 0);
        lemma_prefix_trans(text, mid, b);
        if starts(text, s) {
            lemma_starts_both(text, s, b, o.len() as int + 2);
        }
    } else {
        let head = crate::symbol_diff::diff_head(p, ", signature changed"@) + "signature:\n"@
            + "- "@ + old_sig + "\n"@ + "+ "@ + d.signature + "\n\n"@;
        assert(head =~= s);
        let hs = hunks_of(diff).filter(touching(d.line, d.end_line));
        lemma_with_hunks_starts(head, hs, a.budget as nat);
        if a.show_body {
            let h = with_hunks(head, hs, a.budget as nat);
            let c = h + "\n"@ + "--- old body ("@ + p.gitref + ") ---\n"@;
            lemma_capped_starts(c, lines_of(old_body), a.budget as nat, 0);
            let e = capped_from(c, lines_of(old_body), a.budget as nat, 0) + "\n"@
                + "+++ new body (working) ---\n"@;
            lemma_capped_starts(e, lines_of(d.body), a.budget as nat, 0);
            lemma_prefix_trans(c, h, s);
            lemma_prefix_trans(e, c, s);
            lemma_prefix_trans(text, e, s);
        }
        if starts(text, b) {
            lemma_starts_both(text, s, b, o.len() as int + 2);
        }
    }
}

/// What starts with a text that starts with another starts with that one too; `mid` may
/// be continued.
proof fn lemma_prefix_trans(text: Seq<char>, mid: Seq<char>, head: Seq<char>)
    requires
        starts(text, mid),
        starts(mid, head),
    ensures
        starts(text, head),
{
    assert(text.take(head.len() as int) =~= mid.take(head.len() as int)) by {
        assert forall|i: int| 0 <= i < head.len() implies text[i] == mid[i] by {
            assert(text.take(mid.len() as int)[i] == text[i]);
        }
    }
}

proof fn lemma_capped_starts(out: Seq<char>, ls: Seq<Seq<char>>, budget: nat, k: int)
    ensures
        starts(capped_from(out, ls, budget, k), out),
        starts(capped_from(out, ls, budget, k) + "\n"@ + "+++ new (working) ---\n"@, out),
        starts(capped_from(out, ls, budget, k) + "\n"@ + "+++ new body (working) ---\n"@, out),
    decreases ls.len() - k,
{
    let r = capped_from(out, ls, budget, k);
    assert(starts(out, out)) by {
        assert(out.take(out.len() as int) =~= out);
    }
    if !(k < 0 || k >= ls.len()) {
        if crate::text::blen(out) / 4 > budget {
            lemma_starts_add(r, out, "… (truncated by token_budget)\n"@);
        } else {
            let next = out + ls[k] + "\n"@;
            lemma_capped_starts(next, ls, budget, k + 1);
            assert(next =~= out + (ls[k] + "\n"@));
            lemma_starts_add(next, out, ls[k] + "\n"@);
            lemma_prefix_trans(r, next, out);
        }
    }
    let m = r + "\n"@ + "+++ new (working) ---\n"@;
    assert(m =~= r + ("\n"@ + "+++ new (working) ---\n"@));
    lemma_starts_add(m, r, "\n"@ + "+++ new (working) ---\n"@);
    lemma_prefix_trans(m, r, out);
    let n = r + "\n"@ + "+++ new body (working) ---\n"@;
    assert(n =~= r + ("\n"@ + "+++ new body (working) ---\n"@));
    lemma_starts_add(n, r, "\n"@ + "+++ new body (working) ---\n"@);
    lemma_prefix_trans(n, r, out);
}

proof fn lemma_lines_starts(out: Seq<char>, ls: Seq<Seq<char>>, budget: nat, k: int)
    ensures
        starts(lines_from(out, ls, budget, k).0, out),
    decreases ls.len() - k,
{
    assert(out.take(out.len() as int) =~= out);
    if !(k < 0 || k >= ls.len()) {
        let r = lines_from(out, ls, budget, k).0;
        if crate::text::blen(out) / 4 > budget {
            lemma_starts_add(r, out, "… (truncated by token_budget)\n"@);
        } else {
            let next = out + ls[k] + "\n"@;
            lemma_lines_starts(next, ls, budget, k + 1);
            assert(next =~= out + (ls[k] + "\n"@));
            lemma_starts_add(next, out, ls[k] + "\n"@);
            lemma_prefix_trans(r, next, out);
        }
    }
}

proof fn lemma_hunks_starts(out: Seq<char>, hs: Seq<HunkView>, budget: nat, k: int)
    ensures
        starts(hunks_from(out, hs, budget, k), out),
    decreases hs.len() - k,
{
    assert(out.take(out.len() as int) =~= out);
    if !(k < 0 || k >= hs.len()) {
        let r = hunks_from(out, hs, budget, k);
        let h = crate::symbol_diff::hunk_head(hs[k]);
        let (t, full) = lines_from(out + h, hs[k].lines, budget, 0);
        lemma_lines_starts(out + h, hs[k].lines, budget, 0);
        lemma_starts_add(out + h, out, h);
        lemma_prefix_trans(t, out + h, out);
        if !full {
            lemma_starts_add(t + "\n"@, t, "\n"@);
            lemma_prefix_trans(t + "\n"@, t, out);
            lemma_hunks_starts(t + "\n"@, hs, budget, k + 1);
            lemma_prefix_trans(r, t + "\n"@, out);
        }
    }
}

proof fn lemma_with_hunks_starts(out: Seq<char>, hs: Seq<HunkView>, budget: nat)
    ensures
        starts(with_hunks(out, hs, budget), out),
        forall|x: Seq<char>|
            starts(
                #[trigger] (with_hunks(out, hs, budget) + "\n"@ + "--- old body ("@ + x
                    + ") ---\n"@),
                with_hunks(out, hs, budget),
            ),
{
    let r = with_hunks(out, hs, budget);
    if hs.len() == 0 {
        lemma_starts_add(
            r,
            out,
            "(diff touches the file but no hunk overlaps this symbol's span)\n"@,
        );
    } else {
        lemma_hunks_starts(out, hs, budget, 0);
    }
    assert forall|x: Seq<char>|
        starts(#[trigger] (r + "\n"@ + "--- old body ("@ + x + ") ---\n"@), r) by {
        let m = r + "\n"@ + "--- old body ("@ + x + ") ---\n"@;
        let y = "\n"@ + "--- old body ("@ + x + ") ---\n"@;
        assert(m =~= r + y);
        lemma_starts_add(m, r, y);
    }
}

} // verus!

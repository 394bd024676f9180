//! Reading the board of a session: the entries asked for, newest first, within a
//! budget.
use vstd::prelude::*;
use crate::args::{optional_str, required_at, required_str, text_at};
use crate::izakaya::replay::arranged;
use crate::json::{as_u64, get, get_u64, number_or, u64_or, Datum, Json};
use crate::mas::posting::{estimate_tokens, tokens};
use crate::mas::{entry_views, is_same_word, same_word, Entry, EntryView, Session, SessionView};
use crate::order::{key_views, positioned, sort, sort_order, Key, KeyView};
use crate::text::{blen, capped, copy, count_up, dec, decimal, opt_text, size, strs};

verus! {

/// Tokens of a reading where nothing else is asked for.
pub const DEFAULT_READ_BUDGET: u64 = 1200;

/// What is asked for.
pub struct ReadAsk {
    pub session: String,
    pub budget: u64,
    pub recipient: Option<String>,
    pub role: Option<String>,
    pub round: Option<u64>,
    pub tag: Option<String>,
    pub since_id: Option<u64>,
}

/// The values of a [`ReadAsk`].
pub struct ReadAskView {
    pub session: Seq<char>,
    pub budget: u64,
    pub recipient: Option<Seq<char>>,
    pub role: Option<Seq<char>>,
    pub round: Option<u64>,
    pub tag: Option<Seq<char>>,
    pub since_id: Option<u64>,
}

impl View for ReadAsk {
    type V = ReadAskView;

    open spec fn view(&self) -> ReadAskView {
        ReadAskView {
            session: self.session@,
            budget: self.budget,
            recipient: opt_text(self.recipient),
            role: opt_text(self.role),
            round: self.round,
            tag: opt_text(self.tag),
            since_id: self.since_id,
        }
    }
}

/// What the arguments ask for. The session has to be named.
pub open spec fn read_ask_of(args: Json) -> Result<ReadAskView, Seq<char>> {
    match required_at(args, "session"@) {
        Err(e) => Err(e),
        Ok(session) => Ok(
            ReadAskView {
                session,
                budget: u64_or(args, "token_budget"@, DEFAULT_READ_BUDGET),
                recipient: text_at(args, "recipient"@),
                role: text_at(args, "role"@),
                round: as_u64(get(args, "round"@)),
                tag: text_at(args, "tag"@),
                since_id: as_u64(get(args, "since_id"@)),
            },
        ),
    }
}

pub open spec fn ask_outcome(r: Result<ReadAsk, String>) -> Result<ReadAskView, Seq<char>> {
    match r {
        Ok(q) => Ok(q@),
        Err(e) => Err(e@),
    }
}

pub fn read_ask(args: &Datum) -> (r: Result<ReadAsk, String>)
    ensures
        ask_outcome(r) == read_ask_of(args@),
{
    match required_str(args, "session") {
        Err(e) => Err(e),
        Ok(session) => Ok(
            ReadAsk {
                session,
                budget: number_or(args, "token_budget", DEFAULT_READ_BUDGET),
                recipient: optional_str(args, "recipient"),
                role: optional_str(args, "role"),
                round: get_u64(args, "round"),
                tag: optional_str(args, "tag"),
                since_id: get_u64(args, "since_id"),
            },
        ),
    }
}

/// Entries that are asked for.
pub open spec fn wanted(q: ReadAskView) -> spec_fn(EntryView) -> bool {
    |e: EntryView|
        (match q.recipient {
            Some(r) => match e.handoff_to {
                Some(h) => same_word(h, r),
                None => false,
            },
            None => true,
        }) && (match q.role {
            Some(r) => same_word(e.role, r),
            None => true,
        }) && (match q.round {
            Some(n) => e.round == n,
            None => true,
        }) && (match q.tag {
            Some(t) => crate::test_map::tag_among(e.tags, t),
            None => true,
        }) && (match q.since_id {
            Some(n) => e.id > n,
            None => true,
        })
}

fn is_wanted(e: &Entry, q: &ReadAsk) -> (r: bool)
    ensures
        r == wanted(q@)(e@),
{
    let a: bool = match &q.recipient {
        Some(r) => match &e.handoff_to {
            Some(h) => is_same_word(h.as_str(), r.as_str()),
            None => false,
        },
        None => true,
    };
    let b: bool = match &q.role {
        Some(r) => is_same_word(e.role.as_str(), r.as_str()),
        None => true,
    };
    let c: bool = match q.round {
        Some(n) => e.round == n,
        None => true,
    };
    let d: bool = match &q.tag {
        Some(t) => crate::test_map::is_tag_among(&e.tags, t.as_str()),
        None => true,
    };
    let f: bool = match q.since_id {
        Some(n) => e.id > n,
        None => true,
    };
    a && b && c && d && f
}

pub open spec fn id_keys(v: Seq<EntryView>) -> Seq<KeyView> {
    Seq::new(
        v.len(),
        |i: int|
            KeyView { rank: (u64::MAX - v[i].id) as u64, name: ""@, number: 0, at: i as nat },
    )
}

/// The entries asked for, the greatest id first.
pub open spec fn selected(v: Seq<EntryView>, q: ReadAskView) -> Seq<EntryView> {
    let some = v.filter(wanted(q));
    arranged(some, sort_order(id_keys(some)))
}

/// Items on rows of their own.
pub open spec fn item_rows(v: Seq<Seq<char>>, n: nat) -> Seq<char>
    decreases n,
{
    if n == 0 {
        ""@
    } else {
        item_rows(v, (n - 1) as nat) + "  - "@ + v[n - 1] + "\n"@
    }
}

/// A list under a heading, where it is not empty.
pub open spec fn section(head: Seq<char>, v: Seq<Seq<char>>) -> Seq<char> {
    if v.len() > 0 {
        head + item_rows(v, v.len())
    } else {
        ""@
    }
}

/// An entry as it is read.
pub open spec fn entry_text(e: EntryView) -> Seq<char> {
    "["@ + dec(e.ts as nat) + "] round "@ + dec(e.round as nat) + " role="@ + e.role + " id="@ + dec(
        e.id as nat,
    ) + "\n"@ + e.summary + "\n"@ + section("claims:\n"@, e.claims) + section(
        "decisions:\n"@,
        e.decisions,
    ) + section("open_questions:\n"@, e.open_questions) + crate::runs::labelled(
        "anchors: "@,
        e.anchors,
        ", "@,
    ) + (match e.handoff_to {
        Some(h) => "handoff_to: "@ + h + "\n"@,
        None => ""@,
    }) + crate::runs::labelled("tags: "@, e.tags, ", "@) + (match e.approved {
        Some(b) => if b {
            "approved: true\n"@
        } else {
            "approved: false\n"@
        },
        None => ""@,
    })
}

fn make_section(head: &str, v: &Vec<String>) -> (r: String)
    ensures
        r@ == section(head@, strs(v@)),
{
    assert(strs(v@).len() == v@.len());
    if v.len() == 0 {
        return copy("");
    }
    let mut rows = copy("");
    for i in 0..v.len()
        invariant
            rows@ == item_rows(strs(v@), i as nat),
    {
        assert(strs(v@)[i as int] == v@[i as int]@);
        rows.append("  - ");
        rows.append(v[i].as_str());
        rows.append("\n");
    }
    let mut t = copy(head);
    t.append(rows.as_str());
    t
}

pub fn render_entry(e: &Entry) -> (r: String)
    ensures
        r@ == entry_text(e@),
{
    let mut t = copy("[");
    t.append(decimal(e.ts).as_str());
    t.append("] round ");
    t.append(decimal(e.round).as_str());
    t.append(" role=");
    t.append(e.role.as_str());
    t.append(" id=");
    t.append(decimal(e.id).as_str());
    t.append("\n");
    t.append(e.summary.as_str());
    t.append("\n");
    t.append(make_section("claims:\n", &e.claims).as_str());
    t.append(make_section("decisions:\n", &e.decisions).as_str());
    t.append(make_section("open_questions:\n", &e.open_questions).as_str());
    t.append(crate::runs::make_labelled("anchors: ", &e.anchors, ", ").as_str());
    let to: String = match &e.handoff_to {
        Some(h) => {
            let mut m = copy("handoff_to: ");
            m.append(h.as_str());
            m.append("\n");
            m
        },
        None => copy(""),
    };
    t.append(to.as_str());
    t.append(crate::runs::make_labelled("tags: ", &e.tags, ", ").as_str());
    t.append(
        match e.approved {
            Some(b) => if b {
                "approved: true\n"
            } else {
                "approved: false\n"
            },
            None => "",
        },
    );
    t
}

pub open spec fn block_text(e: EntryView) -> Seq<char> {
    "\n---\n"@ + entry_text(e)
}

/// The entries from `k` on, behind a text, until the budget is used up. The first
/// is always shown.
pub open spec fn blocks_from(
    out: Seq<char>,
    v: Seq<EntryView>,
    budget: nat,
    used: nat,
    k: int,
) -> Seq<char>
    decreases v.len() - k,
{
    if k < 0 || k >= v.len() {
        out
    } else {
        let more = tokens(block_text(v[k]));
        if used + more > budget && k > 0 {
            out + "\n… (further entries omitted by token_budget)\n"@
        } else {
            blocks_from(out + block_text(v[k]), v, budget, used + more, k + 1)
        }
    }
}

pub open spec fn read_head(q: ReadAskView, s: SessionView, n: nat) -> Seq<char> {
    "mas_read - session "@ + q.session + ", round "@ + dec(s.round as nat) + "/"@ + dec(
        s.max_rounds as nat,
    ) + ", status "@ + s.status + ", "@ + dec(n) + " match(es)\n"@
}

/// The reading of a session.
pub open spec fn read_text(q: ReadAskView, s: SessionView) -> Seq<char> {
    let v = selected(s.entries, q);
    let head = read_head(q, s, v.len());
    let out = blocks_from(head, v, q.budget as nat, tokens(head), 0);
    if v.len() == 0 {
        out + "\n(no matching entries)\n"@
    } else {
        out
    }
}

/// The tokens of the first `n` entries together.
pub open spec fn board_tokens(v: Seq<EntryView>, n: nat) -> nat
    decreases n,
{
    if n == 0 {
        0
    } else {
        board_tokens(v, (n - 1) as nat) + tokens(entry_text(v[n - 1]))
    }
}

/// What reading the whole session would have taken, given the tokens of its file.
pub open spec fn read_baseline(s: SessionView, file_tokens: u64) -> u64 {
    let all = capped(board_tokens(s.entries, s.entries.len()));
    let more = if all >= file_tokens {
        all
    } else {
        file_tokens
    };
    if more >= 64 {
        more
    } else {
        64
    }
}

fn select(v: &Vec<Entry>, q: &ReadAsk) -> (r: Vec<Entry>)
    ensures
        entry_views(r@) == selected(entry_views(v@), q@),
{
    let ghost all = entry_views(v@);
    let ghost keep = wanted(q@);
    let mut some: Vec<Entry> = Vec::new();
    proof {
        reveal(Seq::filter);
        assert(all.take(0) =~= Seq::<EntryView>::empty());
        assert(entry_views(some@) =~= all.take(0).filter(keep));
    }
    for i in 0..v.len()
        invariant
            all == entry_views(v@),
            keep == wanted(q@),
            entry_views(some@) == all.take(i as int).filter(keep),
    {
        proof {
            assert(all.take(i + 1) =~= all.take(i as int).push(all[i as int]));
            all.take(i as int).lemma_filter_push(all[i as int], keep);
        }
        assert(all[i as int] == v@[i as int]@);
        if is_wanted(&v[i], q) {
            let ghost before = some@;
            let e = v[i].copy();
            some.push(e);
            assert(entry_views(some@) =~= entry_views(before).push(e@));
        }
    }
    assert(all.take(all.len() as int) =~= all);
    let ghost sv = entry_views(some@);
    let ghost ks = id_keys(sv);
    let mut keys: Vec<Key> = Vec::new();
    for i in 0..some.len()
        invariant
            sv == entry_views(some@),
            ks == id_keys(sv),
            keys@.len() == i,
            forall|k: int| 0 <= k < i ==> (#[trigger] keys@[k])@ == ks[k],
    {
        keys.push(Key { rank: u64::MAX - some[i].id, name: copy(""), number: 0, at: i });
    }
    assert(key_views(keys@) =~= ks);
    assert(positioned(key_views(keys@)));
    let order = sort(keys);
    let mut out: Vec<Entry> = Vec::new();
    for i in 0..order.len()
        invariant
            sv == entry_views(some@),
            out@.len() == i,
            forall|k: int|
                0 <= k < order@.len() ==> (#[trigger] order@[k] as int) == sort_order(ks)[k]
                    && order@[k] < some@.len(),
            forall|k: int| 0 <= k < i ==> (#[trigger] out@[k])@ == sv[sort_order(ks)[k]],
    {
        let p: usize = order[i];
        assert(order@[i as int] as int == sort_order(ks)[i as int]);
        out.push(some[p].copy());
    }
    assert(entry_views(out@) =~= arranged(sv, sort_order(ks)));
    out
}

/// Reads a session: the text, and what reading all of it would have taken.
pub fn read(q: &ReadAsk, s: &Session, file_tokens: u64) -> (r: (String, u64))
    ensures
        r.0@ == read_text(q@, s@),
        r.1 == read_baseline(s@, file_tokens),
{
    let v = select(&s.entries, q);
    let ghost all = selected(s@.entries, q@);
    assert(all.len() == v@.len());
    let mut t = copy("mas_read - session ");
    t.append(q.session.as_str());
    t.append(", round ");
    t.append(decimal(s.round).as_str());
    t.append("/");
    t.append(decimal(s.max_rounds).as_str());
    t.append(", status ");
    t.append(s.status.as_str());
    t.append(", ");
    t.append(decimal(v.len() as u64).as_str());
    t.append(" match(es)\n");
    let text = append_blocks(t, &v, q.budget);
    let mut text = text;
    if v.len() == 0 {
        text.append("\n(no matching entries)\n");
    }
    let mut n: u64 = 0;
    let ghost ev = s@.entries;
    assert(ev.len() == s.entries@.len());
    for i in 0..s.entries.len()
        invariant
            ev == entry_views(s.entries@),
            n == capped(board_tokens(ev, i as nat)),
    {
        assert(ev[i as int] == s.entries@[i as int]@);
        n = count_up(n, estimate_tokens(render_entry(&s.entries[i]).as_str()));
    }
    let more: u64 = if n >= file_tokens {
        n
    } else {
        file_tokens
    };
    (
        text,
        if more >= 64 {
            more
        } else {
            64
        },
    )
}

fn append_blocks(out: String, v: &Vec<Entry>, budget: u64) -> (r: String)
    ensures
        r@ == blocks_from(out@, entry_views(v@), budget as nat, tokens(out@), 0),
{
    let ghost all = entry_views(v@);
    let mut t = out;
    let mut used: usize = size(t.as_str()) / 4;
    let ghost want = blocks_from(out@, all, budget as nat, used as nat, 0);
    for k in 0..v.len()
        invariant
            all == entry_views(v@),
            used * 4 <= blen(t@),
            want == blocks_from(out@, all, budget as nat, tokens(out@), 0),
            want == blocks_from(t@, all, budget as nat, used as nat, k as int),
    {
        assert(all[k as int] == v@[k as int]@);
        let mut b = copy("\n---\n");
        b.append(render_entry(&v[k]).as_str());
        let whole: usize = size(t.as_str());
        let more: usize = size(b.as_str()) / 4;
        if (used + more) as u64 > budget && k > 0 {
            t.append("\n… (further entries omitted by token_budget)\n");
            return t;
        }
        proof {
            crate::text::lemma_blen_add(t@, b@);
        }
        used = used + more;
        t.append(b.as_str());
    }
    t
}

// ---------------------------------------------------------------------------
// Laws

/// Only entries that are asked for are read, and all of them are counted.
pub proof fn law_reading_holds_what_was_asked_for(v: Seq<EntryView>, q: ReadAskView, i: int)
    requires
        0 <= i < selected(v, q).len(),
    ensures
        wanted(q)(selected(v, q)[i]),
        selected(v, q).len() == v.filter(wanted(q)).len(),
{
    let some = v.filter(wanted(q));
    let ks = id_keys(some);
    crate::order::lemma_sort_order(ks);
    let p = sort_order(ks)[i];
    assert(selected(v, q)[i] == some[p]);
    v.lemma_filter_pred(wanted(q), p);
}

/// A reading goes from the newest entry to the oldest.
pub proof fn law_reading_is_newest_first(v: Seq<EntryView>, q: ReadAskView, i: int, j: int)
    requires
        0 <= i < j < selected(v, q).len(),
    ensures
        selected(v, q)[i].id >= selected(v, q)[j].id,
{
    let some = v.filter(wanted(q));
    let ks = id_keys(some);
    crate::order::lemma_sort_order(ks);
    let a = sort_order(ks)[i];
    let b = sort_order(ks)[j];
    assert(!crate::order::key_lt(ks[b], ks[a]));
}

/// The first `m` entries as they are read.
pub open spec fn first_blocks(v: Seq<EntryView>, m: nat) -> Seq<char>
    decreases m,
{
    if m == 0 {
        ""@
    } else {
        first_blocks(v, (m - 1) as nat) + block_text(v[m - 1])
    }
}

/// The tokens of the first `m` entries, each for itself.
pub open spec fn block_tokens(v: Seq<EntryView>, m: nat) -> nat
    decreases m,
{
    if m == 0 {
        0
    } else {
        block_tokens(v, (m - 1) as nat) + tokens(block_text(v[m - 1]))
    }
}

/// `m` entries are as many as the budget has room for: beyond the first they fit,
/// and one more would not.
pub open spec fn blocks_fill(v: Seq<EntryView>, budget: nat, used: nat, m: nat) -> bool {
    &&& m <= v.len()
    &&& m > 1 ==> used + block_tokens(v, m) <= budget
    &&& m < v.len() ==> m > 0 && used + block_tokens(v, m + 1) > budget
}

/// What stands behind the first `m` entries where there are more.
pub open spec fn blocks_note(total: nat, m: nat) -> Seq<char> {
    if m < total {
        "\n… (further entries omitted by token_budget)\n"@
    } else {
        ""@
    }
}

proof fn lemma_blocks_fill(
    head: Seq<char>,
    v: Seq<EntryView>,
    budget: nat,
    used: nat,
    k: nat,
) -> (m: nat)
    requires
        k <= v.len(),
        k > 1 ==> used + block_tokens(v, k) <= budget,
    ensures
        blocks_fill(v, budget, used, m),
        blocks_from(head + first_blocks(v, k), v, budget, used + block_tokens(v, k), k as int)
            == head + first_blocks(v, m) + blocks_note(v.len(), m),
    decreases v.len() - k,
{
    let out = head + first_blocks(v, k);
    reveal_strlit("");
    if k == v.len() {
        assert(out + ""@ =~= out);
        k
    } else {
        let b = block_text(v[k as int]);
        if used + block_tokens(v, k) + tokens(b) > budget && k > 0 {
            k
        } else {
            assert(out + b =~= head + first_blocks(v, k + 1));
            lemma_blocks_fill(head, v, budget, used, k + 1)
        }
    }
}

/// A reading shows the first of the entries that were asked for, as many as its
/// budget has room for but at least one, and says where it left some out.
pub proof fn law_reading_fills_its_budget(q: ReadAskView, s: SessionView)
    requires
        selected(s.entries, q).len() > 0,
    ensures
        ({
            let v = selected(s.entries, q);
            let head = read_head(q, s, v.len());
            exists|m: nat|
                m > 0 && #[trigger] blocks_fill(v, q.budget as nat, tokens(head), m) && read_text(
                    q,
                    s,
                ) == head + first_blocks(v, m) + blocks_note(v.len(), m)
        }),
{
    let v = selected(s.entries, q);
    let head = read_head(q, s, v.len());
    let m = lemma_blocks_fill(head, v, q.budget as nat, tokens(head), 0);
    reveal_strlit("");
    assert(head + first_blocks(v, 0) =~= head);
    assert(blocks_fill(v, q.budget as nat, tokens(head), m));
}

} // verus!

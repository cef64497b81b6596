//! The decisions of the four MCP tools (search_verses, similar_verses,
//! get_verse, get_passage): their argument records, the limit they use, the
//! references and messages they show, and which verses they return in
//! which order. The tools' database and model calls stand outside the
//! library; these functions take what those calls returned.
use vstd::prelude::*;

use crate::db::{verse_ids, Verse};
use crate::text::{decimal, push_decimal, push_str, string_of};

verus! {

/// The MCP server: it reads the Bible database at `db_path`.
pub struct BibleServer {
    pub db_path: String,
}

/// Arguments of `search_verses`.
pub struct SearchVersesArgs {
    pub query: String,
    pub limit: u32,
    pub book: Option<String>,
}

/// Arguments of `similar_verses`.
pub struct SimilarVersesArgs {
    pub book: String,
    pub chapter: u32,
    pub verse: u32,
    pub limit: u32,
}

/// Arguments of `get_verse`.
pub struct GetVerseArgs {
    pub book: String,
    pub chapter: u32,
    pub verse: u32,
}

/// Arguments of `get_passage`.
pub struct GetPassageArgs {
    pub book: String,
    pub chapter: u32,
    pub from_verse: u32,
    pub to_verse: u32,
}

/// The number of results a tool call returns when the caller names none.
pub fn default_limit() -> (r: u32)
    ensures
        r == 5,
{
    5
}

/// `n` brought into the range 1 to 50.
pub open spec fn clamped(n: int) -> int {
    if n < 1 {
        1
    } else if n > 50 {
        50
    } else {
        n
    }
}

/// The number of results a tool call returns for the requested `n`:
/// at least 1 and at most 50.
pub fn clamp_limit(n: u32) -> (r: usize)
    ensures
        r == clamped(n as int),
{
    if n < 1 {
        1
    } else if n > 50 {
        50
    } else {
        n as usize
    }
}

/// The reference of a verse, such as "John 3:16".
pub open spec fn reference(book: Seq<char>, chapter: u32, verse: u32) -> Seq<char> {
    book + seq![' '] + decimal(chapter as nat) + seq![':'] + decimal(verse as nat)
}

/// A verse as a tool shows it (its score, when it has one, is shown beside).
#[derive(Debug)]
pub struct VerseResult {
    pub reference: String,
    pub book: String,
    pub chapter: u32,
    pub verse: u32,
    pub text: String,
}

impl VerseResult {
    /// This result shows the verse `v`.
    pub open spec fn shows(self, v: Verse) -> bool {
        &&& self.reference@ == reference(v.book@, v.chapter, v.verse)
        &&& self.book@ == v.book@
        &&& self.chapter == v.chapter
        &&& self.verse == v.verse
        &&& self.text@ == v.text@
    }

    /// The result that shows `v`.
    pub fn from_verse(v: &Verse) -> (r: VerseResult)
        ensures
            r.shows(*v),
    {
        let mut label: Vec<char> = Vec::new();
        push_str(&mut label, v.book.as_str());
        label.push(' ');
        push_decimal(&mut label, v.chapter);
        label.push(':');
        push_decimal(&mut label, v.verse);
        proof {
            assert(label@ == reference(v.book@, v.chapter, v.verse));
        }
        VerseResult {
            reference: string_of(label),
            book: v.book.clone(),
            chapter: v.chapter,
            verse: v.verse,
            text: v.text.clone(),
        }
    }
}

/// The message for a reference that names no verse: "John 9:99 not found.".
pub fn not_found_message(book: &str, chapter: u32, verse: u32) -> (r: String)
    ensures
        r@ == reference(book@, chapter, verse) + " not found."@,
{
    let mut out: Vec<char> = Vec::new();
    push_str(&mut out, book);
    out.push(' ');
    push_decimal(&mut out, chapter);
    out.push(':');
    push_decimal(&mut out, verse);
    let ghost head = out@;
    push_str(&mut out, " not found.");
    proof {
        assert(head == reference(book@, chapter, verse));
    }
    string_of(out)
}

/// The results that show `verses`, in their order (what `get_passage`
/// returns).
pub fn verse_results(verses: &[Verse]) -> (r: Vec<VerseResult>)
    ensures
        r.len() == verses.len(),
        forall|i: int| 0 <= i < r.len() ==> #[trigger] r@[i].shows(verses@[i]),
{
    let mut r: Vec<VerseResult> = Vec::new();
    let mut i: usize = 0;
    while i < verses.len()
        invariant
            i <= verses.len(),
            r.len() == i,
            forall|j: int| 0 <= j < i ==> #[trigger] r@[j].shows(verses@[j]),
        decreases verses.len() - i,
    {
        r.push(VerseResult::from_verse(&verses[i]));
        i = i + 1;
    }
    r
}

/// The position of the last occurrence of `id` in `ids`.
pub open spec fn last_index(ids: Seq<i64>, id: i64) -> Option<int>
    decreases ids.len(),
{
    if ids.len() == 0 {
        None
    } else if ids.last() == id {
        Some(ids.len() - 1)
    } else {
        last_index(ids.drop_last(), id)
    }
}

/// `o` as an optional position.
pub open spec fn as_position(o: Option<usize>) -> Option<int> {
    match o {
        Some(i) => Some(i as int),
        None => None,
    }
}

pub(crate) proof fn lemma_last_index_bound(ids: Seq<i64>, id: i64)
    ensures
        last_index(ids, id) matches Some(k) ==> 0 <= k < ids.len() && ids[k] == id,
    decreases ids.len(),
{
    if ids.len() > 0 && ids.last() != id {
        lemma_last_index_bound(ids.drop_last(), id);
    }
}

/// The position of the last occurrence of `id` in `ids`.
pub fn find_last(ids: &[i64], id: i64) -> (r: Option<usize>)
    ensures
        as_position(r) == last_index(ids@, id),
{
    let mut r: Option<usize> = None;
    let mut k: usize = 0;
    while k < ids.len()
        invariant
            k <= ids.len(),
            as_position(r) == last_index(ids@.take(k as int), id),
        decreases ids.len() - k,
    {
        proof {
            assert(ids@.take(k + 1).drop_last() == ids@.take(k as int));
        }
        if ids[k] == id {
            r = Some(k);
        }
        k = k + 1;
    }
    proof {
        assert(ids@.take(ids.len() as int) == ids@);
    }
    r
}

/// The position of the last verse with id `id` among `verses`.
fn find_last_verse(verses: &[Verse], id: i64) -> (r: Option<usize>)
    ensures
        as_position(r) == last_index(verse_ids(verses@), id),
{
    let mut r: Option<usize> = None;
    let mut k: usize = 0;
    while k < verses.len()
        invariant
            k <= verses.len(),
            as_position(r) == last_index(verse_ids(verses@.take(k as int)), id),
        decreases verses.len() - k,
    {
        proof {
            assert(verse_ids(verses@.take(k + 1)).drop_last() == verse_ids(verses@.take(k as int)));
        }
        if verses[k].id == id {
            r = Some(k);
        }
        k = k + 1;
    }
    proof {
        assert(verses@.take(verses.len() as int) == verses@);
    }
    r
}

/// The verses found for a search, each with the position of its score among
/// the hits: the last hit with the verse's id (what `search_verses`
/// returns, beside the scores of those hits).
pub fn scored_results(verses: &[Verse], hit_ids: &[i64]) -> (r: Vec<(VerseResult, Option<usize>)>)
    ensures
        r.len() == verses.len(),
        forall|i: int|
            0 <= i < r.len() ==> #[trigger] r@[i].0.shows(verses@[i]) && as_position(r@[i].1)
                == last_index(hit_ids@, verses@[i].id),
{
    let mut r: Vec<(VerseResult, Option<usize>)> = Vec::new();
    let mut i: usize = 0;
    while i < verses.len()
        invariant
            i <= verses.len(),
            r.len() == i,
            forall|j: int|
                0 <= j < i ==> #[trigger] r@[j].0.shows(verses@[j]) && as_position(r@[j].1)
                    == last_index(hit_ids@, verses@[j].id),
        decreases verses.len() - i,
    {
        let at = find_last(hit_ids, verses[i].id);
        r.push((VerseResult::from_verse(&verses[i]), at));
        i = i + 1;
    }
    r
}

/// How many slots are left for vector hits after `taken` cross-references.
pub fn remaining_slots(limit: usize, taken: usize) -> (r: usize)
    ensures
        r == (if limit > taken {
            limit - taken
        } else {
            0
        }),
{
    if limit > taken {
        limit - taken
    } else {
        0
    }
}

/// Among the first `k` hits, those that are neither a cross-reference nor
/// the source verse, in order.
pub open spec fn unseen_hits(hit_ids: Seq<i64>, xref_ids: Seq<i64>, source_id: i64, k: nat) -> Seq<
    i64,
>
    decreases k,
{
    if k == 0 {
        Seq::empty()
    } else {
        let prev = unseen_hits(hit_ids, xref_ids, source_id, (k - 1) as nat);
        let id = hit_ids[k - 1];
        if !xref_ids.contains(id) && id != source_id {
            prev.push(id)
        } else {
            prev
        }
    }
}

/// The first `n` elements of `s`, or all of `s` if it is shorter.
pub open spec fn first_n(s: Seq<i64>, n: nat) -> Seq<i64> {
    if s.len() <= n {
        s
    } else {
        s.take(n as int)
    }
}

proof fn lemma_unseen_prefix(hit_ids: Seq<i64>, xref_ids: Seq<i64>, source_id: i64, j: nat, k: nat)
    requires
        j <= k <= hit_ids.len(),
    ensures
        unseen_hits(hit_ids, xref_ids, source_id, j).len() <= unseen_hits(
            hit_ids,
            xref_ids,
            source_id,
            k,
        ).len(),
        unseen_hits(hit_ids, xref_ids, source_id, j) == unseen_hits(
            hit_ids,
            xref_ids,
            source_id,
            k,
        ).take(unseen_hits(hit_ids, xref_ids, source_id, j).len() as int),
    decreases k - j,
{
    if j < k {
        lemma_unseen_prefix(hit_ids, xref_ids, source_id, j, (k - 1) as nat);
        let a = unseen_hits(hit_ids, xref_ids, source_id, j);
        let b = unseen_hits(hit_ids, xref_ids, source_id, (k - 1) as nat);
        let c = unseen_hits(hit_ids, xref_ids, source_id, k);
        assert(c == b || c == b.push(hit_ids[k - 1]));
        assert(c.take(a.len() as int) == b.take(a.len() as int));
    } else {
        let a = unseen_hits(hit_ids, xref_ids, source_id, j);
        assert(a.take(a.len() as int) == a);
    }
}

/// Whether `id` occurs in `ids`.
fn contains_id(ids: &[i64], id: i64) -> (r: bool)
    ensures
        r == ids@.contains(id),
{
    let mut k: usize = 0;
    while k < ids.len()
        invariant
            k <= ids.len(),
            forall|j: int| 0 <= j < k ==> ids@[j] != id,
        decreases ids.len() - k,
    {
        if ids[k] == id {
            assert(ids@[k as int] == id);
            return true;
        }
        k = k + 1;
    }
    false
}

/// The vector hits that fill the slots left after the cross-references: the
/// first `remaining` hits that are neither a cross-reference nor the source
/// verse, in the order of the hits.
pub fn pick_vector_ids(hit_ids: &[i64], xref_ids: &[i64], source_id: i64, remaining: usize) -> (r:
    Vec<i64>)
    ensures
        r@ == first_n(
            unseen_hits(hit_ids@, xref_ids@, source_id, hit_ids@.len() as nat),
            remaining as nat,
        ),
        r.len() <= remaining,
        forall|i: int|
            0 <= i < r.len() ==> hit_ids@.contains(#[trigger] r@[i]) && !xref_ids@.contains(r@[i])
                && r@[i] != source_id,
{
    let mut r: Vec<i64> = Vec::new();
    let mut k: usize = 0;
    while k < hit_ids.len()
        invariant
            k <= hit_ids.len(),
            r@ == first_n(unseen_hits(hit_ids@, xref_ids@, source_id, k as nat), remaining as nat),
        decreases hit_ids.len() - k,
    {
        let id = hit_ids[k];
        let ghost prev = unseen_hits(hit_ids@, xref_ids@, source_id, k as nat);
        if !contains_id(xref_ids, id) && id != source_id {
            if r.len() < remaining {
                r.push(id);
            }
            proof {
                let next = prev.push(id);
                assert(next.take(remaining as int) == prev.take(remaining as int) || prev.len()
                    < remaining);
            }
        }
        k = k + 1;
    }
    proof {
        let all = unseen_hits(hit_ids@, xref_ids@, source_id, hit_ids@.len() as nat);
        lemma_unseen_members(hit_ids@, xref_ids@, source_id, hit_ids@.len() as nat);
        assert forall|i: int| 0 <= i < r.len() implies hit_ids@.contains(#[trigger] r@[i])
            && !xref_ids@.contains(r@[i]) && r@[i] != source_id by {
            assert(r@[i] == all[i]);
        }
    }
    r
}

pub(crate) proof fn lemma_unseen_members(hit_ids: Seq<i64>, xref_ids: Seq<i64>, source_id: i64, k: nat)
    requires
        k <= hit_ids.len(),
    ensures
        forall|i: int|
            0 <= i < unseen_hits(hit_ids, xref_ids, source_id, k).len() ==> {
                let id = #[trigger] unseen_hits(hit_ids, xref_ids, source_id, k)[i];
                hit_ids.contains(id) && !xref_ids.contains(id) && id != source_id
            },
    decreases k,
{
    if k > 0 {
        lemma_unseen_members(hit_ids, xref_ids, source_id, (k - 1) as nat);
        let prev = unseen_hits(hit_ids, xref_ids, source_id, (k - 1) as nat);
        let cur = unseen_hits(hit_ids, xref_ids, source_id, k);
        assert forall|i: int| 0 <= i < cur.len() implies {
            let id = #[trigger] cur[i];
            hit_ids.contains(id) && !xref_ids.contains(id) && id != source_id
        } by {
            if i < prev.len() {
                assert(cur[i] == prev[i]);
            } else {
                assert(cur[i] == hit_ids[k - 1]);
            }
        }
    }
}

/// Where each result of `similar_verses` comes from, for the ids `ids`
/// (the first `k` of them) that are cross-references (`xref`) or vector hits:
/// the position of the verse among `rows` (the last row with that id), and
/// for a cross-reference the position of its weight among `xref_ids` (the
/// last one with that id). Ids without a row are left out.
pub open spec fn layout(
    ids: Seq<i64>,
    xref: bool,
    xref_ids: Seq<i64>,
    rows: Seq<Verse>,
    k: nat,
) -> Seq<(int, Option<int>)>
    decreases k,
{
    if k == 0 {
        Seq::empty()
    } else {
        let prev = layout(ids, xref, xref_ids, rows, (k - 1) as nat);
        let id = ids[k - 1];
        match last_index(verse_ids(rows), id) {
            Some(r) => prev.push((r, if xref { last_index(xref_ids, id) } else { None })),
            None => prev,
        }
    }
}

/// The layout of the whole `similar_verses` answer: the cross-references
/// first, then the vector hits.
pub open spec fn similar_layout(xref_ids: Seq<i64>, vector_ids: Seq<i64>, rows: Seq<Verse>) -> Seq<
    (int, Option<int>),
> {
    layout(xref_ids, true, xref_ids, rows, xref_ids.len()) + layout(
        vector_ids,
        false,
        xref_ids,
        rows,
        vector_ids.len(),
    )
}

/// `out` holds, at each position, the result that `shape` describes there:
/// it shows the row at the described position and carries the described
/// weight position.
pub open spec fn laid_out(
    out: Seq<(VerseResult, Option<usize>)>,
    shape: Seq<(int, Option<int>)>,
    rows: Seq<Verse>,
) -> bool {
    &&& out.len() == shape.len()
    &&& forall|i: int|
        0 <= i < shape.len() ==> 0 <= #[trigger] shape[i].0 < rows.len() && out[i].0.shows(
            rows[shape[i].0],
        ) && as_position(out[i].1) == shape[i].1
}

proof fn lemma_laid_out_push(
    out: Seq<(VerseResult, Option<usize>)>,
    shape: Seq<(int, Option<int>)>,
    rows: Seq<Verse>,
    x: (VerseResult, Option<usize>),
    y: (int, Option<int>),
)
    requires
        laid_out(out, shape, rows),
        0 <= y.0 < rows.len(),
        x.0.shows(rows[y.0]),
        as_position(x.1) == y.1,
    ensures
        laid_out(out.push(x), shape.push(y), rows),
{
    let o = out.push(x);
    let s = shape.push(y);
    assert forall|i: int| 0 <= i < s.len() implies 0 <= #[trigger] s[i].0 < rows.len() && o[i].0.shows(
        rows[s[i].0],
    ) && as_position(o[i].1) == s[i].1 by {
        if i < shape.len() {
            assert(s[i] == shape[i]);
            assert(o[i] == out[i]);
        }
    }
}

/// Appends the results for `ids` (see `layout`) to `out`.
fn push_layout(
    out: &mut Vec<(VerseResult, Option<usize>)>,
    ids: &[i64],
    xref: bool,
    xref_ids: &[i64],
    rows: &[Verse],
    Ghost(shape): Ghost<Seq<(int, Option<int>)>>,
)
    requires
        laid_out(old(out)@, shape, rows@),
    ensures
        laid_out(final(out)@, shape + layout(ids@, xref, xref_ids@, rows@, ids@.len() as nat), rows@),
{
    let mut k: usize = 0;
    assert(shape + layout(ids@, xref, xref_ids@, rows@, 0) == shape);
    while k < ids.len()
        invariant
            k <= ids.len(),
            laid_out(out@, shape + layout(ids@, xref, xref_ids@, rows@, k as nat), rows@),
        decreases ids.len() - k,
    {
        let id = ids[k];
        let ghost prev = shape + layout(ids@, xref, xref_ids@, rows@, k as nat);
        match find_last_verse(rows, id) {
            Some(r) => {
                proof {
                    lemma_last_index_bound(verse_ids(rows@), id);
                    assert(verse_ids(rows@)[r as int] == rows@[r as int].id);
                }
                let weight = if xref {
                    find_last(xref_ids, id)
                } else {
                    None
                };
                let ghost before = out@;
                let item = (VerseResult::from_verse(&rows[r]), weight);
                let ghost y = (r as int, if xref { last_index(xref_ids@, id) } else { None });
                proof {
                    lemma_laid_out_push(before, prev, rows@, item, y);
                    assert(shape + layout(ids@, xref, xref_ids@, rows@, (k + 1) as nat) == prev.push(y));
                }
                out.push(item);
            },
            None => {
                proof {
                    assert(shape + layout(ids@, xref, xref_ids@, rows@, (k + 1) as nat) == prev);
                }
            },
        }
        k = k + 1;
    }
}

/// The results of `similar_verses`: the cross-references that have a row,
/// each with the position of its weight among `xref_ids`, then the vector
/// hits that have a row, with no score; each shows the last row with its id.
pub fn similar_results(xref_ids: &[i64], vector_ids: &[i64], rows: &[Verse]) -> (r: Vec<
    (VerseResult, Option<usize>),
>)
    ensures
        laid_out(r@, similar_layout(xref_ids@, vector_ids@, rows@), rows@),
{
    let mut r: Vec<(VerseResult, Option<usize>)> = Vec::new();
    let ghost none = Seq::<(int, Option<int>)>::empty();
    push_layout(&mut r, xref_ids, true, xref_ids, rows, Ghost(none));
    let ghost first = layout(xref_ids@, true, xref_ids@, rows@, xref_ids@.len() as nat);
    assert(none + first == first);
    push_layout(&mut r, vector_ids, false, xref_ids, rows, Ghost(first));
    r
}

} // verus!

//! Verse records and the computations around the database queries: the
//! placeholder list of an `IN (...)` query, the reordering of fetched rows by
//! the requested ids, and the fusion of the two search rankings.
use vstd::prelude::*;

use crate::fusion::{fused_before, fusion_of, rrf_merge, rrf_score, RrfScore};
use crate::text::string_of;

verus! {

/// One verse of the Bible as the `verses` table stores it.
#[derive(Debug)]
pub struct Verse {
    pub id: i64,
    pub book: String,
    pub book_num: u32,
    pub chapter: u32,
    pub verse: u32,
    pub text: String,
}

/// The ids of `verses`, in their order.
pub open spec fn verse_ids(verses: Seq<Verse>) -> Seq<i64> {
    verses.map_values(|v: Verse| v.id)
}

/// `n` question marks separated by commas: the parameter list of a query
/// with `n` parameters.
pub open spec fn placeholders(n: nat) -> Seq<char>
    decreases n,
{
    if n == 0 {
        Seq::empty()
    } else if n == 1 {
        seq!['?']
    } else {
        placeholders((n - 1) as nat) + seq![',', '?']
    }
}

/// A query's parameter list has one `?` per parameter, separated by
/// single commas: for `n` parameters it has `2n - 1` characters, `?` at
/// the even positions and `,` at the odd ones (and none for no parameter).
pub proof fn lemma_placeholders_shape(n: nat)
    ensures
        n == 0 ==> placeholders(n).len() == 0,
        n > 0 ==> placeholders(n).len() == 2 * n - 1,
        forall|i: int|
            0 <= i < placeholders(n).len() ==> #[trigger] placeholders(n)[i] == (if i % 2 == 0 {
                '?'
            } else {
                ','
            }),
    decreases n,
{
    if n > 1 {
        lemma_placeholders_shape((n - 1) as nat);
        let prev = placeholders((n - 1) as nat);
        assert(placeholders(n) == prev + seq![',', '?']);
        assert forall|i: int| 0 <= i < placeholders(n).len() implies #[trigger] placeholders(n)[i]
            == (if i % 2 == 0 {
            '?'
        } else {
            ','
        }) by {
            if i < prev.len() {
                assert(placeholders(n)[i] == prev[i]);
            }
        }
    }
}

/// The parameter list `?,?,...,?` of a query with `n` parameters.
pub fn id_placeholders(n: usize) -> (r: String)
    ensures
        r@ == placeholders(n as nat),
{
    let mut out: Vec<char> = Vec::new();
    let mut i: usize = 0;
    while i < n
        invariant
            i <= n,
            out@ == placeholders(i as nat),
        decreases n - i,
    {
        if i > 0 {
            out.push(',');
        }
        out.push('?');
        i = i + 1;
    }
    string_of(out)
}

/// The position of the last occurrence of `id` in `ids`, or `ids.len()` when
/// `id` does not occur.
pub open spec fn id_rank(ids: Seq<i64>, id: i64) -> int
    decreases ids.len(),
{
    if ids.len() == 0 {
        0
    } else if ids.last() == id {
        ids.len() - 1
    } else {
        let r = id_rank(ids.drop_last(), id);
        if r == ids.len() - 1 {
            ids.len() as int
        } else {
            r
        }
    }
}

/// The rows among the first `k` whose id has rank `j`, in their order.
pub open spec fn rows_of_rank(rows: Seq<Verse>, ids: Seq<i64>, j: int, k: nat) -> Seq<Verse>
    decreases k,
{
    if k == 0 {
        Seq::empty()
    } else {
        let prev = rows_of_rank(rows, ids, j, (k - 1) as nat);
        if id_rank(ids, rows[k - 1].id) == j {
            prev.push(rows[k - 1])
        } else {
            prev
        }
    }
}

/// The rows grouped by the rank of their id in `ids`, for ranks below `j`:
/// first those whose id is `ids`' first, and so on; within a group in their
/// original order.
pub open spec fn rows_by_rank(rows: Seq<Verse>, ids: Seq<i64>, j: nat) -> Seq<Verse>
    decreases j,
{
    if j == 0 {
        Seq::empty()
    } else {
        rows_by_rank(rows, ids, (j - 1) as nat) + rows_of_rank(rows, ids, j - 1, rows.len())
    }
}

/// The position of the last occurrence of `id` in `ids`, or `ids.len()`.
fn rank_of(ids: &[i64], id: i64) -> (r: usize)
    ensures
        r == id_rank(ids@, id),
{
    let mut r: usize = ids.len();
    let mut k: usize = 0;
    while k < ids.len()
        invariant
            k <= ids.len(),
            r == (if id_rank(ids@.take(k as int), id) == k {
                ids.len() as int
            } else {
                id_rank(ids@.take(k as int), id)
            }),
        decreases ids.len() - k,
    {
        proof {
            assert(ids@.take(k + 1).drop_last() == ids@.take(k as int));
            lemma_id_rank_bound(ids@.take(k as int), id);
        }
        if ids[k] == id {
            r = k;
        }
        k = k + 1;
    }
    proof {
        assert(ids@.take(ids.len() as int) == ids@);
        lemma_id_rank_bound(ids@, id);
    }
    r
}

proof fn lemma_id_rank_bound(ids: Seq<i64>, id: i64)
    ensures
        0 <= id_rank(ids, id) <= ids.len(),
        id_rank(ids, id) < ids.len() ==> ids[id_rank(ids, id)] == id,
    decreases ids.len(),
{
    if ids.len() > 0 && ids.last() != id {
        lemma_id_rank_bound(ids.drop_last(), id);
    }
}

/// Reorders fetched rows to follow `ids`: the rows whose id is `ids[0]`
/// first, then those of `ids[1]`, and so on (an id that occurs more than
/// once in `ids` counts at its last position); rows with the same position
/// keep their order, and rows whose id is not in `ids` come last. This is a
/// stable sort of the rows by the position of their id.
pub fn order_by_ids(rows: Vec<Verse>, ids: &[i64]) -> (r: Vec<Verse>)
    ensures
        r@ == rows_by_rank(rows@, ids@, (ids@.len() + 1) as nat),
{
    let ghost orig = rows@;
    let n = rows.len();
    let mut ranks: Vec<usize> = Vec::new();
    let mut k: usize = 0;
    while k < n
        invariant
            k <= n,
            n == rows.len(),
            rows@ == orig,
            ranks.len() == k,
            forall|i: int| 0 <= i < k ==> #[trigger] ranks@[i] == id_rank(ids@, orig[i].id),
        decreases n - k,
    {
        ranks.push(rank_of(ids, rows[k].id));
        k = k + 1;
    }
    let mut slots: Vec<Option<Verse>> = Vec::new();
    let mut remaining = rows;
    // Move the rows into slots, keeping their positions.
    let mut m: usize = 0;
    while m < n
        invariant
            m <= n,
            n == orig.len(),
            remaining@ == orig.skip(m as int),
            slots@ == Seq::new(m as nat, |i: int| Some(orig[i])),
        decreases n - m,
    {
        let v = remaining.remove(0);
        slots.push(Some(v));
        m = m + 1;
        proof {
            assert(slots@ =~= Seq::new(m as nat, |i: int| Some(orig[i])));
        }
    }
    let mut out: Vec<Verse> = Vec::new();
    let mut j: usize = 0;
    loop
        invariant_except_break
            j <= ids.len(),
            n == orig.len(),
            ranks.len() == n,
            slots.len() == n,
            forall|i: int| 0 <= i < n ==> #[trigger] ranks@[i] == id_rank(ids@, orig[i].id),
            forall|i: int|
                0 <= i < n ==> #[trigger] slots@[i] == (if ranks@[i] >= j {
                    Some(orig[i])
                } else {
                    None
                }),
            out@ == rows_by_rank(orig, ids@, j as nat),
        ensures
            out@ == rows_by_rank(orig, ids@, (ids@.len() + 1) as nat),
        decreases ids.len() - j,
    {
        take_rank(&mut slots, &ranks, j, &mut out, Ghost(orig), Ghost(ids@));
        assert(out@ == rows_by_rank(orig, ids@, (j + 1) as nat));
        if j == ids.len() {
            break;
        }
        j = j + 1;
    }
    out
}

/// Moves the rows of rank `j` from their slots to the end of `out`, in
/// their order.
fn take_rank(
    slots: &mut Vec<Option<Verse>>,
    ranks: &Vec<usize>,
    j: usize,
    out: &mut Vec<Verse>,
    Ghost(orig): Ghost<Seq<Verse>>,
    Ghost(ids): Ghost<Seq<i64>>,
)
    requires
        ranks.len() == orig.len(),
        old(slots).len() == orig.len(),
        forall|i: int| 0 <= i < orig.len() ==> #[trigger] ranks@[i] == id_rank(ids, orig[i].id),
        forall|i: int|
            0 <= i < orig.len() ==> #[trigger] old(slots)@[i] == (if ranks@[i] >= j {
                Some(orig[i])
            } else {
                None
            }),
    ensures
        final(slots).len() == orig.len(),
        forall|i: int|
            0 <= i < orig.len() ==> #[trigger] final(slots)@[i] == (if ranks@[i] > j {
                Some(orig[i])
            } else {
                None
            }),
        final(out)@ == old(out)@ + rows_of_rank(orig, ids, j as int, orig.len()),
{
    let n = slots.len();
    let ghost before = out@;
    let mut i: usize = 0;
    while i < n
        invariant
            i <= n,
            n == orig.len(),
            ranks.len() == n,
            slots.len() == n,
            forall|t: int| 0 <= t < n ==> #[trigger] ranks@[t] == id_rank(ids, orig[t].id),
            forall|t: int|
                0 <= t < n ==> #[trigger] slots@[t] == (if ranks@[t] > j || (ranks@[t] == j && t
                    >= i) {
                    Some(orig[t])
                } else {
                    None
                }),
            out@ == before + rows_of_rank(orig, ids, j as int, i as nat),
        decreases n - i,
    {
        if ranks[i] == j {
            let mut taken: Option<Verse> = None;
            slots.set_and_swap(i, &mut taken);
            match taken {
                Some(v) => {
                    out.push(v);
                },
                None => {
                    assert(false);
                },
            }
        }
        i = i + 1;
    }
}

/// The number of hits to fetch from each ranking for `limit` fused results.
pub fn fetch_count(limit: usize) -> (r: usize)
    requires
        limit <= usize::MAX / 2,
    ensures
        r == 2 * limit,
{
    limit * 2
}

/// The ids of `hits`, in order.
pub open spec fn hit_ids(hits: Seq<(i64, RrfScore)>) -> Seq<i64> {
    Seq::new(hits.len(), |i: int| hits[i].0)
}

/// `top` is the head of the Reciprocal Rank Fusion of the two rankings
/// (see `rrf_merge`) cut at `limit`: the first `limit` entries of a fusion
/// of them; so every id kept is one of theirs with its exact score, the
/// kept ids come in the fused order, and every id of the rankings that is
/// not kept comes after all the kept ones.
pub open spec fn fused_top(
    vector_ids: Seq<i64>,
    fts_ids: Seq<i64>,
    limit: nat,
    top: Seq<(i64, RrfScore)>,
) -> bool {
    &&& exists|merged: Seq<(i64, RrfScore)>|
        #[trigger] fusion_of(vector_ids, fts_ids, merged) && top == (if merged.len() <= limit {
            merged
        } else {
            merged.take(limit as int)
        })
    &&& top.len() <= limit
    &&& forall|i: int| 0 <= i < top.len() ==> (vector_ids + fts_ids).contains(#[trigger] top[i].0)
    &&& forall|i: int|
        0 <= i < top.len() ==> #[trigger] top[i].1.fraction() == rrf_score(
            vector_ids,
            fts_ids,
            top[i].0,
        )
    &&& forall|i: int, j: int|
        0 <= i < j < top.len() ==> fused_before(
            vector_ids,
            fts_ids,
            #[trigger] top[i].0,
            #[trigger] top[j].0,
        )
    &&& forall|id: i64|
        #[trigger] (vector_ids + fts_ids).contains(id) ==> (exists|i: int|
            0 <= i < top.len() && top[i].0 == id) || (top.len() == limit && forall|i: int|
            0 <= i < top.len() ==> fused_before(vector_ids, fts_ids, #[trigger] top[i].0, id))
}

/// The first `limit` ids of the Reciprocal Rank Fusion of the two rankings,
/// with their scores (see `fused_top`).
pub fn top_fused(vector_ids: &[i64], fts_ids: &[i64], limit: usize) -> (top: Vec<(i64, RrfScore)>)
    ensures
        fused_top(vector_ids@, fts_ids@, limit as nat, top@),
{
    let mut merged = rrf_merge(vector_ids, fts_ids);
    let ghost full = merged@;
    merged.truncate(limit);
    proof {
        assert(merged@ == (if full.len() <= limit {
            full
        } else {
            full.take(limit as int)
        }));
        assert forall|id: i64| #[trigger] (vector_ids@ + fts_ids@).contains(id) implies (exists|i: int|
            0 <= i < merged.len() && merged@[i].0 == id) || (merged.len() == limit && forall|i: int|
            0 <= i < merged.len() ==> fused_before(
                vector_ids@,
                fts_ids@,
                #[trigger] merged@[i].0,
                id,
            )) by {
            let k = choose|k: int| 0 <= k < full.len() && full[k].0 == id;
            if k < merged.len() {
                assert(merged@[k].0 == id);
            } else {
                assert forall|i: int| 0 <= i < merged.len() implies fused_before(
                    vector_ids@,
                    fts_ids@,
                    #[trigger] merged@[i].0,
                    id,
                ) by {
                    assert(merged@[i] == full[i]);
                    assert(fused_before(vector_ids@, fts_ids@, full[i].0, full[k].0));
                }
            }
        }
    }
    merged
}


proof fn lemma_id_rank_of_member(ids: Seq<i64>, j: int)
    requires
        ids.no_duplicates(),
        0 <= j < ids.len(),
    ensures
        id_rank(ids, ids[j]) == j,
    decreases ids.len(),
{
    if j < ids.len() - 1 {
        let prefix = ids.drop_last();
        assert(prefix[j] == ids[j]);
        assert(prefix.no_duplicates());
        lemma_id_rank_of_member(prefix, j);
        assert(ids.last() != ids[j]);
    }
}

/// With one row per requested id, the rows of rank `j` are just the row of
/// `ids[j]`.
proof fn lemma_rows_of_rank_single(rows: Seq<Verse>, ids: Seq<i64>, j: int, kj: int, k: nat)
    requires
        ids.no_duplicates(),
        verse_ids(rows).no_duplicates(),
        forall|t: int| 0 <= t < rows.len() ==> ids.contains(#[trigger] rows[t].id),
        0 <= j < ids.len(),
        0 <= kj < rows.len(),
        rows[kj].id == ids[j],
        k <= rows.len(),
    ensures
        rows_of_rank(rows, ids, j, k) == (if kj < k {
            seq![rows[kj]]
        } else {
            Seq::<Verse>::empty()
        }),
    decreases k,
{
    if k > 0 {
        let t = k - 1;
        lemma_rows_of_rank_single(rows, ids, j, kj, (k - 1) as nat);
        let idt = rows[t].id;
        let jt = choose|jt: int| 0 <= jt < ids.len() && ids[jt] == idt;
        lemma_id_rank_of_member(ids, jt);
        if t != kj {
            assert(verse_ids(rows)[t] == idt);
            assert(verse_ids(rows)[kj] == rows[kj].id);
            assert(idt != rows[kj].id);
            assert(jt != j);
        }
    }
}

/// No row has a rank past the requested ids when every row's id is
/// requested.
proof fn lemma_rows_of_rank_none(rows: Seq<Verse>, ids: Seq<i64>, k: nat)
    requires
        ids.no_duplicates(),
        forall|t: int| 0 <= t < rows.len() ==> ids.contains(#[trigger] rows[t].id),
        k <= rows.len(),
    ensures
        rows_of_rank(rows, ids, ids.len() as int, k) == Seq::<Verse>::empty(),
    decreases k,
{
    if k > 0 {
        lemma_rows_of_rank_none(rows, ids, (k - 1) as nat);
        let idt = rows[k - 1].id;
        let jt = choose|jt: int| 0 <= jt < ids.len() && ids[jt] == idt;
        lemma_id_rank_of_member(ids, jt);
    }
}

/// Among the first `k` of `ids`, those that some row has, in order.
pub open spec fn ids_with_rows(ids: Seq<i64>, rows: Seq<Verse>, k: nat) -> Seq<i64>
    decreases k,
{
    if k == 0 {
        Seq::empty()
    } else {
        let prev = ids_with_rows(ids, rows, (k - 1) as nat);
        if verse_ids(rows).contains(ids[k - 1]) {
            prev.push(ids[k - 1])
        } else {
            prev
        }
    }
}

/// No row has the rank of an id that no row has.
proof fn lemma_rows_of_rank_absent(rows: Seq<Verse>, ids: Seq<i64>, j: int, k: nat)
    requires
        ids.no_duplicates(),
        forall|t: int| 0 <= t < rows.len() ==> ids.contains(#[trigger] rows[t].id),
        0 <= j < ids.len(),
        !verse_ids(rows).contains(ids[j]),
        k <= rows.len(),
    ensures
        rows_of_rank(rows, ids, j, k) == Seq::<Verse>::empty(),
    decreases k,
{
    if k > 0 {
        lemma_rows_of_rank_absent(rows, ids, j, (k - 1) as nat);
        let t = k - 1;
        let idt = rows[t].id;
        let jt = choose|jt: int| 0 <= jt < ids.len() && ids[jt] == idt;
        lemma_id_rank_of_member(ids, jt);
        assert(verse_ids(rows)[t] == idt);
        if jt == j {
            assert(verse_ids(rows).contains(ids[j]));
        }
    }
}

/// Fetching the verses of a list of distinct ids keeps the order of the
/// list: when each fetched row has a requested id and no two rows share
/// one, `order_by_ids` lists the rows in the order of `ids`, skipping the
/// ids that have no row.
pub proof fn lemma_order_follows_ids(rows: Seq<Verse>, ids: Seq<i64>)
    requires
        ids.no_duplicates(),
        verse_ids(rows).no_duplicates(),
        forall|t: int| 0 <= t < rows.len() ==> ids.contains(#[trigger] rows[t].id),
    ensures
        verse_ids(rows_by_rank(rows, ids, (ids.len() + 1) as nat)) == ids_with_rows(
            ids,
            rows,
            ids.len(),
        ),
{
    let n = ids.len();
    lemma_rows_by_rank_prefix(rows, ids, n);
    lemma_rows_of_rank_none(rows, ids, rows.len());
    assert(rows_by_rank(rows, ids, (n + 1) as nat) == rows_by_rank(rows, ids, n as nat));
}

/// When every id has a row, the ids with rows are all the ids.
pub proof fn lemma_all_ids_with_rows(ids: Seq<i64>, rows: Seq<Verse>, k: nat)
    requires
        k <= ids.len(),
        forall|j: int| 0 <= j < ids.len() ==> verse_ids(rows).contains(#[trigger] ids[j]),
    ensures
        ids_with_rows(ids, rows, k) == ids.take(k as int),
    decreases k,
{
    if k > 0 {
        lemma_all_ids_with_rows(ids, rows, (k - 1) as nat);
        assert(verse_ids(rows).contains(ids[k - 1]));
        assert(ids.take(k as int) == ids.take(k - 1).push(ids[k - 1]));
    }
}

proof fn lemma_rows_by_rank_prefix(rows: Seq<Verse>, ids: Seq<i64>, j: nat)
    requires
        ids.no_duplicates(),
        verse_ids(rows).no_duplicates(),
        forall|t: int| 0 <= t < rows.len() ==> ids.contains(#[trigger] rows[t].id),
        j <= ids.len(),
    ensures
        verse_ids(rows_by_rank(rows, ids, j)) == ids_with_rows(ids, rows, j),
    decreases j,
{
    if j > 0 {
        let j1 = (j - 1) as nat;
        lemma_rows_by_rank_prefix(rows, ids, j1);
        let target = ids[j1 as int];
        let prev = rows_by_rank(rows, ids, j1);
        if verse_ids(rows).contains(target) {
            let kj = choose|kj: int| 0 <= kj < verse_ids(rows).len() && verse_ids(rows)[kj] == target;
            lemma_rows_of_rank_single(rows, ids, j1 as int, kj, rows.len());
            assert(rows_by_rank(rows, ids, j) == prev + seq![rows[kj]]);
            assert(verse_ids(prev + seq![rows[kj]]) == verse_ids(prev).push(rows[kj].id));
        } else {
            lemma_rows_of_rank_absent(rows, ids, j1 as int, rows.len());
            assert(rows_by_rank(rows, ids, j) == prev + Seq::<Verse>::empty());
            assert(prev + Seq::<Verse>::empty() == prev);
        }
    }
}
} // verus!

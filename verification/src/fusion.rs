//! Reciprocal Rank Fusion of a vector-search ranking and a keyword-search
//! ranking, computed with exact fractions.
use vstd::prelude::*;

use crate::natural::{from_u64, greater, product, sum, value, zero};

verus! {

/// The constant `k` of Reciprocal Rank Fusion: the item at rank `r` (counted
/// from zero) contributes `1 / (r + 60)`.
pub open spec fn fusion_k() -> int {
    60
}

/// An exact Reciprocal Rank Fusion score: `numerator / denominator`, both
/// natural numbers in limb form (see `natural`).
#[derive(Debug)]
pub struct RrfScore {
    pub numerator: Vec<u64>,
    pub denominator: Vec<u64>,
}

impl RrfScore {
    /// The score as a pair (numerator, denominator) of integers.
    pub open spec fn fraction(&self) -> (int, int) {
        (value(self.numerator@), value(self.denominator@))
    }

    /// A copy of this score.
    pub fn copy(&self) -> (r: RrfScore)
        ensures
            r.numerator@ == self.numerator@,
            r.denominator@ == self.denominator@,
    {
        let numerator = self.numerator.clone();
        let denominator = self.denominator.clone();
        proof {
            assert(numerator@ =~= self.numerator@);
            assert(denominator@ =~= self.denominator@);
        }
        RrfScore { numerator, denominator }
    }
}

/// Adds `1 / (r + 60)` to the fraction `start` for every rank `r < k` at which
/// `id` stands in `ranking`.
pub open spec fn add_reciprocals(ranking: Seq<i64>, id: i64, k: nat, start: (int, int)) -> (
    int,
    int,
)
    decreases k,
{
    if k == 0 {
        start
    } else {
        let prev = add_reciprocals(ranking, id, (k - 1) as nat, start);
        if ranking[k - 1] == id {
            let d = (k - 1) + fusion_k();
            (prev.0 * d + prev.1, prev.1 * d)
        } else {
            prev
        }
    }
}

/// The Reciprocal Rank Fusion score of `id`: the sum of `1 / (rank + 60)` over
/// every rank at which it stands in either ranking, as a fraction.
pub open spec fn rrf_score(vector_ids: Seq<i64>, fts_ids: Seq<i64>, id: i64) -> (int, int) {
    add_reciprocals(
        fts_ids,
        id,
        fts_ids.len(),
        add_reciprocals(vector_ids, id, vector_ids.len(), (0, 1)),
    )
}

/// The fraction `x` is larger than the fraction `y` (both with positive
/// denominators).
pub open spec fn score_above(x: (int, int), y: (int, int)) -> bool {
    x.0 * y.1 > y.0 * x.1
}

/// `x` occurs in `all` before any occurrence of `y`.
pub open spec fn first_seen_before(all: Seq<i64>, x: i64, y: i64) -> bool {
    exists|p: int|
        0 <= p < all.len() && #[trigger] all[p] == x && forall|q: int| 0 <= q <= p ==> all[q] != y
}

/// The fused order: a higher score first; on equal scores, the id that the
/// two rankings (vector ranking first) name first.
pub open spec fn fused_before(vector_ids: Seq<i64>, fts_ids: Seq<i64>, x: i64, y: i64) -> bool {
    let sx = rrf_score(vector_ids, fts_ids, x);
    let sy = rrf_score(vector_ids, fts_ids, y);
    score_above(sx, sy) || (!score_above(sy, sx) && first_seen_before(vector_ids + fts_ids, x, y))
}

/// No id comes before itself in the fused order.
pub proof fn lemma_fused_before_irreflexive(vector_ids: Seq<i64>, fts_ids: Seq<i64>, x: i64)
    ensures
        !fused_before(vector_ids, fts_ids, x, x),
{
    let all = vector_ids + fts_ids;
    if first_seen_before(all, x, x) {
        let p = choose|p: int|
            0 <= p < all.len() && #[trigger] all[p] == x && forall|q: int|
                0 <= q <= p ==> all[q] != x;
        assert(all[p] != x);
    }
}

/// One id with its score, and the position at which the rankings first name it.
struct Tally {
    id: i64,
    score: RrfScore,
    order: usize,
}

/// `entries` holds each id of `seen` once, in the order in which `seen` first
/// names them, each with the fraction `score(id)`; ids not in `seen` have
/// the fraction zero.
spec fn tally_ok(entries: Seq<Tally>, seen: Seq<i64>, score: spec_fn(i64) -> (int, int)) -> bool {
    &&& forall|i: int| 0 <= i < entries.len() ==> #[trigger] entries[i].order == i
    &&& forall|i: int| 0 <= i < entries.len() ==> seen.contains(#[trigger] entries[i].id)
    &&& forall|i: int|
        0 <= i < entries.len() ==> #[trigger] entries[i].score.fraction() == score(entries[i].id)
    &&& forall|i: int| 0 <= i < entries.len() ==> #[trigger] entries[i].score.fraction().1 > 0
    &&& forall|i: int, j: int|
        0 <= i < j < entries.len() ==> first_seen_before(seen, #[trigger] entries[i].id, #[trigger] entries[j].id)
    &&& forall|id: i64|
        #[trigger] seen.contains(id) ==> exists|i: int| 0 <= i < entries.len() && #[trigger] entries[i].id == id
    &&& forall|id: i64| !seen.contains(id) ==> #[trigger] score(id) == (0int, 1int)
}

proof fn lemma_no_occurrence(ranking: Seq<i64>, id: i64, k: nat, start: (int, int))
    requires
        k <= ranking.len(),
        forall|j: int| 0 <= j < k ==> ranking[j] != id,
    ensures
        add_reciprocals(ranking, id, k, start) == start,
    decreases k,
{
    if k > 0 {
        lemma_no_occurrence(ranking, id, (k - 1) as nat, start);
    }
}

proof fn lemma_seen_before_extend(seen: Seq<i64>, z: i64, x: i64, y: i64)
    requires
        first_seen_before(seen, x, y),
    ensures
        first_seen_before(seen.push(z), x, y),
{
    let p = choose|p: int|
        0 <= p < seen.len() && #[trigger] seen[p] == x && forall|q: int|
            0 <= q <= p ==> seen[q] != y;
    let s2 = seen.push(z);
    assert(s2[p] == x);
    assert forall|q: int| 0 <= q <= p implies s2[q] != y by {
        assert(s2[q] == seen[q]);
    }
}

proof fn lemma_seen_before_new(seen: Seq<i64>, x: i64, z: i64)
    requires
        seen.contains(x),
        !seen.contains(z),
    ensures
        first_seen_before(seen.push(z), x, z),
{
    let p = choose|p: int| 0 <= p < seen.len() && seen[p] == x;
    let s2 = seen.push(z);
    assert(s2[p] == x);
    assert forall|q: int| 0 <= q <= p implies s2[q] != z by {
        assert(s2[q] == seen[q]);
    }
}

/// The position of `id` in `entries`, if it is there.
fn find_id(entries: &Vec<Tally>, id: i64) -> (r: Option<usize>)
    ensures
        match r {
            Some(i) => i < entries.len() && entries@[i as int].id == id,
            None => forall|i: int| 0 <= i < entries.len() ==> entries@[i].id != id,
        },
{
    let mut i: usize = 0;
    while i < entries.len()
        invariant
            i <= entries.len(),
            forall|j: int| 0 <= j < i ==> entries@[j].id != id,
        decreases entries.len() - i,
    {
        if entries[i].id == id {
            return Some(i);
        }
        i = i + 1;
    }
    None
}

/// Adds the reciprocal ranks of `ranking` to the tallies.
fn absorb(
    entries: &mut Vec<Tally>,
    ranking: &[i64],
    Ghost(seen): Ghost<Seq<i64>>,
    Ghost(start): Ghost<spec_fn(i64) -> (int, int)>,
)
    requires
        tally_ok(old(entries)@, seen, start),
    ensures
        tally_ok(
            final(entries)@,
            seen + ranking@,
            |id: i64| add_reciprocals(ranking@, id, ranking@.len() as nat, start(id)),
        ),
{
    let mut k: usize = 0;
    while k < ranking.len()
        invariant
            k <= ranking.len(),
            tally_ok(
                entries@,
                seen + ranking@.take(k as int),
                |id: i64| add_reciprocals(ranking@, id, k as nat, start(id)),
            ),
        decreases ranking.len() - k,
    {
        let x = ranking[k];
        let ghost before = seen + ranking@.take(k as int);
        let ghost after = seen + ranking@.take(k + 1);
        let ghost old_score = |id: i64| add_reciprocals(ranking@, id, k as nat, start(id));
        let ghost new_score = |id: i64| add_reciprocals(ranking@, id, (k + 1) as nat, start(id));
        assert(after == before.push(x));
        let pos = match find_id(entries, x) {
            Some(i) => {
                proof {
                    let e = entries@;
                    assert forall|a: int, b: int|
                        0 <= a < b < e.len() implies first_seen_before(
                        after,
                        #[trigger] e[a].id,
                        #[trigger] e[b].id,
                    ) by {
                        lemma_seen_before_extend(before, x, e[a].id, e[b].id);
                    }
                }
                i
            },
            None => {
                proof {
                    if before.contains(x) {
                        let i = choose|i: int| 0 <= i < entries.len() && #[trigger] entries@[i].id == x;
                        assert(entries@[i].id == x);
                    }
                    assert(old_score(x) == (0int, 1int));
                }
                let n = entries.len();
                let fresh = Tally {
                    id: x,
                    score: RrfScore { numerator: zero(), denominator: from_u64(1) },
                    order: n,
                };
                let ghost prev = entries@;
                entries.push(fresh);
                proof {
                    assert forall|i: int, j: int|
                        0 <= i < j < entries.len() implies first_seen_before(
                        after,
                        #[trigger] entries@[i].id,
                        #[trigger] entries@[j].id,
                    ) by {
                        if j < n {
                            assert(first_seen_before(before, prev[i].id, prev[j].id));
                            lemma_seen_before_extend(before, x, prev[i].id, prev[j].id);
                        } else {
                            assert(before.contains(prev[i].id));
                            lemma_seen_before_new(before, prev[i].id, x);
                        }
                    }
                    assert forall|id: i64| #[trigger] before.contains(id) implies exists|i: int|
                        0 <= i < entries.len() && #[trigger] entries@[i].id == id by {
                        let i = choose|i: int| 0 <= i < prev.len() && #[trigger] prev[i].id == id;
                        assert(entries@[i].id == id);
                    }
                    assert(entries@[n as int].score.fraction() == (0int, 1int));
                }
                n
            },
        };
        let ghost mid = entries@;
        proof {
            assert(mid[pos as int].id == x);
            assert(mid[pos as int].score.fraction() == old_score(x));
            assert(forall|i: int| 0 <= i < mid.len() ==> #[trigger] mid[i].order == i);
            assert(forall|i: int|
                0 <= i < mid.len() && i != pos ==> before.contains(#[trigger] mid[i].id));
            assert(forall|i: int|
                0 <= i < mid.len() ==> #[trigger] mid[i].score.fraction() == old_score(mid[i].id));
            assert(forall|i: int| 0 <= i < mid.len() ==> #[trigger] mid[i].score.fraction().1 > 0);
            assert(forall|id: i64|
                #[trigger] before.contains(id) ==> exists|i: int|
                    0 <= i < mid.len() && #[trigger] mid[i].id == id);
        }
        let rank = sum(&from_u64(k as u64), &from_u64(60));
        let num = sum(&product(&entries[pos].score.numerator, &rank), &entries[pos].score.denominator);
        let den = product(&entries[pos].score.denominator, &rank);
        let updated = Tally { id: x, score: RrfScore { numerator: num, denominator: den }, order: pos };
        proof {
            let d = mid[pos as int].score.fraction().1;
            assert(value(rank@) == k + 60);
            assert(d * (k + 60) > 0) by (nonlinear_arith)
                requires
                    d > 0,
                    k >= 0,
            ;
            assert(updated.score.fraction() == new_score(x));
        }
        entries.set(pos, updated);
        proof {
            let e = entries@;
            assert forall|i: int| 0 <= i < e.len() implies #[trigger] e[i].score.fraction()
                == new_score(e[i].id) by {
                if i != pos {
                    assert(e[i] == mid[i]);
                    if mid[i].id == x {
                        if i < pos {
                            assert(first_seen_before(after, mid[i].id, mid[pos as int].id));
                        } else {
                            assert(first_seen_before(after, mid[pos as int].id, mid[i].id));
                        }
                        lemma_seen_before_irreflexive(after, x);
                    }
                    assert(new_score(e[i].id) == old_score(e[i].id));
                }
            }
            assert forall|i: int| 0 <= i < e.len() implies after.contains(#[trigger] e[i].id) by {
                assert(after[after.len() - 1] == x);
                if i != pos {
                    assert(e[i] == mid[i]);
                    let p = choose|p: int| 0 <= p < before.len() && before[p] == e[i].id;
                    assert(after[p] == e[i].id);
                }
            }
            assert forall|i: int| 0 <= i < e.len() implies #[trigger] e[i].score.fraction().1 > 0 by {
                if i != pos {
                    assert(e[i] == mid[i]);
                }
            }
            assert forall|i: int, j: int|
                0 <= i < j < e.len() implies first_seen_before(
                after,
                #[trigger] e[i].id,
                #[trigger] e[j].id,
            ) by {
                assert(e[i].id == mid[i].id);
                assert(e[j].id == mid[j].id);
            }
            assert forall|id: i64| #[trigger] after.contains(id) implies exists|i: int|
                0 <= i < e.len() && #[trigger] e[i].id == id by {
                if id == x {
                    assert(e[pos as int].id == id);
                } else {
                    let p = choose|p: int| 0 <= p < after.len() && after[p] == id;
                    assert(p < before.len());
                    assert(before[p] == id);
                    assert(before.contains(id));
                    let i = choose|i: int| 0 <= i < mid.len() && #[trigger] mid[i].id == id;
                    assert(e[i].id == id);
                }
            }
            assert forall|id: i64| !after.contains(id) implies #[trigger] new_score(id) == (
            0int, 1int) by {
                assert(after[after.len() - 1] == x);
                assert(id != x);
                if before.contains(id) {
                    let p = choose|p: int| 0 <= p < before.len() && before[p] == id;
                    assert(after[p] == id);
                }
                assert(old_score(id) == (0int, 1int));
                assert(new_score(id) == old_score(id));
            }
        }
        k = k + 1;
    }
    proof {
        assert(ranking@.take(ranking@.len() as int) == ranking@);
    }
}

proof fn lemma_seen_before_irreflexive(all: Seq<i64>, x: i64)
    ensures
        !first_seen_before(all, x, x),
{
    if first_seen_before(all, x, x) {
        let p = choose|p: int|
            0 <= p < all.len() && #[trigger] all[p] == x && forall|q: int|
                0 <= q <= p ==> all[q] != x;
        assert(all[p] != x);
    }
}


/// `a` comes before `b` in the fused order: a larger score, or an equal score
/// and an earlier first mention.
spec fn ahead(a: Tally, b: Tally) -> bool {
    score_above(a.score.fraction(), b.score.fraction()) || (!score_above(
        b.score.fraction(),
        a.score.fraction(),
    ) && a.order < b.order)
}

proof fn lemma_cross_order(xn: int, xd: int, yn: int, yd: int, zn: int, zd: int)
    requires
        xd > 0,
        yd > 0,
        zd > 0,
        xn * yd >= yn * xd,
        yn * zd >= zn * yd,
    ensures
        xn * zd >= zn * xd,
        (xn * yd > yn * xd || yn * zd > zn * yd) ==> xn * zd > zn * xd,
{
    assert(xn * yd * zd >= yn * xd * zd) by (nonlinear_arith)
        requires
            xn * yd >= yn * xd,
            zd > 0,
    ;
    assert(yn * zd * xd >= zn * yd * xd) by (nonlinear_arith)
        requires
            yn * zd >= zn * yd,
            xd > 0,
    ;
    assert(yn * xd * zd == yn * zd * xd) by (nonlinear_arith);
    assert(xn * yd * zd == yd * (xn * zd)) by (nonlinear_arith);
    assert(zn * yd * xd == yd * (zn * xd)) by (nonlinear_arith);
    assert(xn * zd >= zn * xd) by (nonlinear_arith)
        requires
            yd * (xn * zd) >= yd * (zn * xd),
            yd > 0,
    ;
    if xn * yd > yn * xd {
        assert(xn * yd * zd > yn * xd * zd) by (nonlinear_arith)
            requires
                xn * yd > yn * xd,
                zd > 0,
        ;
        assert(xn * zd > zn * xd) by (nonlinear_arith)
            requires
                yd * (xn * zd) > yd * (zn * xd),
                yd > 0,
        ;
    }
    if yn * zd > zn * yd {
        assert(yn * zd * xd > zn * yd * xd) by (nonlinear_arith)
            requires
                yn * zd > zn * yd,
                xd > 0,
        ;
        assert(xn * zd > zn * xd) by (nonlinear_arith)
            requires
                yd * (xn * zd) > yd * (zn * xd),
                yd > 0,
        ;
    }
}

proof fn lemma_ahead_transitive(a: Tally, b: Tally, c: Tally)
    requires
        a.score.fraction().1 > 0,
        b.score.fraction().1 > 0,
        c.score.fraction().1 > 0,
        ahead(a, b),
        ahead(b, c),
    ensures
        ahead(a, c),
{
    let (an, ad) = a.score.fraction();
    let (bn, bd) = b.score.fraction();
    let (cn, cd) = c.score.fraction();
    lemma_cross_order(an, ad, bn, bd, cn, cd);
    if !score_above(a.score.fraction(), c.score.fraction()) {
        // then both steps are ties in score, so the orders decide
        assert(!score_above(c.score.fraction(), a.score.fraction()));
    }
}

proof fn lemma_ahead_total(a: Tally, b: Tally)
    requires
        a.order != b.order,
    ensures
        ahead(a, b) || ahead(b, a),
{
}

/// The tally first mentioned at position `k` is among `picked` or `rest`.
spec fn accounted(picked: Seq<Tally>, rest: Seq<Tally>, k: int) -> bool {
    (exists|i: int| 0 <= i < picked.len() && #[trigger] picked[i].order == k) || (exists|j: int|
        0 <= j < rest.len() && #[trigger] rest[j].order == k)
}

/// Decides `ahead(a, b)` exactly.
fn is_ahead(a: &Tally, b: &Tally) -> (r: bool)
    ensures
        r == ahead(*a, *b),
{
    let ab = product(&a.score.numerator, &b.score.denominator);
    let ba = product(&b.score.numerator, &a.score.denominator);
    if greater(&ab, &ba) {
        true
    } else if greater(&ba, &ab) {
        false
    } else {
        a.order < b.order
    }
}

/// The position of the tally that comes first in the fused order.
fn best_index(rest: &Vec<Tally>) -> (b: usize)
    requires
        rest.len() > 0,
        forall|j: int| 0 <= j < rest.len() ==> #[trigger] rest@[j].score.fraction().1 > 0,
        forall|i: int, j: int|
            0 <= i < rest.len() && 0 <= j < rest.len() && i != j ==> #[trigger] rest@[i].order
                != #[trigger] rest@[j].order,
    ensures
        b < rest.len(),
        forall|j: int| 0 <= j < rest.len() && j != b ==> ahead(rest@[b as int], #[trigger] rest@[j]),
{
    let mut b: usize = 0;
    let mut k: usize = 1;
    while k < rest.len()
        invariant
            1 <= k <= rest.len(),
            b < k,
            forall|j: int| 0 <= j < rest.len() ==> #[trigger] rest@[j].score.fraction().1 > 0,
            forall|i: int, j: int|
                0 <= i < rest.len() && 0 <= j < rest.len() && i != j ==> #[trigger] rest@[i].order
                    != #[trigger] rest@[j].order,
            forall|j: int| 0 <= j < k && j != b ==> ahead(rest@[b as int], #[trigger] rest@[j]),
        decreases rest.len() - k,
    {
        if is_ahead(&rest[k], &rest[b]) {
            proof {
                assert forall|j: int| 0 <= j < k + 1 && j != k implies ahead(
                    rest@[k as int],
                    #[trigger] rest@[j],
                ) by {
                    if j != b {
                        lemma_ahead_transitive(rest@[k as int], rest@[b as int], rest@[j]);
                    }
                }
            }
            b = k;
        } else {
            proof {
                lemma_ahead_total(rest@[k as int], rest@[b as int]);
            }
        }
        k = k + 1;
    }
    b
}

/// `merged` is the Reciprocal Rank Fusion of the two rankings: every id
/// of either ranking once, with its exact score (a positive denominator),
/// in the fused order.
pub open spec fn fusion_of(vector_ids: Seq<i64>, fts_ids: Seq<i64>, merged: Seq<(i64, RrfScore)>) -> bool {
    &&& forall|i: int|
        0 <= i < merged.len() ==> (vector_ids + fts_ids).contains(#[trigger] merged[i].0)
    &&& forall|i: int|
        0 <= i < merged.len() ==> #[trigger] merged[i].1.fraction() == rrf_score(
            vector_ids,
            fts_ids,
            merged[i].0,
        )
    &&& forall|i: int| 0 <= i < merged.len() ==> #[trigger] merged[i].1.fraction().1 > 0
    &&& forall|id: i64|
        #[trigger] (vector_ids + fts_ids).contains(id) ==> exists|i: int|
            0 <= i < merged.len() && merged[i].0 == id
    &&& forall|i: int, j: int|
        0 <= i < j < merged.len() ==> fused_before(
            vector_ids,
            fts_ids,
            #[trigger] merged[i].0,
            #[trigger] merged[j].0,
        )
    &&& forall|i: int, j: int|
        0 <= i < j < merged.len() ==> #[trigger] merged[i].0 != #[trigger] merged[j].0
}

/// Merges two rankings by Reciprocal Rank Fusion with `k = 60`: every id that
/// either ranking names appears once, with the exact sum of `1 / (rank + 60)`
/// over the ranks at which it stands (ranks counted from zero, in each
/// ranking); ids come by decreasing score, equal scores in the order in which
/// the rankings (the vector ranking first) first name them.
pub fn rrf_merge(vector_ids: &[i64], fts_ids: &[i64]) -> (merged: Vec<(i64, RrfScore)>)
    ensures
        fusion_of(vector_ids@, fts_ids@, merged@),
{
    let mut entries: Vec<Tally> = Vec::new();
    let ghost none = |id: i64| (0int, 1int);
    absorb(&mut entries, vector_ids, Ghost(Seq::<i64>::empty()), Ghost(none));
    let ghost first = |id: i64|
        add_reciprocals(vector_ids@, id, vector_ids@.len() as nat, none(id));
    assert(Seq::<i64>::empty() + vector_ids@ == vector_ids@);
    absorb(&mut entries, fts_ids, Ghost(vector_ids@), Ghost(first));
    let ghost all = vector_ids@ + fts_ids@;
    let ghost score = |id: i64| add_reciprocals(fts_ids@, id, fts_ids@.len() as nat, first(id));
    assert(tally_ok(entries@, all, score));
    let ghost orig = entries@;
    let n = entries.len();
    let mut rest = entries;
    let mut merged: Vec<(i64, RrfScore)> = Vec::new();
    let ghost mut picked: Seq<Tally> = Seq::empty();
    proof {
        assert forall|k: int| 0 <= k < n implies #[trigger] accounted(picked, rest@, k) by {
            assert(rest@[k].order == k);
        }
    }
    while rest.len() > 0
        invariant
            n == orig.len(),
            tally_ok(orig, all, score),
            picked.len() == merged.len(),
            picked.len() + rest.len() == n,
            forall|i: int|
                0 <= i < picked.len() ==> #[trigger] merged@[i].0 == picked[i].id
                    && merged@[i].1 == picked[i].score,
            forall|i: int|
                0 <= i < picked.len() ==> #[trigger] picked[i].order < n && orig[picked[i].order as int]
                    == picked[i],
            forall|j: int|
                0 <= j < rest.len() ==> #[trigger] rest@[j].order < n && orig[rest@[j].order as int]
                    == rest@[j],
            forall|i: int, j: int|
                0 <= i < rest.len() && 0 <= j < rest.len() && i != j ==> #[trigger] rest@[i].order
                    != #[trigger] rest@[j].order,
            forall|k: int| 0 <= k < n ==> #[trigger] accounted(picked, rest@, k),
            forall|i: int, j: int|
                0 <= i < j < picked.len() ==> ahead(#[trigger] picked[i], #[trigger] picked[j]),
            forall|i: int, j: int|
                0 <= i < picked.len() && 0 <= j < rest.len() ==> ahead(
                    #[trigger] picked[i],
                    #[trigger] rest@[j],
                ),
        decreases rest.len(),
    {
        proof {
            assert forall|j: int| 0 <= j < rest.len() implies #[trigger] rest@[j].score.fraction().1
                > 0 by {
                let o = rest@[j].order as int;
                assert(orig[o].score.fraction().1 > 0);
            }
        }
        let b = best_index(&rest);
        let ghost before_rest = rest@;
        let t = rest.remove(b);
        let ghost old_picked = picked;
        proof {
            picked = picked.push(t);
            assert forall|k: int| 0 <= k < n implies #[trigger] accounted(picked, rest@, k) by {
                assert(accounted(old_picked, before_rest, k));
                if exists|i: int| 0 <= i < old_picked.len() && #[trigger] old_picked[i].order == k {
                    let i = choose|i: int|
                        0 <= i < old_picked.len() && #[trigger] old_picked[i].order == k;
                    assert(picked[i].order == k);
                } else {
                    let j = choose|j: int| 0 <= j < before_rest.len() && #[trigger] before_rest[j].order == k;
                    if j == b {
                        assert(picked[old_picked.len() as int].order == k);
                    } else if j < b {
                        assert(rest@[j].order == k);
                    } else {
                        assert(rest@[j - 1].order == k);
                    }
                }
            }
            assert forall|i: int, j: int|
                0 <= i < j < picked.len() implies ahead(#[trigger] picked[i], #[trigger] picked[j]) by {
                if j == old_picked.len() {
                    assert(before_rest[b as int] == t);
                }
            }
            assert forall|i: int, j: int|
                0 <= i < picked.len() && 0 <= j < rest.len() implies ahead(
                #[trigger] picked[i],
                #[trigger] rest@[j],
            ) by {
                let jj = if j < b { j } else { j + 1 };
                assert(rest@[j] == before_rest[jj]);
                if i == old_picked.len() {
                    assert(picked[i] == before_rest[b as int]);
                }
            }
            assert forall|i: int, j: int|
                0 <= i < rest.len() && 0 <= j < rest.len() && i != j implies #[trigger] rest@[i].order
                != #[trigger] rest@[j].order by {
                let ii = if i < b { i } else { i + 1 };
                let jj = if j < b { j } else { j + 1 };
                assert(rest@[i] == before_rest[ii]);
                assert(rest@[j] == before_rest[jj]);
            }
            assert forall|j: int| 0 <= j < rest.len() implies #[trigger] rest@[j].order < n && orig[
                rest@[j].order as int] == rest@[j] by {
                let jj = if j < b { j } else { j + 1 };
                assert(rest@[j] == before_rest[jj]);
            }
        }
        let Tally { id, score: s, order: _ } = t;
        merged.push((id, s));
    }
    proof {
        assert forall|i: int| 0 <= i < merged.len() implies (vector_ids@ + fts_ids@).contains(
            #[trigger] merged@[i].0,
        ) by {
            let o = picked[i].order as int;
            assert(all.contains(orig[o].id));
        }
        assert forall|i: int| 0 <= i < merged.len() implies #[trigger] merged@[i].1.fraction()
            == rrf_score(vector_ids@, fts_ids@, merged@[i].0) && merged@[i].1.fraction().1 > 0 by {
            let o = picked[i].order as int;
            assert(picked[i] == orig[o]);
            assert(merged@[i].0 == orig[o].id);
            assert(merged@[i].1 == orig[o].score);
            assert(orig[o].score.fraction() == score(orig[o].id));
            assert(score(orig[o].id) == rrf_score(vector_ids@, fts_ids@, orig[o].id));
            assert(orig[o].score.fraction().1 > 0);
        }
        assert forall|id: i64| #[trigger] (vector_ids@ + fts_ids@).contains(id) implies exists|i: int|
            0 <= i < merged.len() && merged@[i].0 == id by {
            assert(all.contains(id));
            let k = choose|k: int| 0 <= k < orig.len() && #[trigger] orig[k].id == id;
            assert(orig[k].order == k);
            assert(accounted(picked, rest@, k));
            let i = choose|i: int| 0 <= i < picked.len() && #[trigger] picked[i].order == k;
            assert(merged@[i].0 == id);
        }
        assert forall|i: int, j: int|
            0 <= i < j < merged.len() implies fused_before(
            vector_ids@,
            fts_ids@,
            #[trigger] merged@[i].0,
            #[trigger] merged@[j].0,
        ) by {
            let a = picked[i];
            let c = picked[j];
            assert(ahead(a, c));
            assert(orig[a.order as int] == a);
            assert(orig[c.order as int] == c);
            assert(a.score.fraction() == score(a.id));
            assert(c.score.fraction() == score(c.id));
            if a.order < c.order {
                assert(orig[a.order as int].order == a.order);
                assert(first_seen_before(all, orig[a.order as int].id, orig[c.order as int].id));
            }
        }
        assert forall|i: int, j: int|
            0 <= i < j < merged.len() implies #[trigger] merged@[i].0 != #[trigger] merged@[j].0 by {
            lemma_fused_before_irreflexive(vector_ids@, fts_ids@, merged@[i].0);
            assert(fused_before(vector_ids@, fts_ids@, merged@[i].0, merged@[j].0));
        }
    }
    merged
}

/// Adding reciprocal ranks to a start fraction `s` is the same as adding the
/// reciprocal ranks to zero and then adding `s`.
proof fn lemma_add_reciprocals_linear(ranking: Seq<i64>, id: i64, k: nat, s: (int, int))
    requires
        k <= ranking.len(),
    ensures
        ({
            let base = add_reciprocals(ranking, id, k, (0, 1));
            add_reciprocals(ranking, id, k, s) == (s.0 * base.1 + s.1 * base.0, s.1 * base.1)
        }),
    decreases k,
{
    if k == 0 {
        assert(s.0 * 1 + s.1 * 0 == s.0) by (nonlinear_arith);
        assert(s.1 * 1 == s.1) by (nonlinear_arith);
    } else {
        let k1 = (k - 1) as nat;
        lemma_add_reciprocals_linear(ranking, id, k1, s);
        let b = add_reciprocals(ranking, id, k1, (0, 1));
        if ranking[k - 1] == id {
            let a = k1 + fusion_k();
            assert((s.0 * b.1 + s.1 * b.0) * a + s.1 * b.1 == s.0 * (b.1 * a) + s.1 * (b.0 * a
                + b.1)) by (nonlinear_arith);
            assert(s.1 * b.1 * a == s.1 * (b.1 * a)) by (nonlinear_arith);
        }
    }
}

/// The fused score does not depend on which ranking comes first.
pub proof fn lemma_rrf_score_symmetric(vector_ids: Seq<i64>, fts_ids: Seq<i64>, id: i64)
    ensures
        rrf_score(vector_ids, fts_ids, id) == rrf_score(fts_ids, vector_ids, id),
{
    let v = add_reciprocals(vector_ids, id, vector_ids.len(), (0, 1));
    let f = add_reciprocals(fts_ids, id, fts_ids.len(), (0, 1));
    lemma_add_reciprocals_linear(fts_ids, id, fts_ids.len(), v);
    lemma_add_reciprocals_linear(vector_ids, id, vector_ids.len(), f);
    assert(v.0 * f.1 + v.1 * f.0 == f.0 * v.1 + f.1 * v.0) by (nonlinear_arith);
    assert(v.1 * f.1 == f.1 * v.1) by (nonlinear_arith);
}

/// `id` stands at most once in `ranking`.
pub open spec fn at_most_once(ranking: Seq<i64>, id: i64) -> bool {
    forall|i: int, j: int|
        0 <= i < j < ranking.len() ==> !(#[trigger] ranking[i] == id && #[trigger] ranking[j] == id)
}

/// In `ranking`, `x` stands wherever `y` stands or earlier: if `y` is
/// ranked, so is `x`, at a rank no worse.
pub open spec fn ranked_no_worse(ranking: Seq<i64>, x: i64, y: i64) -> bool {
    forall|q: int|
        0 <= q < ranking.len() && #[trigger] ranking[q] == y ==> exists|p: int|
            0 <= p <= q && #[trigger] ranking[p] == x
}

/// In `ranking`, `x` is ranked strictly better than `y` (which may be
/// unranked).
pub open spec fn ranked_better(ranking: Seq<i64>, x: i64, y: i64) -> bool {
    exists|p: int|
        0 <= p < ranking.len() && #[trigger] ranking[p] == x && forall|q: int|
            0 <= q <= p ==> ranking[q] != y
}

/// The reciprocal-rank sum of an id that stands at most once: `1 / (p + 60)`
/// if it stands at rank `p` below `k`, else zero.
proof fn lemma_single_term(ranking: Seq<i64>, id: i64, k: nat)
    requires
        k <= ranking.len(),
        at_most_once(ranking, id),
    ensures
        (forall|j: int| 0 <= j < k ==> ranking[j] != id) ==> add_reciprocals(ranking, id, k, (0, 1))
            == (0int, 1int),
        forall|p: int|
            0 <= p < k && ranking[p] == id ==> add_reciprocals(ranking, id, k, (0, 1)) == (
                1int,
                p + fusion_k(),
            ),
    decreases k,
{
    if k > 0 {
        let k1 = (k - 1) as nat;
        lemma_single_term(ranking, id, k1);
        if ranking[k - 1] == id {
            assert forall|j: int| 0 <= j < k1 implies ranking[j] != id by {
                if ranking[j] == id {
                    assert(!(ranking[j] == id && ranking[k1 as int] == id));
                }
            }
            assert(0 * (k1 + fusion_k()) + 1 == 1) by (nonlinear_arith);
        } else {
            assert forall|p: int| 0 <= p < k && ranking[p] == id implies add_reciprocals(
                ranking,
                id,
                k,
                (0, 1),
            ) == (1int, p + fusion_k()) by {
                assert(p < k1);
            }
        }
    }
}

/// One ranking's contribution to the scores of `x` and `y`: `x`'s is at
/// least `y`'s, and larger when `x` is ranked strictly better.
proof fn lemma_term_order(ranking: Seq<i64>, x: i64, y: i64)
    requires
        x != y,
        at_most_once(ranking, x),
        at_most_once(ranking, y),
        ranked_no_worse(ranking, x, y),
    ensures
        ({
            let tx = add_reciprocals(ranking, x, ranking.len(), (0, 1));
            let ty = add_reciprocals(ranking, y, ranking.len(), (0, 1));
            &&& tx.1 > 0
            &&& ty.1 > 0
            &&& tx.0 * ty.1 >= ty.0 * tx.1
            &&& ranked_better(ranking, x, y) ==> tx.0 * ty.1 > ty.0 * tx.1
        }),
{
    let n = ranking.len();
    lemma_single_term(ranking, x, n);
    lemma_single_term(ranking, y, n);
    let tx = add_reciprocals(ranking, x, n, (0, 1));
    let ty = add_reciprocals(ranking, y, n, (0, 1));
    if exists|q: int| 0 <= q < n && ranking[q] == y {
        let q = choose|q: int| 0 <= q < n && ranking[q] == y;
        assert(ty == (1int, q + fusion_k()));
        let p = choose|p: int| 0 <= p <= q && #[trigger] ranking[p] == x;
        assert(tx == (1int, p + fusion_k()));
        if ranked_better(ranking, x, y) {
            let p2 = choose|p2: int|
                0 <= p2 < n && #[trigger] ranking[p2] == x && forall|r: int|
                    0 <= r <= p2 ==> ranking[r] != y;
            if p2 != p {
                if p2 < p {
                    assert(!(ranking[p2] == x && ranking[p] == x));
                } else {
                    assert(!(ranking[p] == x && ranking[p2] == x));
                }
            }
            assert(p < q) by {
                if q <= p {
                    assert(ranking[q] != y);
                }
            }
        }
    } else {
        assert(ty == (0int, 1int));
        if exists|p: int| 0 <= p < n && ranking[p] == x {
            let p = choose|p: int| 0 <= p < n && ranking[p] == x;
            assert(tx == (1int, p + fusion_k()));
        } else {
            assert(tx == (0int, 1int));
            if ranked_better(ranking, x, y) {
                let p = choose|p: int|
                    0 <= p < n && #[trigger] ranking[p] == x && forall|r: int|
                        0 <= r <= p ==> ranking[r] != y;
                assert(ranking[p] == x);
            }
        }
    }
}

/// Reciprocal Rank Fusion respects agreement of the rankings: for two ids
/// that each ranking names at most once, if every ranking ranks `x` no
/// worse than `y` and one ranks it strictly better, `x` has the larger
/// fused score and comes first.
pub proof fn lemma_rrf_agreement(vector_ids: Seq<i64>, fts_ids: Seq<i64>, x: i64, y: i64)
    requires
        x != y,
        at_most_once(vector_ids, x),
        at_most_once(vector_ids, y),
        at_most_once(fts_ids, x),
        at_most_once(fts_ids, y),
        ranked_no_worse(vector_ids, x, y),
        ranked_no_worse(fts_ids, x, y),
        ranked_better(vector_ids, x, y) || ranked_better(fts_ids, x, y),
    ensures
        score_above(rrf_score(vector_ids, fts_ids, x), rrf_score(vector_ids, fts_ids, y)),
        fused_before(vector_ids, fts_ids, x, y),
{
    lemma_term_order(vector_ids, x, y);
    lemma_term_order(fts_ids, x, y);
    let vx = add_reciprocals(vector_ids, x, vector_ids.len(), (0, 1));
    let vy = add_reciprocals(vector_ids, y, vector_ids.len(), (0, 1));
    let fx = add_reciprocals(fts_ids, x, fts_ids.len(), (0, 1));
    let fy = add_reciprocals(fts_ids, y, fts_ids.len(), (0, 1));
    lemma_add_reciprocals_linear(fts_ids, x, fts_ids.len(), vx);
    lemma_add_reciprocals_linear(fts_ids, y, fts_ids.len(), vy);
    lemma_sum_order(vx.0, vx.1, fx.0, fx.1, vy.0, vy.1, fy.0, fy.1);
}

/// If `p/q >= r/s` and `t/u >= v/w`, one of them strictly, then
/// `p/q + t/u > r/s + v/w` (all denominators positive).
proof fn lemma_sum_order(p: int, q: int, t: int, u: int, r: int, s: int, v: int, w: int)
    requires
        q > 0,
        s > 0,
        u > 0,
        w > 0,
        p * s >= r * q,
        t * w >= v * u,
        p * s > r * q || t * w > v * u,
    ensures
        (p * u + q * t) * (s * w) > (r * w + s * v) * (q * u),
{
    let uw = u * w;
    let qs = q * s;
    assert(uw > 0) by (nonlinear_arith)
        requires
            u > 0,
            w > 0,
            uw == u * w,
    ;
    assert(qs > 0) by (nonlinear_arith)
        requires
            q > 0,
            s > 0,
            qs == q * s,
    ;
    let ps = p * s;
    let rq = r * q;
    let tw = t * w;
    let vu = v * u;
    assert(ps * uw >= rq * uw) by (nonlinear_arith)
        requires
            ps >= rq,
            uw > 0,
    ;
    assert(tw * qs >= vu * qs) by (nonlinear_arith)
        requires
            tw >= vu,
            qs > 0,
    ;
    if ps > rq {
        assert(ps * uw > rq * uw) by (nonlinear_arith)
            requires
                ps > rq,
                uw > 0,
        ;
    } else {
        assert(tw * qs > vu * qs) by (nonlinear_arith)
            requires
                tw > vu,
                qs > 0,
        ;
    }
    let sw = s * w;
    let qu = q * u;
    assert((p * u + q * t) * sw == p * u * sw + q * t * sw) by (nonlinear_arith);
    assert(p * u * sw == ps * uw) by (nonlinear_arith)
        requires
            sw == s * w,
            ps == p * s,
            uw == u * w,
    ;
    assert(q * t * sw == tw * qs) by (nonlinear_arith)
        requires
            sw == s * w,
            tw == t * w,
            qs == q * s,
    ;
    assert((r * w + s * v) * qu == r * w * qu + s * v * qu) by (nonlinear_arith);
    assert(r * w * qu == rq * uw) by (nonlinear_arith)
        requires
            qu == q * u,
            rq == r * q,
            uw == u * w,
    ;
    assert(s * v * qu == vu * qs) by (nonlinear_arith)
        requires
            qu == q * u,
            vu == v * u,
            qs == q * s,
    ;
}

/// A single ranking keeps its order: when the keyword ranking is empty and
/// the vector ranking names no id twice, an id ranked higher is fused
/// before one ranked lower.
pub proof fn lemma_single_ranking_order(vector_ids: Seq<i64>, fts_ids: Seq<i64>, i: int, j: int)
    requires
        vector_ids.no_duplicates(),
        fts_ids.len() == 0,
        0 <= i < j < vector_ids.len(),
    ensures
        fused_before(vector_ids, fts_ids, vector_ids[i], vector_ids[j]),
{
    let x = vector_ids[i];
    let y = vector_ids[j];
    assert(at_most_once(vector_ids, x));
    assert(at_most_once(vector_ids, y));
    assert(ranked_no_worse(vector_ids, x, y)) by {
        assert forall|q: int| 0 <= q < vector_ids.len() && #[trigger] vector_ids[q] == y implies exists|p: int|
            0 <= p <= q && #[trigger] vector_ids[p] == x by {
            assert(q == j);
            assert(vector_ids[i] == x);
        }
    }
    assert(ranked_better(vector_ids, x, y)) by {
        assert forall|q: int| 0 <= q <= i implies vector_ids[q] != y by {
            if vector_ids[q] == y {
                assert(q == j);
            }
        }
        assert(vector_ids[i] == x);
    }
    lemma_rrf_agreement(vector_ids, fts_ids, x, y);
}

/// The fused order is asymmetric: no two ids each come before the other.
pub proof fn lemma_fused_before_asymmetric(vector_ids: Seq<i64>, fts_ids: Seq<i64>, x: i64, y: i64)
    requires
        fused_before(vector_ids, fts_ids, x, y),
    ensures
        !fused_before(vector_ids, fts_ids, y, x),
{
    let all = vector_ids + fts_ids;
    let sx = rrf_score(vector_ids, fts_ids, x);
    let sy = rrf_score(vector_ids, fts_ids, y);
    if fused_before(vector_ids, fts_ids, y, x) {
        if score_above(sx, sy) {
            assert(!score_above(sy, sx));
        } else {
            let p = choose|p: int|
                0 <= p < all.len() && #[trigger] all[p] == x && forall|q: int|
                    0 <= q <= p ==> all[q] != y;
            let p2 = choose|p2: int|
                0 <= p2 < all.len() && #[trigger] all[p2] == y && forall|q: int|
                    0 <= q <= p2 ==> all[q] != x;
            if p < p2 {
                assert(all[p] != x);
            } else {
                assert(all[p2] != y);
            }
        }
    }
}

/// Fusing a single ranking gives it back: when the keyword ranking is empty
/// and the vector ranking names no id twice, the fusion lists the ids of
/// the vector ranking in its order.
pub proof fn lemma_single_ranking_unchanged(
    vector_ids: Seq<i64>,
    fts_ids: Seq<i64>,
    merged: Seq<(i64, RrfScore)>,
)
    requires
        vector_ids.no_duplicates(),
        fts_ids.len() == 0,
        fusion_of(vector_ids, fts_ids, merged),
    ensures
        merged.len() == vector_ids.len(),
        forall|k: int| 0 <= k < merged.len() ==> #[trigger] merged[k].0 == vector_ids[k],
{
    assert(vector_ids + fts_ids =~= vector_ids);
    let n = vector_ids.len();
    lemma_single_prefix(vector_ids, fts_ids, merged, merged.len());
    if merged.len() < n {
        let t = merged.len() as int;
        assert((vector_ids + fts_ids).contains(vector_ids[t]));
        let i = choose|i: int| 0 <= i < merged.len() && merged[i].0 == vector_ids[t];
        assert(merged[i].0 == vector_ids[i]);
    }
}

/// The first `k` fused ids of a single ranking are its first `k` ids.
proof fn lemma_single_prefix(
    vector_ids: Seq<i64>,
    fts_ids: Seq<i64>,
    merged: Seq<(i64, RrfScore)>,
    k: nat,
)
    requires
        vector_ids.no_duplicates(),
        fts_ids.len() == 0,
        fusion_of(vector_ids, fts_ids, merged),
        k <= merged.len(),
    ensures
        k <= vector_ids.len(),
        forall|t: int| 0 <= t < k ==> #[trigger] merged[t].0 == vector_ids[t],
    decreases k,
{
    assert(vector_ids + fts_ids =~= vector_ids);
    if k > 0 {
        let k1 = (k - 1) as int;
        lemma_single_prefix(vector_ids, fts_ids, merged, k1 as nat);
        let id = merged[k1].0;
        assert((vector_ids + fts_ids).contains(id));
        let a = choose|a: int| 0 <= a < vector_ids.len() && vector_ids[a] == id;
        if a < k1 {
            assert(merged[a].0 == vector_ids[a]);
            assert(merged[a].0 != merged[k1].0);
        }
        if a > k1 {
            let target = vector_ids[k1];
            assert((vector_ids + fts_ids).contains(target));
            let i = choose|i: int| 0 <= i < merged.len() && merged[i].0 == target;
            if i < k1 {
                assert(merged[i].0 == vector_ids[i]);
            } else if i == k1 {
                assert(vector_ids[a] == vector_ids[k1]);
            } else {
                assert(fused_before(vector_ids, fts_ids, merged[k1].0, merged[i].0));
                lemma_single_ranking_order(vector_ids, fts_ids, k1, a);
                lemma_fused_before_asymmetric(vector_ids, fts_ids, vector_ids[k1], vector_ids[a]);
            }
        }
        assert(a == k1);
    }
}
} // verus!

use bible_mcp::db::top_fused;
use bible_mcp::fusion::{rrf_merge, RrfScore};

fn ids(hits: &[(i64, f64)]) -> Vec<i64> {
    hits.iter().map(|h| h.0).collect()
}

fn limbs_value(limbs: &[u64]) -> u128 {
    let mut v: u128 = 0;
    for (i, l) in limbs.iter().enumerate() {
        if *l != 0 {
            assert!(i < 2, "value does not fit in u128");
            v += (*l as u128) << (64 * i);
        }
    }
    v
}

fn fraction(s: &RrfScore) -> (u128, u128) {
    (limbs_value(&s.numerator), limbs_value(&s.denominator))
}

fn same_value(a: (u128, u128), b: (u128, u128)) -> bool {
    a.0 * b.1 == b.0 * a.1
}

#[test]
fn rrf_merge_correct_order() {
    // id=20 gets highest score (ranks well in both lists)
    let vec_hits = vec![(10i64, 0.1), (20, 0.2), (30, 0.3)];
    let fts_hits = vec![(20i64, 0.9), (30, 0.8), (10, 0.7)];
    let merged = rrf_merge(&ids(&vec_hits), &ids(&fts_hits));
    assert_eq!(merged[0].0, 20);
    assert_eq!(merged[1].0, 10);
    assert_eq!(merged[2].0, 30);
}

#[test]
fn rrf_merge_single_list() {
    let vec_hits = vec![(1i64, 0.5), (2, 0.4)];
    let merged = rrf_merge(&ids(&vec_hits), &[]);
    assert_eq!(merged[0].0, 1);
    assert_eq!(merged[1].0, 2);
}

#[test]
fn rrf_merge_produces_correct_order() {
    let vec_hits = vec![(10i64, 0.1), (20, 0.2), (30, 0.3)];
    let fts_hits = vec![(20i64, 0.9), (30, 0.8), (10, 0.7)];
    let merged = rrf_merge(&ids(&vec_hits), &ids(&fts_hits));
    assert_eq!(merged[0].0, 20);
    assert_eq!(merged[1].0, 10);
    assert_eq!(merged[2].0, 30);
}

#[test]
fn rrf_scores_are_sums_of_reciprocal_ranks() {
    let merged = rrf_merge(&[10, 20, 30], &[20, 30, 10]);
    assert_eq!(merged.len(), 3);
    // 20: 1/61 + 1/60, 10: 1/60 + 1/62, 30: 1/62 + 1/61
    assert!(same_value(fraction(&merged[0].1), (121, 3660)));
    assert!(same_value(fraction(&merged[1].1), (122, 3720)));
    assert!(same_value(fraction(&merged[2].1), (123, 3782)));
}

#[test]
fn rrf_single_hit_scores_one_over_sixty() {
    let merged = rrf_merge(&[], &[7]);
    assert_eq!(merged.len(), 1);
    assert_eq!(merged[0].0, 7);
    assert!(same_value(fraction(&merged[0].1), (1, 60)));
}

#[test]
fn rrf_merge_of_nothing_is_empty() {
    assert!(rrf_merge(&[], &[]).is_empty());
}

#[test]
fn rrf_ties_keep_first_mention() {
    // 5 and 6 both score 1/60 + 1/61; 5 is named first.
    let merged = rrf_merge(&[5, 6], &[6, 5]);
    assert_eq!(merged[0].0, 5);
    assert_eq!(merged[1].0, 6);
    let merged = rrf_merge(&[6, 5], &[5, 6]);
    assert_eq!(merged[0].0, 6);
    assert_eq!(merged[1].0, 5);
}

#[test]
fn rrf_repeated_id_adds_each_rank() {
    // 1 stands at ranks 0 and 2 of the first list: 1/60 + 1/62.
    let merged = rrf_merge(&[1, 2, 1], &[]);
    assert_eq!(merged.len(), 2);
    assert_eq!(merged[0].0, 1);
    assert!(same_value(fraction(&merged[0].1), (122, 3720)));
    assert_eq!(merged[1].0, 2);
}

#[test]
fn rrf_both_lists_beat_one() {
    // an id in both rankings outranks ids that only one ranking names
    let merged = rrf_merge(&[1, 2, 3], &[4, 5, 3]);
    assert_eq!(merged[0].0, 3);
    let order: Vec<i64> = merged.iter().map(|m| m.0).collect();
    assert_eq!(order, vec![3, 1, 4, 2, 5]);
}

#[test]
fn top_fused_keeps_the_best() {
    let top = top_fused(&[10, 20, 30], &[20, 30, 10], 2);
    let order: Vec<i64> = top.iter().map(|m| m.0).collect();
    assert_eq!(order, vec![20, 10]);
    let all = top_fused(&[10, 20, 30], &[20, 30, 10], 10);
    assert_eq!(all.len(), 3);
    assert!(top_fused(&[1], &[2], 0).is_empty());
}

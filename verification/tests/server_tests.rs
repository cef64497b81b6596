use bible_mcp::db::{id_placeholders, order_by_ids, Verse};
use bible_mcp::server::{
    clamp_limit, default_limit, not_found_message, pick_vector_ids, remaining_slots,
    scored_results, similar_results, verse_results, VerseResult,
};

fn verse(id: i64, book: &str, book_num: u32, chapter: u32, verse: u32, text: &str) -> Verse {
    Verse {
        id,
        book: book.to_string(),
        book_num,
        chapter,
        verse,
        text: text.to_string(),
    }
}

fn seed() -> Vec<Verse> {
    vec![
        verse(1, "John", 43, 3, 16, "For God so loved the world"),
        verse(2, "Romans", 45, 8, 28, "All things work together for good"),
        verse(3, "John", 43, 3, 17, "For God sent his Son into the world"),
    ]
}

#[test]
fn limits_are_clamped() {
    assert_eq!(default_limit(), 5);
    assert_eq!(clamp_limit(0), 1);
    assert_eq!(clamp_limit(1), 1);
    assert_eq!(clamp_limit(5), 5);
    assert_eq!(clamp_limit(50), 50);
    assert_eq!(clamp_limit(51), 50);
    assert_eq!(clamp_limit(u32::MAX), 50);
}

#[test]
fn verse_result_reference() {
    let r = VerseResult::from_verse(&seed()[0]);
    assert_eq!(r.reference, "John 3:16");
    assert_eq!(r.book, "John");
    assert_eq!(r.chapter, 3);
    assert_eq!(r.verse, 16);
    assert_eq!(r.text, "For God so loved the world");
    let big = verse(9, "Psalms", 19, 119, 176, "x");
    assert_eq!(VerseResult::from_verse(&big).reference, "Psalms 119:176");
    let zero = verse(9, "Jude", 65, 0, 0, "x");
    assert_eq!(VerseResult::from_verse(&zero).reference, "Jude 0:0");
}

#[test]
fn missing_reference_message() {
    assert_eq!(not_found_message("John", 9, 99), "John 9:99 not found.");
    assert_eq!(
        not_found_message("1 Kings", 4294967295, 10),
        "1 Kings 4294967295:10 not found."
    );
}

#[test]
fn passage_results_keep_order() {
    let rows = seed();
    let results = verse_results(&rows[0..1]);
    assert_eq!(results.len(), 1);
    assert_eq!(results[0].reference, "John 3:16");
    let results = verse_results(&[rows[0].clone_for_test(), rows[2].clone_for_test()]);
    assert_eq!(results[1].reference, "John 3:17");
}

trait CloneForTest {
    fn clone_for_test(&self) -> Verse;
}

impl CloneForTest for Verse {
    fn clone_for_test(&self) -> Verse {
        verse(self.id, &self.book, self.book_num, self.chapter, self.verse, &self.text)
    }
}

#[test]
fn search_results_point_at_scores() {
    let rows = seed();
    let results = scored_results(&rows, &[3, 1, 2, 1]);
    assert_eq!(results[0].1, Some(3));
    assert_eq!(results[1].1, Some(2));
    assert_eq!(results[2].1, Some(0));
    let none = scored_results(&rows[0..1], &[7]);
    assert_eq!(none[0].1, None);
}

#[test]
fn similar_slots_and_picks() {
    assert_eq!(remaining_slots(5, 2), 3);
    assert_eq!(remaining_slots(2, 5), 0);
    // source 1, cross-reference 2; vector hits in order 1, 3, 2, 4
    assert_eq!(pick_vector_ids(&[1, 3, 2, 4], &[2], 1, 1), vec![3]);
    assert_eq!(pick_vector_ids(&[1, 3, 2, 4], &[2], 1, 5), vec![3, 4]);
    assert_eq!(pick_vector_ids(&[1, 3, 2, 4], &[2], 1, 0), Vec::<i64>::new());
}

#[test]
fn similar_results_put_cross_references_first() {
    let rows = seed();
    // cross-reference 2 (weight at position 0), vector hit 3, and an id with no row
    let results = similar_results(&[2, 99], &[3], &rows);
    assert_eq!(results.len(), 2);
    assert_eq!(results[0].0.reference, "Romans 8:28");
    assert_eq!(results[0].1, Some(0));
    assert_eq!(results[1].0.reference, "John 3:17");
    assert_eq!(results[1].1, None);
}

#[test]
fn placeholders_for_ids() {
    assert_eq!(id_placeholders(0), "");
    assert_eq!(id_placeholders(1), "?");
    assert_eq!(id_placeholders(3), "?,?,?");
}

#[test]
fn rows_follow_requested_ids() {
    let rows = order_by_ids(seed(), &[3, 1, 2]);
    let order: Vec<i64> = rows.iter().map(|v| v.id).collect();
    assert_eq!(order, vec![3, 1, 2]);
    // rows whose id is not requested come last, in their order
    let rows = order_by_ids(seed(), &[2]);
    let order: Vec<i64> = rows.iter().map(|v| v.id).collect();
    assert_eq!(order, vec![2, 1, 3]);
    // a repeated id counts at its last position
    let rows = order_by_ids(seed(), &[1, 3, 1]);
    let order: Vec<i64> = rows.iter().map(|v| v.id).collect();
    assert_eq!(order, vec![3, 1, 2]);
}

use bible_mcp::db::Verse;
use bible_mcp::server::{GetPassageArgs, GetVerseArgs, SearchVersesArgs, SimilarVersesArgs};
use bible_mcp::tools::{
    advance, start_get_passage, start_get_verse, start_search, start_similar, Answer, Reply,
    Request, Step, ToolCall,
};

fn verse(id: i64, book: &str, book_num: u32, chapter: u32, verse: u32, text: &str) -> Verse {
    Verse {
        id,
        book: book.to_string(),
        book_num,
        chapter,
        verse,
        text: text.to_string(),
    }
}

// The rows of the small database the server is tried against.
fn john_3_16() -> Verse {
    verse(1, "John", 43, 3, 16, "For God so loved the world")
}

fn romans_8_28() -> Verse {
    verse(2, "Romans", 45, 8, 28, "All things work together for good")
}

fn john_3_17() -> Verse {
    verse(3, "John", 43, 3, 17, "For God sent his Son into the world")
}

fn limbs_value(limbs: &[u64]) -> u128 {
    let mut v: u128 = 0;
    for (i, l) in limbs.iter().enumerate() {
        if *l != 0 {
            assert!(i < 2, "value does not fit in u128");
            v += (*l as u128) << (64 * i);
        }
    }
    v
}

/// Hands `reply` to the call, checking first that it is accepted.
fn feed(call: ToolCall, reply: Reply) -> (ToolCall, Step) {
    assert!(call.accepts(&reply));
    advance(call, reply)
}

fn failure(step: Step) -> String {
    match step {
        Step::Finish(Answer::Failure(message)) => message,
        other => panic!("expected a failure, got {:?}", other),
    }
}

fn asked(step: Step) -> Request {
    match step {
        Step::Ask(request) => request,
        other => panic!("expected a request, got {:?}", other),
    }
}

fn search(query: &str, limit: u32, book: Option<&str>) -> (ToolCall, Step) {
    start_search(SearchVersesArgs {
        query: query.to_string(),
        limit,
        book: book.map(|b| b.to_string()),
    })
}

fn similar(book: &str, chapter: u32, verse: u32, limit: u32) -> (ToolCall, Step) {
    start_similar(SimilarVersesArgs {
        book: book.to_string(),
        chapter,
        verse,
        limit,
    })
}

#[test]
fn search_verses_returns_ranked_results() {
    let (call, step) = search("God", 2, None);
    match asked(step) {
        Request::EmbedQuery { text } => assert_eq!(text, "God"),
        other => panic!("unexpected request {:?}", other),
    }
    let (call, step) = feed(call, Reply::Embedded);
    match asked(step) {
        Request::RankedHits { text, fetch, within_book } => {
            assert_eq!(text, "God");
            assert_eq!(fetch, 4);
            assert_eq!(within_book, None);
        }
        other => panic!("unexpected request {:?}", other),
    }
    // nearest to (1,0,0,0): verses 1, 3, 2; full-text matches of "God": 1, 3
    let (call, step) = feed(
        call,
        Reply::RankedHits {
            vector_ids: vec![1, 3, 2],
            fts_ids: vec![1, 3],
        },
    );
    match asked(step) {
        Request::VersesWithIds { ids } => assert_eq!(ids, vec![1, 3]),
        other => panic!("unexpected request {:?}", other),
    }
    let (call, step) = feed(call, Reply::Verses(vec![john_3_16(), john_3_17()]));
    assert!(matches!(call, ToolCall::Done));
    match step {
        Step::Finish(Answer::Ranked(results)) => {
            assert_eq!(results.len(), 2);
            assert_eq!(results[0].0.reference, "John 3:16");
            // first in both rankings: 1/60 + 1/60 = 1/30
            let score = results[0].1.as_ref().expect("a score");
            assert_eq!(limbs_value(&score.numerator) * 30, limbs_value(&score.denominator));
            assert_eq!(results[1].0.reference, "John 3:17");
            assert!(results[1].1.is_some());
        }
        other => panic!("unexpected step {:?}", other),
    }
}

#[test]
fn search_verses_honors_book_filter() {
    let (call, step) = search("God", 5, Some("John"));
    assert!(matches!(step, Step::Ask(Request::EmbedQuery { .. })));
    let (call, step) = feed(call, Reply::Embedded);
    match asked(step) {
        Request::RankedHits { fetch, within_book, .. } => {
            assert_eq!(fetch, 10);
            assert_eq!(within_book, Some(43));
        }
        other => panic!("unexpected request {:?}", other),
    }
    let (call, step) = feed(
        call,
        Reply::RankedHits {
            vector_ids: vec![1, 3],
            fts_ids: vec![1, 3],
        },
    );
    match asked(step) {
        Request::VersesWithIds { ids } => assert_eq!(ids, vec![1, 3]),
        other => panic!("unexpected request {:?}", other),
    }
    let (_, step) = feed(call, Reply::Verses(vec![john_3_16(), john_3_17()]));
    match step {
        Step::Finish(Answer::Ranked(results)) => {
            assert_eq!(results.len(), 2);
            assert!(results.iter().all(|(r, _)| r.book == "John"));
        }
        other => panic!("unexpected step {:?}", other),
    }
}

#[test]
fn search_verses_returns_error_for_unknown_book_filter() {
    let (call, step) = search("God", 5, Some("Pizza"));
    assert!(matches!(call, ToolCall::Done));
    let error = failure(step);
    assert!(error.contains("Unknown book"));
    assert_eq!(error, "Unknown book: 'Pizza'. Try a standard Bible book name.");
}

#[test]
fn search_limit_is_clamped_before_fetching() {
    let (call, _) = search("God", 0, None);
    let (_, step) = feed(call, Reply::Embedded);
    assert!(matches!(step, Step::Ask(Request::RankedHits { fetch: 2, .. })));
    let (call, _) = search("God", 500, None);
    let (_, step) = feed(call, Reply::Embedded);
    assert!(matches!(step, Step::Ask(Request::RankedHits { fetch: 100, .. })));
}

#[test]
fn similar_verses_prefers_cross_reference_hits() {
    let (call, step) = similar("John", 3, 16, 2);
    match asked(step) {
        Request::VerseAt { book_num, chapter, verse } => {
            assert_eq!((book_num, chapter, verse), (43, 3, 16));
        }
        other => panic!("unexpected request {:?}", other),
    }
    let (call, step) = feed(call, Reply::Verse(Some(john_3_16())));
    match asked(step) {
        Request::CrossRefs { verse_id, limit } => assert_eq!((verse_id, limit), (1, 2)),
        other => panic!("unexpected request {:?}", other),
    }
    // one cross-reference (to Romans 8:28, weight 0.95) leaves one slot
    let (call, step) = feed(call, Reply::CrossRefs(vec![2]));
    match asked(step) {
        Request::VerseEmbedding { verse_id } => assert_eq!(verse_id, 1),
        other => panic!("unexpected request {:?}", other),
    }
    let (call, step) = feed(call, Reply::EmbeddingFound(true));
    match asked(step) {
        Request::NearestVerses { limit } => assert_eq!(limit, 3),
        other => panic!("unexpected request {:?}", other),
    }
    let (call, step) = feed(call, Reply::Nearest(vec![1, 3, 2]));
    match asked(step) {
        Request::VersesWithIds { ids } => assert_eq!(ids, vec![2, 3]),
        other => panic!("unexpected request {:?}", other),
    }
    let (call, step) = feed(call, Reply::Verses(vec![romans_8_28(), john_3_17()]));
    assert!(matches!(call, ToolCall::Done));
    match step {
        Step::Finish(Answer::Related(results)) => {
            assert_eq!(results.len(), 2);
            assert_eq!(results[0].0.reference, "Romans 8:28");
            assert_eq!(results[0].1, Some(0));
            assert_eq!(results[1].0.reference, "John 3:17");
            assert_eq!(results[1].1, None);
        }
        other => panic!("unexpected step {:?}", other),
    }
}

#[test]
fn similar_verses_skips_vectors_when_cross_references_fill_the_limit() {
    let (call, _) = similar("John", 3, 16, 1);
    let (call, _) = feed(call, Reply::Verse(Some(john_3_16())));
    let (call, step) = feed(call, Reply::CrossRefs(vec![2]));
    match asked(step) {
        Request::VersesWithIds { ids } => assert_eq!(ids, vec![2]),
        other => panic!("unexpected request {:?}", other),
    }
    let (_, step) = feed(call, Reply::Verses(vec![romans_8_28()]));
    match step {
        Step::Finish(Answer::Related(results)) => {
            assert_eq!(results.len(), 1);
            assert_eq!(results[0].1, Some(0));
        }
        other => panic!("unexpected step {:?}", other),
    }
}

#[test]
fn similar_verses_without_embedding_keeps_cross_references() {
    let (call, _) = similar("John", 3, 16, 5);
    let (call, _) = feed(call, Reply::Verse(Some(john_3_16())));
    let (call, _) = feed(call, Reply::CrossRefs(vec![2]));
    let (call, step) = feed(call, Reply::EmbeddingFound(false));
    match asked(step) {
        Request::VersesWithIds { ids } => assert_eq!(ids, vec![2]),
        other => panic!("unexpected request {:?}", other),
    }
    let (_, step) = feed(call, Reply::Verses(vec![romans_8_28()]));
    assert!(matches!(step, Step::Finish(Answer::Related(ref r)) if r.len() == 1));
}

#[test]
fn similar_verses_returns_error_for_unknown_book() {
    let (call, step) = similar("Pizza", 3, 16, 5);
    assert!(matches!(call, ToolCall::Done));
    assert!(failure(step).contains("Unknown book"));
}

#[test]
fn similar_verses_returns_error_for_missing_source_verse() {
    let (call, step) = similar("John", 9, 99, 5);
    assert!(matches!(
        step,
        Step::Ask(Request::VerseAt { book_num: 43, chapter: 9, verse: 99 })
    ));
    let (call, step) = feed(call, Reply::Verse(None));
    assert!(matches!(call, ToolCall::Done));
    assert_eq!(failure(step), "John 9:99 not found.");
}

#[test]
fn get_verse_returns_expected_json_shape() {
    let (call, step) = start_get_verse(GetVerseArgs {
        book: "John".to_string(),
        chapter: 3,
        verse: 16,
    });
    assert!(matches!(
        step,
        Step::Ask(Request::VerseAt { book_num: 43, chapter: 3, verse: 16 })
    ));
    let (_, step) = feed(call, Reply::Verse(Some(john_3_16())));
    match step {
        Step::Finish(Answer::Verse(r)) => {
            assert_eq!(r.reference, "John 3:16");
            assert_eq!(r.book, "John");
            assert_eq!(r.chapter, 3);
            assert_eq!(r.verse, 16);
            assert_eq!(r.text, "For God so loved the world");
        }
        other => panic!("unexpected step {:?}", other),
    }
}

#[test]
fn get_verse_returns_error_for_unknown_book() {
    let (call, step) = start_get_verse(GetVerseArgs {
        book: "Pizza".to_string(),
        chapter: 3,
        verse: 16,
    });
    assert!(matches!(call, ToolCall::Done));
    assert!(failure(step).contains("Unknown book"));
}

#[test]
fn get_verse_returns_error_for_missing_reference() {
    let (call, _) = start_get_verse(GetVerseArgs {
        book: "John".to_string(),
        chapter: 9,
        verse: 99,
    });
    let (_, step) = feed(call, Reply::Verse(None));
    assert_eq!(failure(step), "John 9:99 not found.");
}

#[test]
fn get_passage_returns_contiguous_verses() {
    let (call, step) = start_get_passage(GetPassageArgs {
        book: "John".to_string(),
        chapter: 3,
        from_verse: 16,
        to_verse: 17,
    });
    assert!(matches!(
        step,
        Step::Ask(Request::Passage { book_num: 43, chapter: 3, from_verse: 16, to_verse: 17 })
    ));
    let (call, step) = feed(call, Reply::Verses(vec![john_3_16(), john_3_17()]));
    assert!(matches!(call, ToolCall::Done));
    match step {
        Step::Finish(Answer::Verses(results)) => {
            assert_eq!(results.len(), 2);
            assert_eq!(results[0].reference, "John 3:16");
            assert_eq!(results[1].reference, "John 3:17");
        }
        other => panic!("unexpected step {:?}", other),
    }
}

#[test]
fn get_passage_returns_error_for_unknown_book() {
    let (call, step) = start_get_passage(GetPassageArgs {
        book: "Pizza".to_string(),
        chapter: 3,
        from_verse: 16,
        to_verse: 17,
    });
    assert!(matches!(call, ToolCall::Done));
    assert!(failure(step).contains("Unknown book"));
}

#[test]
fn replies_out_of_turn_are_refused() {
    let (call, _) = similar("John", 3, 16, 5);
    assert!(!call.accepts(&Reply::Embedded));
    assert!(call.accepts(&Reply::Verse(None)));
    assert!(!ToolCall::Done.accepts(&Reply::Verses(Vec::new())));
    let bad = ToolCall::SearchHits { limit: 0 };
    assert!(!bad.accepts(&Reply::RankedHits {
        vector_ids: Vec::new(),
        fts_ids: Vec::new(),
    }));
}

#[test]
fn search_answer_follows_fused_order_whatever_the_row_order() {
    let (call, _) = search("God", 5, None);
    let (call, _) = feed(call, Reply::Embedded);
    let (call, step) = feed(
        call,
        Reply::RankedHits {
            vector_ids: vec![3, 1],
            fts_ids: vec![3, 2],
        },
    );
    match asked(step) {
        Request::VersesWithIds { ids } => assert_eq!(ids, vec![3, 1, 2]),
        other => panic!("unexpected request {:?}", other),
    }
    // the host hands the rows back in another order, and one id has no row
    let (_, step) = feed(call, Reply::Verses(vec![romans_8_28(), john_3_17()]));
    match step {
        Step::Finish(Answer::Ranked(results)) => {
            let refs: Vec<&str> = results.iter().map(|(r, _)| r.reference.as_str()).collect();
            assert_eq!(refs, vec!["John 3:17", "Romans 8:28"]);
        }
        other => panic!("unexpected step {:?}", other),
    }
}

//! The four MCP tools as step machines. A tool call starts from its
//! arguments; at each step it either asks the host for something (a query
//! embedding, database rows) or finishes with its answer. The host performs
//! each request and hands back what it found; the machine decides what to
//! ask next and what to answer.
use vstd::prelude::*;

use crate::books::{book_filter, canonical_name, resolution, resolve_book};
use crate::db::{
    fetch_count, fused_top, hit_ids, ids_with_rows, lemma_order_follows_ids, order_by_ids,
    rows_by_rank, top_fused, verse_ids, Verse,
};
use crate::fusion::{fused_before, rrf_score};
use crate::fusion::RrfScore;
use crate::server::{
    as_position, clamp_limit, clamped, first_n, last_index, laid_out, lemma_last_index_bound,
    lemma_unseen_members,
    not_found_message, pick_vector_ids, reference, remaining_slots, scored_results,
    similar_layout, similar_results, unseen_hits, verse_results,
    GetPassageArgs, GetVerseArgs, SearchVersesArgs, SimilarVersesArgs, VerseResult,
};

verus! {

/// What a tool call asks the host for.
#[derive(Debug)]
pub enum Request {
    /// Embed `text` with the query model; the host keeps the embedding.
    EmbedQuery { text: String },
    /// The ids of the `fetch` verses nearest to the query embedding and of
    /// the `fetch` best full-text matches of `text`, each best first, within
    /// the book numbered `within_book` when one is given.
    RankedHits { text: String, fetch: usize, within_book: Option<u32> },
    /// The verse at a reference.
    VerseAt { book_num: u32, chapter: u32, verse: u32 },
    /// The verses of a chapter from `from_verse` to `to_verse`, in verse order.
    Passage { book_num: u32, chapter: u32, from_verse: u32, to_verse: u32 },
    /// At most `limit` cross-references of the verse `verse_id`, heaviest
    /// first; the host keeps their weights.
    CrossRefs { verse_id: i64, limit: usize },
    /// The stored embedding of the verse `verse_id`, if there is one; the
    /// host keeps it.
    VerseEmbedding { verse_id: i64 },
    /// The ids of the `limit` verses nearest to the embedding just fetched,
    /// nearest first.
    NearestVerses { limit: usize },
    /// The verses with the ids `ids`.
    VersesWithIds { ids: Vec<i64> },
}

/// What the host found for a request.
#[derive(Debug)]
pub enum Reply {
    /// The query is embedded.
    Embedded,
    /// The two rankings of a search.
    RankedHits { vector_ids: Vec<i64>, fts_ids: Vec<i64> },
    /// The verse at a reference, if there is one.
    Verse(Option<Verse>),
    /// The verses of a passage or of a list of ids.
    Verses(Vec<Verse>),
    /// The ids of the cross-references, in the order of their weights.
    CrossRefs(Vec<i64>),
    /// Whether the verse has a stored embedding.
    EmbeddingFound(bool),
    /// The ids of the nearest verses.
    Nearest(Vec<i64>),
}

/// How a tool call ends.
#[derive(Debug)]
pub enum Answer {
    /// An error, shown to the caller as `{"error": message}`.
    Failure(String),
    /// One verse (`get_verse`).
    Verse(VerseResult),
    /// Verses without scores (`get_passage`).
    Verses(Vec<VerseResult>),
    /// Search results, each with its fused score when it has one
    /// (`search_verses`).
    Ranked(Vec<(VerseResult, Option<RrfScore>)>),
    /// Related verses, each cross-reference with the position of its weight
    /// among the cross-references fetched (`similar_verses`).
    Related(Vec<(VerseResult, Option<usize>)>),
}

/// One step of a tool call.
#[derive(Debug)]
pub enum Step {
    /// Perform this request and hand back its reply.
    Ask(Request),
    /// The call is over.
    Finish(Answer),
}

/// Where a tool call stands: what it waits for and what it keeps.
#[derive(Debug)]
pub enum ToolCall {
    /// `search_verses` waits for the query's embedding.
    SearchEmbedding { query: String, limit: usize, book_num: Option<u32> },
    /// `search_verses` waits for the two rankings.
    SearchHits { limit: usize },
    /// `search_verses` waits for the rows of its fused hits.
    SearchRows { hits: Vec<(i64, RrfScore)> },
    /// `similar_verses` waits for the source verse.
    SimilarSource { book: &'static str, chapter: u32, verse: u32, limit: usize },
    /// `similar_verses` waits for the cross-references of the source.
    SimilarCrossRefs { source_id: i64, limit: usize },
    /// `similar_verses` waits to learn whether the source has an embedding.
    SimilarEmbedding { source_id: i64, limit: usize, xref_ids: Vec<i64> },
    /// `similar_verses` waits for the verses nearest to the source.
    SimilarNearest { source_id: i64, limit: usize, xref_ids: Vec<i64> },
    /// `similar_verses` waits for the rows of its results.
    SimilarRows { xref_ids: Vec<i64>, vector_ids: Vec<i64> },
    /// `get_verse` waits for the verse.
    VerseLookup { book: &'static str, chapter: u32, verse: u32 },
    /// `get_passage` waits for the verses.
    PassageLookup,
    /// The call is over.
    Done,
}

/// A limit as the tools use it: 1 to 50.
pub open spec fn valid_limit(limit: usize) -> bool {
    1 <= limit <= 50
}

/// The message for an unknown book name.
pub open spec fn unknown_book_message(input: Seq<char>) -> Seq<char> {
    "Unknown book: '"@ + input + "'. Try a standard Bible book name."@
}

/// The message for a reference that names no verse.
pub open spec fn missing_verse_message(book: &'static str, chapter: u32, verse: u32) -> Seq<char> {
    reference(book@, chapter, verse) + " not found."@
}

impl ToolCall {
    /// The state is one the machine can be in: its limits are valid, and
    /// the cross-references kept while vector hits are still to come leave
    /// a slot for them.
    pub open spec fn wf(self) -> bool {
        match self {
            ToolCall::SearchEmbedding { limit, .. } => valid_limit(limit),
            ToolCall::SearchHits { limit } => valid_limit(limit),
            ToolCall::SimilarSource { limit, .. } => valid_limit(limit),
            ToolCall::SimilarCrossRefs { limit, .. } => valid_limit(limit),
            ToolCall::SimilarEmbedding { limit, xref_ids, .. } => valid_limit(limit)
                && xref_ids.len() < limit,
            ToolCall::SimilarNearest { limit, xref_ids, .. } => valid_limit(limit) && xref_ids.len()
                < limit,
            _ => true,
        }
    }

    /// The reply is of the kind this state waits for.
    pub open spec fn awaits(self, reply: Reply) -> bool {
        match self {
            ToolCall::SearchEmbedding { .. } => reply is Embedded,
            ToolCall::SearchHits { .. } => reply is RankedHits,
            ToolCall::SearchRows { .. } => reply is Verses,
            ToolCall::SimilarSource { .. } => reply is Verse,
            ToolCall::SimilarCrossRefs { .. } => reply is CrossRefs,
            ToolCall::SimilarEmbedding { .. } => reply is EmbeddingFound,
            ToolCall::SimilarNearest { .. } => reply is Nearest,
            ToolCall::SimilarRows { .. } => reply is Verses,
            ToolCall::VerseLookup { .. } => reply is Verse,
            ToolCall::PassageLookup => reply is Verses,
            ToolCall::Done => false,
        }
    }

    /// The most replies the call still needs before it is over.
    pub open spec fn stage(self) -> nat {
        match self {
            ToolCall::SearchEmbedding { .. } => 3,
            ToolCall::SearchHits { .. } => 2,
            ToolCall::SearchRows { .. } => 1,
            ToolCall::SimilarSource { .. } => 5,
            ToolCall::SimilarCrossRefs { .. } => 4,
            ToolCall::SimilarEmbedding { .. } => 3,
            ToolCall::SimilarNearest { .. } => 2,
            ToolCall::SimilarRows { .. } => 1,
            ToolCall::VerseLookup { .. } => 1,
            ToolCall::PassageLookup => 1,
            ToolCall::Done => 0,
        }
    }

    /// Whether `reply` can be handed to this call now (see `advance`).
    pub fn accepts(&self, reply: &Reply) -> (r: bool)
        ensures
            r == (self.wf() && self.awaits(*reply)),
    {
        let limit_ok = match self {
            ToolCall::SearchEmbedding { limit, .. } => 1 <= *limit && *limit <= 50,
            ToolCall::SearchHits { limit } => 1 <= *limit && *limit <= 50,
            ToolCall::SimilarSource { limit, .. } => 1 <= *limit && *limit <= 50,
            ToolCall::SimilarCrossRefs { limit, .. } => 1 <= *limit && *limit <= 50,
            ToolCall::SimilarEmbedding { limit, xref_ids, .. } => 1 <= *limit && *limit <= 50
                && xref_ids.len() < *limit,
            ToolCall::SimilarNearest { limit, xref_ids, .. } => 1 <= *limit && *limit <= 50
                && xref_ids.len() < *limit,
            _ => true,
        };
        let kind_ok = match (self, reply) {
            (ToolCall::SearchEmbedding { .. }, Reply::Embedded) => true,
            (ToolCall::SearchHits { .. }, Reply::RankedHits { .. }) => true,
            (ToolCall::SearchRows { .. }, Reply::Verses(_)) => true,
            (ToolCall::SimilarSource { .. }, Reply::Verse(_)) => true,
            (ToolCall::SimilarCrossRefs { .. }, Reply::CrossRefs(_)) => true,
            (ToolCall::SimilarEmbedding { .. }, Reply::EmbeddingFound(_)) => true,
            (ToolCall::SimilarNearest { .. }, Reply::Nearest(_)) => true,
            (ToolCall::SimilarRows { .. }, Reply::Verses(_)) => true,
            (ToolCall::VerseLookup { .. }, Reply::Verse(_)) => true,
            (ToolCall::PassageLookup, Reply::Verses(_)) => true,
            _ => false,
        };
        limit_ok && kind_ok
    }
}

/// The step is a request for exactly these ids.
pub open spec fn asks_for_ids(step: Step, ids: Seq<i64>) -> bool {
    step matches Step::Ask(Request::VersesWithIds { ids: asked }) && asked@ == ids
}

/// `results` are the search results for the rows `rows` of the fused hits
/// `hits`: one per row, in the order of the rows, each showing its row with
/// the score of the (last) hit with the row's id, or no score when no hit
/// has it.
pub open spec fn ranked_answer(
    results: Seq<(VerseResult, Option<RrfScore>)>,
    rows: Seq<Verse>,
    hits: Seq<(i64, RrfScore)>,
) -> bool {
    &&& results.len() == rows.len()
    &&& forall|i: int|
        0 <= i < rows.len() ==> #[trigger] results[i].0.shows(rows[i]) && match last_index(
            hit_ids(hits),
            rows[i].id,
        ) {
            Some(k) => results[i].1 matches Some(s) && s.fraction() == hits[k].1.fraction(),
            None => results[i].1 is None,
        }
}

/// The rows fetched for the hits `hits`, put in the order of the hits (see
/// `order_by_ids`).
pub open spec fn in_hit_order(rows: Seq<Verse>, hits: Seq<(i64, RrfScore)>) -> Seq<Verse> {
    rows_by_rank(rows, hit_ids(hits), (hits.len() + 1) as nat)
}

/// What `advance` does: from the state `call`, on `reply`, the call moves
/// to `next` and takes the step `step`.
pub open spec fn advanced(call: ToolCall, reply: Reply, next: ToolCall, step: Step) -> bool {
    match call {
        ToolCall::SearchEmbedding { query, limit, book_num } => {
            &&& next == ToolCall::SearchHits { limit }
            &&& step matches Step::Ask(Request::RankedHits { text, fetch, within_book: b })
            &&& text@ == query@
            &&& fetch == 2 * limit
            &&& b == book_num
        },
        ToolCall::SearchHits { limit } => match reply {
            Reply::RankedHits { vector_ids, fts_ids } => {
                &&& next matches ToolCall::SearchRows { hits }
                &&& fused_top(vector_ids@, fts_ids@, limit as nat, hits@)
                &&& asks_for_ids(step, hit_ids(hits@))
            },
            _ => false,
        },
        ToolCall::SearchRows { hits } => match reply {
            Reply::Verses(rows) => {
                &&& next is Done
                &&& step matches Step::Finish(Answer::Ranked(results))
                &&& ranked_answer(results@, in_hit_order(rows@, hits@), hits@)
            },
            _ => false,
        },
        ToolCall::SimilarSource { book, chapter, verse, limit } => match reply {
            Reply::Verse(None) => {
                &&& next is Done
                &&& step matches Step::Finish(Answer::Failure(m))
                &&& m@ == missing_verse_message(book, chapter, verse)
            },
            Reply::Verse(Some(v)) => {
                &&& next == ToolCall::SimilarCrossRefs { source_id: v.id, limit }
                &&& step == Step::Ask(Request::CrossRefs { verse_id: v.id, limit })
            },
            _ => false,
        },
        ToolCall::SimilarCrossRefs { source_id, limit } => match reply {
            Reply::CrossRefs(xrefs) => if xrefs.len() < limit {
                &&& next matches ToolCall::SimilarEmbedding { source_id: s, limit: l, xref_ids }
                &&& s == source_id
                &&& l == limit
                &&& xref_ids@ == xrefs@
                &&& step == Step::Ask(Request::VerseEmbedding { verse_id: source_id })
            } else {
                &&& next matches ToolCall::SimilarRows { xref_ids, vector_ids }
                &&& xref_ids@ == xrefs@
                &&& vector_ids@ == Seq::<i64>::empty()
                &&& asks_for_ids(step, xrefs@)
            },
            _ => false,
        },
        ToolCall::SimilarEmbedding { source_id, limit, xref_ids } => match reply {
            Reply::EmbeddingFound(true) => {
                &&& next matches ToolCall::SimilarNearest { source_id: s, limit: l, xref_ids: x }
                &&& s == source_id
                &&& l == limit
                &&& x@ == xref_ids@
                &&& step == Step::Ask(Request::NearestVerses { limit: (limit + 1) as usize })
            },
            Reply::EmbeddingFound(false) => {
                &&& next matches ToolCall::SimilarRows { xref_ids: x, vector_ids }
                &&& x@ == xref_ids@
                &&& vector_ids@ == Seq::<i64>::empty()
                &&& asks_for_ids(step, xref_ids@)
            },
            _ => false,
        },
        ToolCall::SimilarNearest { source_id, limit, xref_ids } => match reply {
            Reply::Nearest(hits) => {
                let picked = first_n(
                    unseen_hits(hits@, xref_ids@, source_id, hits@.len()),
                    (limit - xref_ids@.len()) as nat,
                );
                &&& next matches ToolCall::SimilarRows { xref_ids: x, vector_ids }
                &&& x@ == xref_ids@
                &&& vector_ids@ == picked
                &&& asks_for_ids(step, xref_ids@ + picked)
            },
            _ => false,
        },
        ToolCall::SimilarRows { xref_ids, vector_ids } => match reply {
            Reply::Verses(rows) => {
                &&& next is Done
                &&& step matches Step::Finish(Answer::Related(results))
                &&& laid_out(results@, similar_layout(xref_ids@, vector_ids@, rows@), rows@)
            },
            _ => false,
        },
        ToolCall::VerseLookup { book, chapter, verse } => match reply {
            Reply::Verse(None) => {
                &&& next is Done
                &&& step matches Step::Finish(Answer::Failure(m))
                &&& m@ == missing_verse_message(book, chapter, verse)
            },
            Reply::Verse(Some(v)) => {
                &&& next is Done
                &&& step matches Step::Finish(Answer::Verse(r))
                &&& r.shows(v)
            },
            _ => false,
        },
        ToolCall::PassageLookup => match reply {
            Reply::Verses(rows) => {
                &&& next is Done
                &&& step matches Step::Finish(Answer::Verses(results))
                &&& results.len() == rows.len()
                &&& forall|i: int| 0 <= i < rows.len() ==> #[trigger] results@[i].shows(rows@[i])
            },
            _ => false,
        },
        ToolCall::Done => false,
    }
}

/// The step of a tool call that ends because a book name is unknown.
pub open spec fn fails_unknown_book(next: ToolCall, step: Step, input: Seq<char>) -> bool {
    &&& next is Done
    &&& step matches Step::Finish(Answer::Failure(m))
    &&& m@ == unknown_book_message(input)
}

/// Hands `reply` to the call in state `call`: the call moves on and says
/// what to do next (see `advanced`). Every step brings the call closer to
/// its end, and the call is over exactly when it finishes.
pub fn advance(call: ToolCall, reply: Reply) -> (out: (ToolCall, Step))
    requires
        call.wf(),
        call.awaits(reply),
    ensures
        advanced(call, reply, out.0, out.1),
        out.0.wf(),
        out.0.stage() < call.stage(),
        (out.1 is Finish) == (out.0 is Done),
{
    match call {
        ToolCall::SearchEmbedding { query, limit, book_num } => {
            let fetch = fetch_count(limit);
            (
                ToolCall::SearchHits { limit },
                Step::Ask(Request::RankedHits { text: query, fetch, within_book: book_num }),
            )
        },
        ToolCall::SearchHits { limit } => match reply {
            Reply::RankedHits { vector_ids, fts_ids } => {
                let hits = top_fused(vector_ids.as_slice(), fts_ids.as_slice(), limit);
                let ids = ids_of_hits(&hits);
                (ToolCall::SearchRows { hits }, Step::Ask(Request::VersesWithIds { ids }))
            },
            _ => {
                proof {
                    assert(false);
                }
                (ToolCall::Done, Step::Finish(Answer::Verses(Vec::new())))
            },
        },
        ToolCall::SearchRows { hits } => match reply {
            Reply::Verses(rows) => {
                let ids = ids_of_hits(&hits);
                let ordered = order_by_ids(rows, ids.as_slice());
                let results = ranked_results(ordered.as_slice(), &hits);
                (ToolCall::Done, Step::Finish(Answer::Ranked(results)))
            },
            _ => {
                proof {
                    assert(false);
                }
                (ToolCall::Done, Step::Finish(Answer::Verses(Vec::new())))
            },
        },
        ToolCall::SimilarSource { book, chapter, verse, limit } => match reply {
            Reply::Verse(None) => (
                ToolCall::Done,
                Step::Finish(Answer::Failure(not_found_message(book, chapter, verse))),
            ),
            Reply::Verse(Some(v)) => (
                ToolCall::SimilarCrossRefs { source_id: v.id, limit },
                Step::Ask(Request::CrossRefs { verse_id: v.id, limit }),
            ),
            _ => {
                proof {
                    assert(false);
                }
                (ToolCall::Done, Step::Finish(Answer::Verses(Vec::new())))
            },
        },
        ToolCall::SimilarCrossRefs { source_id, limit } => match reply {
            Reply::CrossRefs(xrefs) => {
                if remaining_slots(limit, xrefs.len()) > 0 {
                    (
                        ToolCall::SimilarEmbedding { source_id, limit, xref_ids: xrefs },
                        Step::Ask(Request::VerseEmbedding { verse_id: source_id }),
                    )
                } else {
                    let ids = copy_ids(&xrefs);
                    (
                        ToolCall::SimilarRows { xref_ids: xrefs, vector_ids: Vec::new() },
                        Step::Ask(Request::VersesWithIds { ids }),
                    )
                }
            },
            _ => {
                proof {
                    assert(false);
                }
                (ToolCall::Done, Step::Finish(Answer::Verses(Vec::new())))
            },
        },
        ToolCall::SimilarEmbedding { source_id, limit, xref_ids } => match reply {
            Reply::EmbeddingFound(found) => {
                if found {
                    (
                        ToolCall::SimilarNearest { source_id, limit, xref_ids },
                        Step::Ask(Request::NearestVerses { limit: limit + 1 }),
                    )
                } else {
                    let ids = copy_ids(&xref_ids);
                    (
                        ToolCall::SimilarRows { xref_ids, vector_ids: Vec::new() },
                        Step::Ask(Request::VersesWithIds { ids }),
                    )
                }
            },
            _ => {
                proof {
                    assert(false);
                }
                (ToolCall::Done, Step::Finish(Answer::Verses(Vec::new())))
            },
        },
        ToolCall::SimilarNearest { source_id, limit, xref_ids } => match reply {
            Reply::Nearest(hits) => {
                let remaining = remaining_slots(limit, xref_ids.len());
                let vector_ids = pick_vector_ids(
                    hits.as_slice(),
                    xref_ids.as_slice(),
                    source_id,
                    remaining,
                );
                let mut ids = copy_ids(&xref_ids);
                let mut more = copy_ids(&vector_ids);
                ids.append(&mut more);
                (ToolCall::SimilarRows { xref_ids, vector_ids }, Step::Ask(Request::VersesWithIds { ids }))
            },
            _ => {
                proof {
                    assert(false);
                }
                (ToolCall::Done, Step::Finish(Answer::Verses(Vec::new())))
            },
        },
        ToolCall::SimilarRows { xref_ids, vector_ids } => match reply {
            Reply::Verses(rows) => {
                let results = similar_results(
                    xref_ids.as_slice(),
                    vector_ids.as_slice(),
                    rows.as_slice(),
                );
                (ToolCall::Done, Step::Finish(Answer::Related(results)))
            },
            _ => {
                proof {
                    assert(false);
                }
                (ToolCall::Done, Step::Finish(Answer::Verses(Vec::new())))
            },
        },
        ToolCall::VerseLookup { book, chapter, verse } => match reply {
            Reply::Verse(None) => (
                ToolCall::Done,
                Step::Finish(Answer::Failure(not_found_message(book, chapter, verse))),
            ),
            Reply::Verse(Some(v)) => (
                ToolCall::Done,
                Step::Finish(Answer::Verse(VerseResult::from_verse(&v))),
            ),
            _ => {
                proof {
                    assert(false);
                }
                (ToolCall::Done, Step::Finish(Answer::Verses(Vec::new())))
            },
        },
        ToolCall::PassageLookup => match reply {
            Reply::Verses(rows) => (
                ToolCall::Done,
                Step::Finish(Answer::Verses(verse_results(rows.as_slice()))),
            ),
            _ => {
                proof {
                    assert(false);
                }
                (ToolCall::Done, Step::Finish(Answer::Verses(Vec::new())))
            },
        },
        ToolCall::Done => {
            proof {
                assert(false);
            }
            (ToolCall::Done, Step::Finish(Answer::Verses(Vec::new())))
        },
    }
}

/// A copy of `ids`.
fn copy_ids(ids: &Vec<i64>) -> (r: Vec<i64>)
    ensures
        r@ == ids@,
{
    let r = ids.clone();
    proof {
        assert(r@ =~= ids@);
    }
    r
}

/// The ids of `hits`, in order.
fn ids_of_hits(hits: &Vec<(i64, RrfScore)>) -> (r: Vec<i64>)
    ensures
        r@ == hit_ids(hits@),
{
    let mut r: Vec<i64> = Vec::new();
    let mut i: usize = 0;
    while i < hits.len()
        invariant
            i <= hits.len(),
            r@ == hit_ids(hits@).take(i as int),
        decreases hits.len() - i,
    {
        r.push(hits[i].0);
        proof {
            assert(hit_ids(hits@).take(i + 1) == hit_ids(hits@).take(i as int).push(hits@[i as int].0));
        }
        i = i + 1;
    }
    proof {
        assert(hit_ids(hits@).take(hits.len() as int) == hit_ids(hits@));
    }
    r
}

/// The search results for the rows `rows` of the fused hits `hits` (see
/// `ranked_answer`): `scored_results` places each row's score among the
/// hits, and the score is taken from there.
fn ranked_results(rows: &[Verse], hits: &Vec<(i64, RrfScore)>) -> (r: Vec<(VerseResult, Option<RrfScore>)>)
    ensures
        ranked_answer(r@, rows@, hits@),
{
    let ids = ids_of_hits(hits);
    let mut scored = scored_results(rows, ids.as_slice());
    let ghost orig = scored@;
    let n = scored.len();
    let mut r: Vec<(VerseResult, Option<RrfScore>)> = Vec::new();
    let mut i: usize = 0;
    while i < n
        invariant
            i <= n,
            n == rows.len(),
            n == orig.len(),
            ids@ == hit_ids(hits@),
            scored@ == orig.skip(i as int),
            forall|j: int|
                0 <= j < n ==> #[trigger] orig[j].0.shows(rows@[j]) && as_position(orig[j].1)
                    == last_index(ids@, rows@[j].id),
            r.len() == i,
            forall|j: int|
                0 <= j < i ==> #[trigger] r@[j].0.shows(rows@[j]) && match last_index(
                    hit_ids(hits@),
                    rows@[j].id,
                ) {
                    Some(k) => r@[j].1 matches Some(s) && s.fraction() == hits@[k].1.fraction(),
                    None => r@[j].1 is None,
                },
        decreases n - i,
    {
        assert(scored@[0] == orig[i as int]);
        let item = scored.remove(0);
        let (result, at) = item;
        proof {
            assert(item == orig[i as int]);
            assert(orig[i as int].0.shows(rows@[i as int]));
            assert(scored@ =~= orig.skip(i + 1));
            lemma_last_index_bound(ids@, rows@[i as int].id);
            assert(as_position(at) == last_index(ids@, rows@[i as int].id));
            assert(hit_ids(hits@).len() == hits@.len());
        }
        let score = match at {
            Some(k) => Some(hits[k].1.copy()),
            None => None,
        };
        r.push((result, score));
        i = i + 1;
    }
    r
}

/// Starts a `search_verses` call: the limit is brought into 1 to 50 and the
/// book filter is resolved; an unknown book ends the call with its message,
/// and otherwise the call asks for the query's embedding.
pub fn start_search(args: SearchVersesArgs) -> (out: (ToolCall, Step))
    ensures
        out.0.wf(),
        (out.1 is Finish) == (out.0 is Done),
        match args.book {
            Some(b) if resolution(b@) is None => fails_unknown_book(out.0, out.1, b@),
            _ => {
                &&& out.0 matches ToolCall::SearchEmbedding { query, limit, book_num }
                &&& query@ == args.query@
                &&& limit == clamped(args.limit as int)
                &&& book_num == match args.book {
                    Some(b) => Some((resolution(b@)->0 + 1) as u32),
                    None => None,
                }
                &&& out.1 matches Step::Ask(Request::EmbedQuery { text })
                &&& text@ == args.query@
            },
        },
{
    let limit = clamp_limit(args.limit);
    let filter = match &args.book {
        Some(b) => book_filter(Some(b.as_str())),
        None => book_filter(None),
    };
    match filter {
        Err(e) => (ToolCall::Done, Step::Finish(Answer::Failure(e.message()))),
        Ok(book_num) => {
            let text = args.query.clone();
            (
                ToolCall::SearchEmbedding { query: args.query, limit, book_num },
                Step::Ask(Request::EmbedQuery { text }),
            )
        },
    }
}

/// Starts a `similar_verses` call: the limit is brought into 1 to 50 and the
/// book is resolved; an unknown book ends the call with its message, and
/// otherwise the call asks for the source verse.
pub fn start_similar(args: SimilarVersesArgs) -> (out: (ToolCall, Step))
    ensures
        out.0.wf(),
        (out.1 is Finish) == (out.0 is Done),
        match resolution(args.book@) {
            None => fails_unknown_book(out.0, out.1, args.book@),
            Some(i) => {
                &&& out.0 == ToolCall::SimilarSource {
                    book: canonical_name(i),
                    chapter: args.chapter,
                    verse: args.verse,
                    limit: clamped(args.limit as int) as usize,
                }
                &&& out.1 == Step::Ask(
                    Request::VerseAt {
                        book_num: (i + 1) as u32,
                        chapter: args.chapter,
                        verse: args.verse,
                    },
                )
            },
        },
{
    let limit = clamp_limit(args.limit);
    match resolve_book(args.book.as_str()) {
        Err(e) => (ToolCall::Done, Step::Finish(Answer::Failure(e.message()))),
        Ok((book_num, book)) => (
            ToolCall::SimilarSource { book, chapter: args.chapter, verse: args.verse, limit },
            Step::Ask(Request::VerseAt { book_num, chapter: args.chapter, verse: args.verse }),
        ),
    }
}

/// Starts a `get_verse` call: an unknown book ends the call with its
/// message, and otherwise the call asks for the verse.
pub fn start_get_verse(args: GetVerseArgs) -> (out: (ToolCall, Step))
    ensures
        out.0.wf(),
        (out.1 is Finish) == (out.0 is Done),
        match resolution(args.book@) {
            None => fails_unknown_book(out.0, out.1, args.book@),
            Some(i) => {
                &&& out.0 == ToolCall::VerseLookup {
                    book: canonical_name(i),
                    chapter: args.chapter,
                    verse: args.verse,
                }
                &&& out.1 == Step::Ask(
                    Request::VerseAt {
                        book_num: (i + 1) as u32,
                        chapter: args.chapter,
                        verse: args.verse,
                    },
                )
            },
        },
{
    match resolve_book(args.book.as_str()) {
        Err(e) => (ToolCall::Done, Step::Finish(Answer::Failure(e.message()))),
        Ok((book_num, book)) => (
            ToolCall::VerseLookup { book, chapter: args.chapter, verse: args.verse },
            Step::Ask(Request::VerseAt { book_num, chapter: args.chapter, verse: args.verse }),
        ),
    }
}

/// Starts a `get_passage` call: an unknown book ends the call with its
/// message, and otherwise the call asks for the verses of the range.
pub fn start_get_passage(args: GetPassageArgs) -> (out: (ToolCall, Step))
    ensures
        out.0.wf(),
        (out.1 is Finish) == (out.0 is Done),
        match resolution(args.book@) {
            None => fails_unknown_book(out.0, out.1, args.book@),
            Some(i) => {
                &&& out.0 is PassageLookup
                &&& out.1 == Step::Ask(
                    Request::Passage {
                        book_num: (i + 1) as u32,
                        chapter: args.chapter,
                        from_verse: args.from_verse,
                        to_verse: args.to_verse,
                    },
                )
            },
        },
{
    match resolve_book(args.book.as_str()) {
        Err(e) => (ToolCall::Done, Step::Finish(Answer::Failure(e.message()))),
        Ok((book_num, _)) => (
            ToolCall::PassageLookup,
            Step::Ask(
                Request::Passage {
                    book_num,
                    chapter: args.chapter,
                    from_verse: args.from_verse,
                    to_verse: args.to_verse,
                },
            ),
        ),
    }
}


/// The positions among `ids` of the ids that have rows, increasing.
proof fn lemma_ids_with_rows_positions(ids: Seq<i64>, rows: Seq<Verse>, k: nat) -> (pos: Seq<int>)
    requires
        k <= ids.len(),
    ensures
        pos.len() == ids_with_rows(ids, rows, k).len(),
        pos.len() <= k,
        forall|i: int|
            0 <= i < pos.len() ==> 0 <= #[trigger] pos[i] < k && ids_with_rows(ids, rows, k)[i]
                == ids[pos[i]],
        forall|i: int, j: int| 0 <= i < j < pos.len() ==> #[trigger] pos[i] < #[trigger] pos[j],
    decreases k,
{
    if k == 0 {
        Seq::empty()
    } else {
        let prev = lemma_ids_with_rows_positions(ids, rows, (k - 1) as nat);
        if verse_ids(rows).contains(ids[k - 1]) {
            let pos = prev.push(k - 1);
            assert forall|i: int, j: int| 0 <= i < j < pos.len() implies #[trigger] pos[i]
                < #[trigger] pos[j] by {
                if j < prev.len() {
                    assert(pos[i] == prev[i] && pos[j] == prev[j]);
                } else {
                    assert(pos[i] == prev[i]);
                }
            }
            assert forall|i: int| 0 <= i < pos.len() implies 0 <= #[trigger] pos[i] < k
                && ids_with_rows(ids, rows, k)[i] == ids[pos[i]] by {
                if i < prev.len() {
                    assert(pos[i] == prev[i]);
                }
            }
            pos
        } else {
            prev
        }
    }
}

proof fn lemma_last_index_found(ids: Seq<i64>, id: i64)
    requires
        ids.contains(id),
    ensures
        last_index(ids, id) is Some,
    decreases ids.len(),
{
    if ids.last() != id {
        let p = choose|p: int| 0 <= p < ids.len() && ids[p] == id;
        assert(ids.drop_last()[p] == id);
        lemma_last_index_found(ids.drop_last(), id);
    }
}

/// A search answers in the fused order: when the fetched rows each have
/// one of the hit ids and no two share an id, the answer shows the verses
/// of the hits that have a row, in the order of the hits. So there are at
/// most `limit` of them, each is fused before the ones after it, and each
/// carries its exact fused score.
pub proof fn lemma_search_in_fused_order(
    vector_ids: Seq<i64>,
    fts_ids: Seq<i64>,
    limit: nat,
    hits: Seq<(i64, RrfScore)>,
    rows: Seq<Verse>,
    results: Seq<(VerseResult, Option<RrfScore>)>,
)
    requires
        fused_top(vector_ids, fts_ids, limit, hits),
        ranked_answer(results, in_hit_order(rows, hits), hits),
        verse_ids(rows).no_duplicates(),
        forall|t: int| 0 <= t < rows.len() ==> hit_ids(hits).contains(#[trigger] rows[t].id),
    ensures
        verse_ids(in_hit_order(rows, hits)) == ids_with_rows(hit_ids(hits), rows, hits.len()),
        results.len() <= limit,
        forall|i: int, j: int|
            0 <= i < j < results.len() ==> fused_before(
                vector_ids,
                fts_ids,
                #[trigger] in_hit_order(rows, hits)[i].id,
                #[trigger] in_hit_order(rows, hits)[j].id,
            ),
        forall|i: int|
            0 <= i < results.len() ==> (#[trigger] results[i].1 matches Some(s) && s.fraction()
                == rrf_score(vector_ids, fts_ids, in_hit_order(rows, hits)[i].id)),
{
    let h = hit_ids(hits);
    let ordered = in_hit_order(rows, hits);
    assert(h.no_duplicates()) by {
        assert forall|i: int, j: int| 0 <= i < h.len() && 0 <= j < h.len() && i != j implies h[i]
            != h[j] by {
            if h[i] == h[j] {
                crate::fusion::lemma_fused_before_irreflexive(vector_ids, fts_ids, h[i]);
                if i < j {
                    assert(fused_before(vector_ids, fts_ids, hits[i].0, hits[j].0));
                } else {
                    assert(fused_before(vector_ids, fts_ids, hits[j].0, hits[i].0));
                }
            }
        }
    }
    assert(h.len() == hits.len());
    lemma_order_follows_ids(rows, h);
    let w = ids_with_rows(h, rows, hits.len());
    let pos = lemma_ids_with_rows_positions(h, rows, hits.len());
    assert(verse_ids(ordered) == w);
    assert(results.len() == ordered.len());
    assert(ordered.len() == verse_ids(ordered).len());
    assert forall|i: int| 0 <= i < results.len() implies ordered[i].id == w[i] by {
        assert(verse_ids(ordered)[i] == ordered[i].id);
    }
    assert forall|i: int, j: int| 0 <= i < j < results.len() implies fused_before(
        vector_ids,
        fts_ids,
        #[trigger] ordered[i].id,
        #[trigger] ordered[j].id,
    ) by {
        assert(ordered[i].id == w[i]);
        assert(ordered[j].id == w[j]);
        assert(pos[i] < pos[j]);
        assert(fused_before(vector_ids, fts_ids, hits[pos[i]].0, hits[pos[j]].0));
    }
    assert forall|i: int| 0 <= i < results.len() implies (#[trigger] results[i].1 matches Some(s)
        && s.fraction() == rrf_score(vector_ids, fts_ids, ordered[i].id)) by {
        let id = ordered[i].id;
        assert(id == w[i]);
        assert(id == h[pos[i]]);
        lemma_last_index_found(h, id);
        lemma_last_index_bound(h, id);
        assert(results[i].0.shows(ordered[i]));
        let k = last_index(h, id)->0;
        assert(h[k] == hits[k].0);
        assert(hits[k].1.fraction() == rrf_score(vector_ids, fts_ids, hits[k].0));
    }
}

/// Every hit among the first `k` that is neither a cross-reference nor the
/// source is kept, in order.
proof fn lemma_unseen_keeps(hits: Seq<i64>, xref_ids: Seq<i64>, source_id: i64, k: nat, i: int)
    requires
        k <= hits.len(),
        0 <= i < k,
        !xref_ids.contains(hits[i]),
        hits[i] != source_id,
    ensures
        unseen_hits(hits, xref_ids, source_id, k).contains(hits[i]),
    decreases k,
{
    let prev = unseen_hits(hits, xref_ids, source_id, (k - 1) as nat);
    if i == k - 1 {
        assert(unseen_hits(hits, xref_ids, source_id, k) == prev.push(hits[i]));
        assert(prev.push(hits[i])[prev.len() as int] == hits[i]);
    } else {
        lemma_unseen_keeps(hits, xref_ids, source_id, (k - 1) as nat, i);
        let j = choose|j: int| 0 <= j < prev.len() && prev[j] == hits[i];
        let cur = unseen_hits(hits, xref_ids, source_id, k);
        assert(cur == prev || cur == prev.push(hits[k - 1]));
        assert(cur[j] == hits[i]);
    }
}

/// The hits kept among the first `k` have no repeats when the hits have
/// none.
proof fn lemma_unseen_distinct(hits: Seq<i64>, xref_ids: Seq<i64>, source_id: i64, k: nat)
    requires
        k <= hits.len(),
        hits.no_duplicates(),
    ensures
        unseen_hits(hits, xref_ids, source_id, k).no_duplicates(),
        forall|j: int|
            0 <= j < unseen_hits(hits, xref_ids, source_id, k).len() ==> exists|i: int|
                0 <= i < k && hits[i] == #[trigger] unseen_hits(hits, xref_ids, source_id, k)[j],
    decreases k,
{
    if k > 0 {
        lemma_unseen_distinct(hits, xref_ids, source_id, (k - 1) as nat);
        let prev = unseen_hits(hits, xref_ids, source_id, (k - 1) as nat);
        let cur = unseen_hits(hits, xref_ids, source_id, k);
        if cur != prev {
            assert(cur == prev.push(hits[k - 1]));
            assert forall|a: int, b: int| 0 <= a < b < cur.len() implies cur[a] != cur[b] by {
                if b == prev.len() {
                    assert(cur[a] == prev[a]);
                    let i = choose|i: int| 0 <= i < k - 1 && hits[i] == prev[a];
                    assert(hits[i] != hits[k - 1]);
                } else {
                    assert(cur[a] == prev[a] && cur[b] == prev[b]);
                }
            }
            assert forall|j: int| 0 <= j < cur.len() implies exists|i: int|
                0 <= i < k && hits[i] == #[trigger] cur[j] by {
                if j < prev.len() {
                    assert(cur[j] == prev[j]);
                    let i = choose|i: int| 0 <= i < k - 1 && hits[i] == prev[j];
                    assert(hits[i] == cur[j]);
                } else {
                    assert(hits[k - 1] == cur[j]);
                }
            }
        }
    }
}

/// The vector step of `similar_verses` keeps within the limit and fills it:
/// after `k` cross-references (fewer than `limit`), the nearest verses it
/// picks are never the source or a cross-reference, they are at most
/// `limit - k`, so the verses asked for are at most `limit`; and when fewer
/// than `limit - k` are picked, every nearest verse that is neither the
/// source nor a cross-reference is among them. With distinct nearest
/// verses and distinct cross-references, no verse is asked for twice.
pub proof fn lemma_similar_vector_fill(
    source_id: i64,
    limit: usize,
    xref_ids: Vec<i64>,
    hits: Vec<i64>,
    next: ToolCall,
    step: Step,
)
    requires
        (ToolCall::SimilarNearest { source_id, limit, xref_ids }).wf(),
        advanced(ToolCall::SimilarNearest { source_id, limit, xref_ids }, Reply::Nearest(hits), next, step),
    ensures
        next matches ToolCall::SimilarRows { xref_ids: x, vector_ids: v } && {
            &&& x@ == xref_ids@
            &&& v.len() + xref_ids.len() <= limit
            &&& forall|i: int|
                0 <= i < v.len() ==> hits@.contains(#[trigger] v@[i]) && !xref_ids@.contains(v@[i])
                    && v@[i] != source_id
            &&& v.len() + xref_ids.len() < limit ==> forall|i: int|
                0 <= i < hits.len() && !xref_ids@.contains(#[trigger] hits@[i]) && hits@[i]
                    != source_id ==> v@.contains(hits@[i])
            &&& hits@.no_duplicates() && xref_ids@.no_duplicates() ==> (xref_ids@ + v@).no_duplicates()
        },
        step matches Step::Ask(Request::VersesWithIds { ids }) && ids.len() <= limit,
{
    let u = unseen_hits(hits@, xref_ids@, source_id, hits@.len());
    let rem = (limit - xref_ids@.len()) as nat;
    let picked = first_n(u, rem);
    lemma_unseen_members(hits@, xref_ids@, source_id, hits@.len());
    let v = next->SimilarRows_vector_ids;
    assert(v@ == picked);
    assert(picked.len() <= rem);
    assert forall|i: int| 0 <= i < v.len() implies hits@.contains(#[trigger] v@[i]) && !xref_ids@.contains(
        v@[i],
    ) && v@[i] != source_id by {
        assert(v@[i] == u[i]);
    }
    if v.len() + xref_ids.len() < limit {
        assert(picked == u);
        assert forall|i: int|
            0 <= i < hits.len() && !xref_ids@.contains(#[trigger] hits@[i]) && hits@[i] != source_id
                implies v@.contains(hits@[i]) by {
            lemma_unseen_keeps(hits@, xref_ids@, source_id, hits@.len(), i);
        }
    }
    if hits@.no_duplicates() && xref_ids@.no_duplicates() {
        lemma_unseen_distinct(hits@, xref_ids@, source_id, hits@.len());
        let all = xref_ids@ + v@;
        assert forall|a: int, b: int| 0 <= a < b < all.len() implies all[a] != all[b] by {
            if b < xref_ids.len() {
            } else if a < xref_ids.len() {
                assert(all[b] == v@[b - xref_ids.len()]);
                assert(all[a] == xref_ids@[a]);
                assert(!xref_ids@.contains(v@[b - xref_ids.len()]));
            } else {
                assert(v@[a - xref_ids.len()] == u[a - xref_ids.len()]);
                assert(v@[b - xref_ids.len()] == u[b - xref_ids.len()]);
            }
        }
    }
}

/// `similar_verses` turns to vector neighbours whenever the
/// cross-references leave a slot, including when there are none: the call
/// then asks for the source verse's embedding.
pub proof fn lemma_similar_asks_for_embedding(
    source_id: i64,
    limit: usize,
    xrefs: Vec<i64>,
    next: ToolCall,
    step: Step,
)
    requires
        (ToolCall::SimilarCrossRefs { source_id, limit }).wf(),
        advanced(ToolCall::SimilarCrossRefs { source_id, limit }, Reply::CrossRefs(xrefs), next, step),
        xrefs.len() < limit,
    ensures
        step == Step::Ask(Request::VerseEmbedding { verse_id: source_id }),
        next matches ToolCall::SimilarEmbedding { source_id: s, limit: l, xref_ids: x } && s
            == source_id && l == limit && x@ == xrefs@,
{
}

/// Once the source verse's embedding is found, `similar_verses` asks for
/// the `limit + 1` verses nearest to it (one more than the limit, since
/// the source itself is among them).
pub proof fn lemma_similar_asks_for_neighbours(
    source_id: i64,
    limit: usize,
    xref_ids: Vec<i64>,
    next: ToolCall,
    step: Step,
)
    requires
        (ToolCall::SimilarEmbedding { source_id, limit, xref_ids }).wf(),
        advanced(
            ToolCall::SimilarEmbedding { source_id, limit, xref_ids },
            Reply::EmbeddingFound(true),
            next,
            step,
        ),
    ensures
        step == Step::Ask(Request::NearestVerses { limit: (limit + 1) as usize }),
        next matches ToolCall::SimilarNearest { source_id: s, limit: l, xref_ids: x } && s
            == source_id && l == limit && x@ == xref_ids@,
{
}

proof fn lemma_layout_size(ids: Seq<i64>, xref: bool, xref_ids: Seq<i64>, rows: Seq<Verse>, k: nat)
    ensures
        crate::server::layout(ids, xref, xref_ids, rows, k).len() <= k,
    decreases k,
{
    if k > 0 {
        lemma_layout_size(ids, xref, xref_ids, rows, (k - 1) as nat);
    }
}

/// A `similar_verses` answer has at most one result per verse asked for:
/// no more than the cross-references and vector hits together (so, with
/// `lemma_similar_vector_fill`, no more than the limit).
pub proof fn lemma_similar_answer_size(
    xref_ids: Vec<i64>,
    vector_ids: Vec<i64>,
    rows: Vec<Verse>,
    next: ToolCall,
    step: Step,
)
    requires
        advanced(ToolCall::SimilarRows { xref_ids, vector_ids }, Reply::Verses(rows), next, step),
    ensures
        step matches Step::Finish(Answer::Related(r)) && r.len() <= xref_ids.len()
            + vector_ids.len(),
{
    lemma_layout_size(xref_ids@, true, xref_ids@, rows@, xref_ids@.len());
    lemma_layout_size(vector_ids@, false, xref_ids@, rows@, vector_ids@.len());
}
} // verus!

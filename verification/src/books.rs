//! The 66 canonical book names of the Bible and the resolution of a
//! user-given book name (exact, ordinal words, or fuzzy) to one of them.
use vstd::prelude::*;

use crate::text::{
    all_ascii, all_chars, ascii, ascii_lower, ascii_lowercase, digit_space, lemma_replaced_absent,
    lemma_replaced_chars, lemma_replaced_no_new, lemma_replaced_removes, occurs_in, word_shape,
    chars_of, lowercase, lowercase_of, push_str, replace_all, replaced, same_chars, string_of,
};

verus! {

/// The number of books in the canonical list.
pub const BOOK_COUNT: usize = 66;

/// The bit pattern of the `f64` value 0.80, the least Jaro–Winkler
/// similarity at which a fuzzy match is accepted. For non-negative, finite
/// doubles the order of the bit patterns (as unsigned integers) is the
/// order of the values, so comparing bit patterns compares similarities.
pub const MATCH_THRESHOLD_BITS: u64 = 0x3fe9_9999_9999_999a;

/// The canonical name of the book at position `i` (its number is `i + 1`).
pub open spec fn canonical_name(i: int) -> &'static str {
    if i == 0 {
        "Genesis"
    } else if i == 1 {
        "Exodus"
    } else if i == 2 {
        "Leviticus"
    } else if i == 3 {
        "Numbers"
    } else if i == 4 {
        "Deuteronomy"
    } else if i == 5 {
        "Joshua"
    } else if i == 6 {
        "Judges"
    } else if i == 7 {
        "Ruth"
    } else if i == 8 {
        "1 Samuel"
    } else if i == 9 {
        "2 Samuel"
    } else if i == 10 {
        "1 Kings"
    } else if i == 11 {
        "2 Kings"
    } else if i == 12 {
        "1 Chronicles"
    } else if i == 13 {
        "2 Chronicles"
    } else if i == 14 {
        "Ezra"
    } else if i == 15 {
        "Nehemiah"
    } else if i == 16 {
        "Esther"
    } else if i == 17 {
        "Job"
    } else if i == 18 {
        "Psalms"
    } else if i == 19 {
        "Proverbs"
    } else if i == 20 {
        "Ecclesiastes"
    } else if i == 21 {
        "Song of Solomon"
    } else if i == 22 {
        "Isaiah"
    } else if i == 23 {
        "Jeremiah"
    } else if i == 24 {
        "Lamentations"
    } else if i == 25 {
        "Ezekiel"
    } else if i == 26 {
        "Daniel"
    } else if i == 27 {
        "Hosea"
    } else if i == 28 {
        "Joel"
    } else if i == 29 {
        "Amos"
    } else if i == 30 {
        "Obadiah"
    } else if i == 31 {
        "Jonah"
    } else if i == 32 {
        "Micah"
    } else if i == 33 {
        "Nahum"
    } else if i == 34 {
        "Habakkuk"
    } else if i == 35 {
        "Zephaniah"
    } else if i == 36 {
        "Haggai"
    } else if i == 37 {
        "Zechariah"
    } else if i == 38 {
        "Malachi"
    } else if i == 39 {
        "Matthew"
    } else if i == 40 {
        "Mark"
    } else if i == 41 {
        "Luke"
    } else if i == 42 {
        "John"
    } else if i == 43 {
        "Acts"
    } else if i == 44 {
        "Romans"
    } else if i == 45 {
        "1 Corinthians"
    } else if i == 46 {
        "2 Corinthians"
    } else if i == 47 {
        "Galatians"
    } else if i == 48 {
        "Ephesians"
    } else if i == 49 {
        "Philippians"
    } else if i == 50 {
        "Colossians"
    } else if i == 51 {
        "1 Thessalonians"
    } else if i == 52 {
        "2 Thessalonians"
    } else if i == 53 {
        "1 Timothy"
    } else if i == 54 {
        "2 Timothy"
    } else if i == 55 {
        "Titus"
    } else if i == 56 {
        "Philemon"
    } else if i == 57 {
        "Hebrews"
    } else if i == 58 {
        "James"
    } else if i == 59 {
        "1 Peter"
    } else if i == 60 {
        "2 Peter"
    } else if i == 61 {
        "1 John"
    } else if i == 62 {
        "2 John"
    } else if i == 63 {
        "3 John"
    } else if i == 64 {
        "Jude"
    } else {
        "Revelation"
    }
}

/// The canonical name of the book at position `i` (the book numbered
/// `i + 1`).
pub fn book_name(i: usize) -> (r: &'static str)
    requires
        i < 66,
    ensures
        r == canonical_name(i as int),
{
    if i == 0 {
        "Genesis"
    } else if i == 1 {
        "Exodus"
    } else if i == 2 {
        "Leviticus"
    } else if i == 3 {
        "Numbers"
    } else if i == 4 {
        "Deuteronomy"
    } else if i == 5 {
        "Joshua"
    } else if i == 6 {
        "Judges"
    } else if i == 7 {
        "Ruth"
    } else if i == 8 {
        "1 Samuel"
    } else if i == 9 {
        "2 Samuel"
    } else if i == 10 {
        "1 Kings"
    } else if i == 11 {
        "2 Kings"
    } else if i == 12 {
        "1 Chronicles"
    } else if i == 13 {
        "2 Chronicles"
    } else if i == 14 {
        "Ezra"
    } else if i == 15 {
        "Nehemiah"
    } else if i == 16 {
        "Esther"
    } else if i == 17 {
        "Job"
    } else if i == 18 {
        "Psalms"
    } else if i == 19 {
        "Proverbs"
    } else if i == 20 {
        "Ecclesiastes"
    } else if i == 21 {
        "Song of Solomon"
    } else if i == 22 {
        "Isaiah"
    } else if i == 23 {
        "Jeremiah"
    } else if i == 24 {
        "Lamentations"
    } else if i == 25 {
        "Ezekiel"
    } else if i == 26 {
        "Daniel"
    } else if i == 27 {
        "Hosea"
    } else if i == 28 {
        "Joel"
    } else if i == 29 {
        "Amos"
    } else if i == 30 {
        "Obadiah"
    } else if i == 31 {
        "Jonah"
    } else if i == 32 {
        "Micah"
    } else if i == 33 {
        "Nahum"
    } else if i == 34 {
        "Habakkuk"
    } else if i == 35 {
        "Zephaniah"
    } else if i == 36 {
        "Haggai"
    } else if i == 37 {
        "Zechariah"
    } else if i == 38 {
        "Malachi"
    } else if i == 39 {
        "Matthew"
    } else if i == 40 {
        "Mark"
    } else if i == 41 {
        "Luke"
    } else if i == 42 {
        "John"
    } else if i == 43 {
        "Acts"
    } else if i == 44 {
        "Romans"
    } else if i == 45 {
        "1 Corinthians"
    } else if i == 46 {
        "2 Corinthians"
    } else if i == 47 {
        "Galatians"
    } else if i == 48 {
        "Ephesians"
    } else if i == 49 {
        "Philippians"
    } else if i == 50 {
        "Colossians"
    } else if i == 51 {
        "1 Thessalonians"
    } else if i == 52 {
        "2 Thessalonians"
    } else if i == 53 {
        "1 Timothy"
    } else if i == 54 {
        "2 Timothy"
    } else if i == 55 {
        "Titus"
    } else if i == 56 {
        "Philemon"
    } else if i == 57 {
        "Hebrews"
    } else if i == 58 {
        "James"
    } else if i == 59 {
        "1 Peter"
    } else if i == 60 {
        "2 Peter"
    } else if i == 61 {
        "1 John"
    } else if i == 62 {
        "2 John"
    } else if i == 63 {
        "3 John"
    } else if i == 64 {
        "Jude"
    } else {
        "Revelation"
    }
}

/// The canonical books in order: each book's number (1 to 66) with its
/// name.
pub fn canonical_books() -> (r: Vec<(u32, &'static str)>)
    ensures
        r.len() == 66,
        forall|i: int| 0 <= i < 66 ==> #[trigger] r@[i] == ((i + 1) as u32, canonical_name(i)),
{
    let mut r: Vec<(u32, &'static str)> = Vec::new();
    let mut i: usize = 0;
    while i < BOOK_COUNT
        invariant
            i <= 66,
            r.len() == i,
            forall|j: int| 0 <= j < i ==> #[trigger] r@[j] == ((j + 1) as u32, canonical_name(j)),
        decreases 66 - i,
    {
        r.push(((i + 1) as u32, book_name(i)));
        i = i + 1;
    }
    r
}

/// The Jaro–Winkler similarity of `a` and `b` as `strsim::jaro_winkler`
/// computes it, given by the bit pattern of the `f64` it returns.
pub uninterp spec fn jaro_winkler_bits(a: Seq<char>, b: Seq<char>) -> u64;

/// Calls `strsim::jaro_winkler` on the two strings made of `a` and `b` and
/// returns the bit pattern of the similarity. Trusted: the result is the
/// named value `jaro_winkler_bits(a, b)`, and it is the pattern of a finite,
/// non-negative double (strsim computes it as a mean of quotients of counts,
/// boosted towards 1 by a common prefix).
#[verifier::external_body]
fn jaro_winkler_score(a: &Vec<char>, b: &Vec<char>) -> (r: u64)
    ensures
        r == jaro_winkler_bits(a@, b@),
        r < 0x7ff0_0000_0000_0000,
{
    let a: String = a.iter().collect();
    let b: String = b.iter().collect();
    strsim::jaro_winkler(&a, &b).to_bits()
}

/// `s` in lowercase with the ordinal words "first ", "second ", "third ",
/// "1st ", "2nd " and "3rd " replaced by "1 ", "2 " and "3 ".
pub open spec fn ordinals_normalized(s: Seq<char>) -> Seq<char> {
    let s0 = lowercase_of(s);
    let s1 = replaced(s0, "first "@, "1 "@);
    let s2 = replaced(s1, "second "@, "2 "@);
    let s3 = replaced(s2, "third "@, "3 "@);
    let s4 = replaced(s3, "1st "@, "1 "@);
    let s5 = replaced(s4, "2nd "@, "2 "@);
    replaced(s5, "3rd "@, "3 "@)
}

fn replace_literal(s: &Vec<char>, pat: &str, with: &str) -> (r: Vec<char>)
    requires
        pat@.len() > 0,
    ensures
        r@ == replaced(s@, pat@, with@),
{
    let p = chars_of(pat);
    let w = chars_of(with);
    replace_all(s, &p, &w)
}

fn normalized_chars(s: &str) -> (r: Vec<char>)
    ensures
        r@ == ordinals_normalized(s@),
{
    proof {
        reveal_strlit("first ");
        reveal_strlit("second ");
        reveal_strlit("third ");
        reveal_strlit("1st ");
        reveal_strlit("2nd ");
        reveal_strlit("3rd ");
    }
    let s0 = lowercase(s);
    let s1 = replace_literal(&s0, "first ", "1 ");
    let s2 = replace_literal(&s1, "second ", "2 ");
    let s3 = replace_literal(&s2, "third ", "3 ");
    let s4 = replace_literal(&s3, "1st ", "1 ");
    let s5 = replace_literal(&s4, "2nd ", "2 ");
    replace_literal(&s5, "3rd ", "3 ")
}

/// Lowercases `s` and writes ordinal words as numbers, so that
/// "First Kings" becomes "1 kings".
pub fn normalize_ordinals(s: &str) -> (r: String)
    ensures
        r@ == ordinals_normalized(s@),
{
    string_of(normalized_chars(s))
}

/// The book at position `i` is named by `input`: its lowercase name equals
/// the lowercase input or the input with ordinals normalized.
pub open spec fn names_book(input: Seq<char>, i: int) -> bool {
    let name = lowercase_of(canonical_name(i)@);
    name == lowercase_of(input) || name == ordinals_normalized(input)
}

/// The first position at or after `i` whose book `input` names exactly.
pub open spec fn first_exact_from(input: Seq<char>, i: nat) -> Option<int>
    decreases 66 - i,
{
    if i >= 66 {
        None
    } else if names_book(input, i as int) {
        Some(i as int)
    } else {
        first_exact_from(input, i + 1)
    }
}

/// The fuzzy similarity of `input` to the book at position `i`: the larger
/// of the Jaro–Winkler similarities of the lowercase input and of the
/// normalized input to the lowercase name (as `f64` bit patterns).
pub open spec fn similarity(input: Seq<char>, i: int) -> u64 {
    let name = lowercase_of(canonical_name(i)@);
    let s1 = jaro_winkler_bits(lowercase_of(input), name);
    let s2 = jaro_winkler_bits(ordinals_normalized(input), name);
    if s1 >= s2 {
        s1
    } else {
        s2
    }
}

/// The similarities of `input` to the 66 books, in canonical order.
pub open spec fn similarities(input: Seq<char>) -> Seq<u64> {
    Seq::new(66, |i: int| similarity(input, i))
}

/// Among the first `k` scores, the position of the last greatest one.
pub open spec fn last_best(scores: Seq<u64>, k: nat) -> int
    decreases k,
{
    if k <= 1 {
        0
    } else {
        let b = last_best(scores, (k - 1) as nat);
        if scores[k - 1] >= scores[b] {
            k - 1
        } else {
            b
        }
    }
}

/// The fuzzy choice among `scores` (similarities as `f64` bit patterns):
/// the last position of greatest score, if that score reaches the
/// threshold 0.80; `None` otherwise, and for no scores.
pub open spec fn fuzzy_choice(scores: Seq<u64>) -> Option<int> {
    if scores.len() == 0 {
        None
    } else {
        let b = last_best(scores, scores.len());
        if scores[b] >= MATCH_THRESHOLD_BITS {
            Some(b)
        } else {
            None
        }
    }
}

proof fn lemma_last_best_range(scores: Seq<u64>, k: nat)
    ensures
        k >= 1 ==> 0 <= last_best(scores, k) < k,
        k == 0 ==> last_best(scores, k) == 0,
    decreases k,
{
    if k > 1 {
        lemma_last_best_range(scores, (k - 1) as nat);
    }
}

/// The fuzzy match among the similarity scores of the books (`f64` bit
/// patterns, non-negative and finite): the position of the last greatest
/// score, if it is at least 0.80.
pub fn best_match(scores: &[u64]) -> (r: Option<usize>)
    ensures
        match fuzzy_choice(scores@) {
            Some(b) => r == Some(b as usize),
            None => r is None,
        },
{
    if scores.len() == 0 {
        return None;
    }
    let mut best: usize = 0;
    let mut k: usize = 1;
    while k < scores.len()
        invariant
            1 <= k <= scores.len(),
            best == last_best(scores@, k as nat),
            best < k,
        decreases scores.len() - k,
    {
        if scores[k] >= scores[best] {
            best = k;
        }
        k = k + 1;
    }
    if scores[best] >= MATCH_THRESHOLD_BITS {
        Some(best)
    } else {
        None
    }
}

/// The error for a book name that matches no canonical book.
#[derive(Debug)]
pub struct UnknownBook {
    pub input: String,
}

impl UnknownBook {
    /// The message shown to the caller.
    pub fn message(&self) -> (r: String)
        ensures
            r@ == "Unknown book: '"@ + self.input@ + "'. Try a standard Bible book name."@,
    {
        let mut out: Vec<char> = Vec::new();
        push_str(&mut out, "Unknown book: '");
        push_str(&mut out, self.input.as_str());
        push_str(&mut out, "'. Try a standard Bible book name.");
        string_of(out)
    }
}

pub(crate) proof fn lemma_first_exact_skip(input: Seq<char>, i: nat)
    requires
        i <= 66,
        forall|j: int| 0 <= j < i ==> !names_book(input, j),
    ensures
        first_exact_from(input, 0) == first_exact_from(input, i),
    decreases i,
{
    if i > 0 {
        lemma_first_exact_skip(input, (i - 1) as nat);
    }
}

/// The position of the book that `input` resolves to: the first book it
/// names exactly, or else the most similar book if its similarity reaches
/// the threshold; `None` when it resolves to no book.
pub open spec fn resolution(input: Seq<char>) -> Option<int> {
    match first_exact_from(input, 0) {
        Some(i) => Some(i),
        None => fuzzy_choice(similarities(input)),
    }
}

proof fn lemma_first_exact_range(input: Seq<char>, i: nat)
    ensures
        first_exact_from(input, i) matches Some(j) ==> i <= j < 66,
    decreases 66 - i,
{
    if i < 66 && !names_book(input, i as int) {
        lemma_first_exact_range(input, i + 1);
    }
}

/// The resolved book is a canonical one, numbered by its position.
pub proof fn lemma_resolution_in_range(input: Seq<char>)
    ensures
        resolution(input) matches Some(i) ==> 0 <= i < 66,
{
    lemma_first_exact_range(input, 0);
    lemma_last_best_range(similarities(input), 66);
}

proof fn lemma_first_exact_same(a: Seq<char>, b: Seq<char>, i: nat)
    requires
        forall|j: int| 0 <= j < 66 ==> names_book(a, j) == names_book(b, j),
    ensures
        first_exact_from(a, i) == first_exact_from(b, i),
    decreases 66 - i,
{
    if i < 66 {
        lemma_first_exact_same(a, b, i + 1);
    }
}

/// Book resolution ignores case: two inputs with the same lowercase form
/// resolve to the same book, or both to none.
pub proof fn lemma_resolution_ignores_case(a: Seq<char>, b: Seq<char>)
    requires
        lowercase_of(a) == lowercase_of(b),
    ensures
        resolution(a) == resolution(b),
{
    assert(ordinals_normalized(a) == ordinals_normalized(b));
    lemma_first_exact_same(a, b, 0);
    assert(similarities(a) == similarities(b));
}

/// Book resolution ignores ASCII case: two ASCII names that differ only in
/// the case of their letters ("JOHN", "john", "John") resolve to the same
/// book, or both to none.
pub proof fn lemma_resolution_ignores_ascii_case(a: Seq<char>, b: Seq<char>)
    requires
        all_ascii(a),
        all_ascii(b),
        ascii_lowercase(a) == ascii_lowercase(b),
    ensures
        resolution(a) == resolution(b),
{
    lemma_resolution_ignores_case(a, b);
}

/// `s` holds none of the ordinal words that are written as numbers.
pub open spec fn no_ordinal_words(s: Seq<char>) -> bool {
    &&& !occurs_in(s, "first "@)
    &&& !occurs_in(s, "second "@)
    &&& !occurs_in(s, "third "@)
    &&& !occurs_in(s, "1st "@)
    &&& !occurs_in(s, "2nd "@)
    &&& !occurs_in(s, "3rd "@)
}

/// Normalizing an ASCII name without ordinal words only changes its case:
/// the result is the name with its capital letters made small ("Firstborn"
/// gives "firstborn").
pub proof fn lemma_normalize_plain_ascii(s: Seq<char>)
    requires
        all_ascii(s),
        no_ordinal_words(ascii_lowercase(s)),
    ensures
        ordinals_normalized(s) == ascii_lowercase(s),
{
    let t = ascii_lowercase(s);
    reveal_strlit("first ");
    reveal_strlit("second ");
    reveal_strlit("third ");
    reveal_strlit("1st ");
    reveal_strlit("2nd ");
    reveal_strlit("3rd ");
    lemma_replaced_absent(t, "first "@, "1 "@);
    lemma_replaced_absent(t, "second "@, "2 "@);
    lemma_replaced_absent(t, "third "@, "3 "@);
    lemma_replaced_absent(t, "1st "@, "1 "@);
    lemma_replaced_absent(t, "2nd "@, "2 "@);
    lemma_replaced_absent(t, "3rd "@, "3 "@);
}

/// A character that normalizing leaves as it is: ASCII and not a capital
/// letter.
pub open spec fn settled_char(c: char) -> bool {
    ascii(c) && ascii_lower(c) == c
}

/// A digit-and-space replacement keeps a pattern of word shape absent.
proof fn lemma_keeps_absent(x: Seq<char>, pat: Seq<char>, with: Seq<char>, q: Seq<char>)
    requires
        pat.len() > 0,
        digit_space(with),
        word_shape(q),
        !occurs_in(x, q),
    ensures
        !occurs_in(replaced(x, pat, with), q),
{
    if occurs_in(replaced(x, pat, with), q) {
        lemma_replaced_no_new(x, pat, with, q);
    }
}

/// Normalizing ordinals is idempotent on ASCII names: the result is ASCII,
/// has no capital letter and no ordinal word, and normalizing it again
/// gives it back.
pub proof fn lemma_normalize_idempotent(s: Seq<char>)
    requires
        all_ascii(s),
    ensures
        all_ascii(ordinals_normalized(s)),
        ascii_lowercase(ordinals_normalized(s)) == ordinals_normalized(s),
        no_ordinal_words(ordinals_normalized(s)),
        ordinals_normalized(ordinals_normalized(s)) == ordinals_normalized(s),
{
    reveal_strlit("first ");
    reveal_strlit("second ");
    reveal_strlit("third ");
    reveal_strlit("1st ");
    reveal_strlit("2nd ");
    reveal_strlit("3rd ");
    reveal_strlit("1 ");
    reveal_strlit("2 ");
    reveal_strlit("3 ");
    let q1 = "first "@;
    let q2 = "second "@;
    let q3 = "third "@;
    let q4 = "1st "@;
    let q5 = "2nd "@;
    let q6 = "3rd "@;
    let w1 = "1 "@;
    let w2 = "2 "@;
    let w3 = "3 "@;
    assert(word_shape(q1) && word_shape(q2) && word_shape(q3));
    assert(word_shape(q4) && word_shape(q5) && word_shape(q6));
    assert(digit_space(w1) && digit_space(w2) && digit_space(w3));
    let p = |c: char| settled_char(c);
    let t0 = lowercase_of(s);
    assert(t0 == ascii_lowercase(s));
    assert(all_chars(t0, p)) by {
        assert forall|i: int| 0 <= i < t0.len() implies p(#[trigger] t0[i]) by {
            assert(t0[i] == ascii_lower(s[i]));
            assert(ascii(s[i]));
        }
    }
    assert(all_chars(w1, p) && all_chars(w2, p) && all_chars(w3, p));
    let t1 = replaced(t0, q1, w1);
    let t2 = replaced(t1, q2, w2);
    let t3 = replaced(t2, q3, w3);
    let t4 = replaced(t3, q4, w1);
    let t5 = replaced(t4, q5, w2);
    let t6 = replaced(t5, q6, w3);
    assert(t6 == ordinals_normalized(s));
    lemma_replaced_chars(t0, q1, w1, p);
    lemma_replaced_chars(t1, q2, w2, p);
    lemma_replaced_chars(t2, q3, w3, p);
    lemma_replaced_chars(t3, q4, w1, p);
    lemma_replaced_chars(t4, q5, w2, p);
    lemma_replaced_chars(t5, q6, w3, p);
    lemma_replaced_removes(t0, q1, w1);
    lemma_keeps_absent(t1, q2, w2, q1);
    lemma_keeps_absent(t2, q3, w3, q1);
    lemma_keeps_absent(t3, q4, w1, q1);
    lemma_keeps_absent(t4, q5, w2, q1);
    lemma_keeps_absent(t5, q6, w3, q1);
    lemma_replaced_removes(t1, q2, w2);
    lemma_keeps_absent(t2, q3, w3, q2);
    lemma_keeps_absent(t3, q4, w1, q2);
    lemma_keeps_absent(t4, q5, w2, q2);
    lemma_keeps_absent(t5, q6, w3, q2);
    lemma_replaced_removes(t2, q3, w3);
    lemma_keeps_absent(t3, q4, w1, q3);
    lemma_keeps_absent(t4, q5, w2, q3);
    lemma_keeps_absent(t5, q6, w3, q3);
    lemma_replaced_removes(t3, q4, w1);
    lemma_keeps_absent(t4, q5, w2, q4);
    lemma_keeps_absent(t5, q6, w3, q4);
    lemma_replaced_removes(t4, q5, w2);
    lemma_keeps_absent(t5, q6, w3, q5);
    lemma_replaced_removes(t5, q6, w3);
    assert(all_ascii(t6)) by {
        assert forall|i: int| 0 <= i < t6.len() implies ascii(#[trigger] t6[i]) by {
            assert(p(t6[i]));
        }
    }
    assert(ascii_lowercase(t6) =~= t6) by {
        assert forall|i: int| 0 <= i < t6.len() implies #[trigger] ascii_lowercase(t6)[i] == t6[i] by {
            assert(p(t6[i]));
        }
    }
    assert(no_ordinal_words(t6));
    lemma_normalize_plain_ascii(t6);
}

/// Resolves a book name to `(book number, canonical name)`. A name that
/// equals a canonical name ignoring case, directly or once ordinal words are
/// written as numbers, resolves to the first such book. Otherwise the book
/// of greatest Jaro–Winkler similarity (the last one on ties) is taken if
/// its similarity is at least 0.80; else the name is unknown.
pub fn resolve_book(input: &str) -> (r: Result<(u32, &'static str), UnknownBook>)
    ensures
        match resolution(input@) {
            Some(i) => r == Ok::<(u32, &'static str), UnknownBook>(((i + 1) as u32, canonical_name(i))),
            None => r matches Err(e) && e.input@ == input@,
        },
        r matches Ok((n, name)) ==> 1 <= n <= 66 && name == canonical_name(n - 1),
{
    let input_lower = lowercase(input);
    let input_norm = normalized_chars(input);
    let mut i: usize = 0;
    while i < BOOK_COUNT
        invariant
            i <= 66,
            input_lower@ == lowercase_of(input@),
            input_norm@ == ordinals_normalized(input@),
            forall|j: int| 0 <= j < i ==> !names_book(input@, j),
        decreases 66 - i,
    {
        let name = book_name(i);
        let name_lower = lowercase(name);
        if same_chars(&name_lower, &input_lower) || same_chars(&name_lower, &input_norm) {
            proof {
                lemma_first_exact_skip(input@, i as nat);
                lemma_resolution_in_range(input@);
            }
            return Ok(((i + 1) as u32, name));
        }
        i = i + 1;
    }
    proof {
        lemma_first_exact_skip(input@, 66);
        lemma_resolution_in_range(input@);
    }
    let mut scores: Vec<u64> = Vec::new();
    let mut k: usize = 0;
    while k < BOOK_COUNT
        invariant
            k <= 66,
            input_lower@ == lowercase_of(input@),
            input_norm@ == ordinals_normalized(input@),
            scores@ == similarities(input@).take(k as int),
        decreases 66 - k,
    {
        let name_lower = lowercase(book_name(k));
        let s1 = jaro_winkler_score(&input_lower, &name_lower);
        let s2 = jaro_winkler_score(&input_norm, &name_lower);
        let score = if s1 >= s2 {
            s1
        } else {
            s2
        };
        scores.push(score);
        proof {
            assert(similarities(input@).take(k + 1) == similarities(input@).take(k as int).push(
                score,
            ));
        }
        k = k + 1;
    }
    proof {
        assert(similarities(input@).take(66) == similarities(input@));
        lemma_last_best_range(similarities(input@), 66);
    }
    match best_match(scores.as_slice()) {
        Some(best) => Ok(((best + 1) as u32, book_name(best))),
        None => Err(UnknownBook { input: string_of(chars_of(input)) }),
    }
}

/// The book filter of a search: no book means no filter; a book name is
/// resolved to its number (see `resolve_book`), and an unknown name is an
/// error.
pub fn book_filter(book: Option<&str>) -> (r: Result<Option<u32>, UnknownBook>)
    ensures
        match book {
            None => r == Ok::<Option<u32>, UnknownBook>(None),
            Some(b) => match resolution(b@) {
                Some(i) => r == Ok::<Option<u32>, UnknownBook>(Some((i + 1) as u32)),
                None => r matches Err(e) && e.input@ == b@,
            },
        },
{
    match book {
        None => Ok(None),
        Some(b) => match resolve_book(b) {
            Ok((num, _)) => Ok(Some(num)),
            Err(e) => Err(e),
        },
    }
}
} // verus!

//! Facts about the 66 canonical book names that make the exact,
//! case-insensitive match of a canonical name win over every other book.
use vstd::prelude::*;

use crate::books::{
    canonical_name, first_exact_from, lemma_first_exact_skip, lemma_normalize_plain_ascii,
    lemma_resolution_ignores_ascii_case, names_book, no_ordinal_words, ordinals_normalized,
    resolution,
};
use crate::text::{all_ascii, ascii_lowercase, lowercase_of, occurs_in};

verus! {

/// The canonical name of the book at position `i`, in lowercase.
pub open spec fn lower_name(i: int) -> Seq<char> {
    if i == 0 {
        seq!['g', 'e', 'n', 'e', 's', 'i', 's']
    } else if i == 1 {
        seq!['e', 'x', 'o', 'd', 'u', 's']
    } else if i == 2 {
        seq!['l', 'e', 'v', 'i', 't', 'i', 'c', 'u', 's']
    } else if i == 3 {
        seq!['n', 'u', 'm', 'b', 'e', 'r', 's']
    } else if i == 4 {
        seq!['d', 'e', 'u', 't', 'e', 'r', 'o', 'n', 'o', 'm', 'y']
    } else if i == 5 {
        seq!['j', 'o', 's', 'h', 'u', 'a']
    } else if i == 6 {
        seq!['j', 'u', 'd', 'g', 'e', 's']
    } else if i == 7 {
        seq!['r', 'u', 't', 'h']
    } else if i == 8 {
        seq!['1', ' ', 's', 'a', 'm', 'u', 'e', 'l']
    } else if i == 9 {
        seq!['2', ' ', 's', 'a', 'm', 'u', 'e', 'l']
    } else if i == 10 {
        seq!['1', ' ', 'k', 'i', 'n', 'g', 's']
    } else if i == 11 {
        seq!['2', ' ', 'k', 'i', 'n', 'g', 's']
    } else if i == 12 {
        seq!['1', ' ', 'c', 'h', 'r', 'o', 'n', 'i', 'c', 'l', 'e', 's']
    } else if i == 13 {
        seq!['2', ' ', 'c', 'h', 'r', 'o', 'n', 'i', 'c', 'l', 'e', 's']
    } else if i == 14 {
        seq!['e', 'z', 'r', 'a']
    } else if i == 15 {
        seq!['n', 'e', 'h', 'e', 'm', 'i', 'a', 'h']
    } else if i == 16 {
        seq!['e', 's', 't', 'h', 'e', 'r']
    } else if i == 17 {
        seq!['j', 'o', 'b']
    } else if i == 18 {
        seq!['p', 's', 'a', 'l', 'm', 's']
    } else if i == 19 {
        seq!['p', 'r', 'o', 'v', 'e', 'r', 'b', 's']
    } else if i == 20 {
        seq!['e', 'c', 'c', 'l', 'e', 's', 'i', 'a', 's', 't', 'e', 's']
    } else if i == 21 {
        seq!['s', 'o', 'n', 'g', ' ', 'o', 'f', ' ', 's', 'o', 'l', 'o', 'm', 'o', 'n']
    } else if i == 22 {
        seq!['i', 's', 'a', 'i', 'a', 'h']
    } else if i == 23 {
        seq!['j', 'e', 'r', 'e', 'm', 'i', 'a', 'h']
    } else if i == 24 {
        seq!['l', 'a', 'm', 'e', 'n', 't', 'a', 't', 'i', 'o', 'n', 's']
    } else if i == 25 {
        seq!['e', 'z', 'e', 'k', 'i', 'e', 'l']
    } else if i == 26 {
        seq!['d', 'a', 'n', 'i', 'e', 'l']
    } else if i == 27 {
        seq!['h', 'o', 's', 'e', 'a']
    } else if i == 28 {
        seq!['j', 'o', 'e', 'l']
    } else if i == 29 {
        seq!['a', 'm', 'o', 's']
    } else if i == 30 {
        seq!['o', 'b', 'a', 'd', 'i', 'a', 'h']
    } else if i == 31 {
        seq!['j', 'o', 'n', 'a', 'h']
    } else if i == 32 {
        seq!['m', 'i', 'c', 'a', 'h']
    } else if i == 33 {
        seq!['n', 'a', 'h', 'u', 'm']
    } else if i == 34 {
        seq!['h', 'a', 'b', 'a', 'k', 'k', 'u', 'k']
    } else if i == 35 {
        seq!['z', 'e', 'p', 'h', 'a', 'n', 'i', 'a', 'h']
    } else if i == 36 {
        seq!['h', 'a', 'g', 'g', 'a', 'i']
    } else if i == 37 {
        seq!['z', 'e', 'c', 'h', 'a', 'r', 'i', 'a', 'h']
    } else if i == 38 {
        seq!['m', 'a', 'l', 'a', 'c', 'h', 'i']
    } else if i == 39 {
        seq!['m', 'a', 't', 't', 'h', 'e', 'w']
    } else if i == 40 {
        seq!['m', 'a', 'r', 'k']
    } else if i == 41 {
        seq!['l', 'u', 'k', 'e']
    } else if i == 42 {
        seq!['j', 'o', 'h', 'n']
    } else if i == 43 {
        seq!['a', 'c', 't', 's']
    } else if i == 44 {
        seq!['r', 'o', 'm', 'a', 'n', 's']
    } else if i == 45 {
        seq!['1', ' ', 'c', 'o', 'r', 'i', 'n', 't', 'h', 'i', 'a', 'n', 's']
    } else if i == 46 {
        seq!['2', ' ', 'c', 'o', 'r', 'i', 'n', 't', 'h', 'i', 'a', 'n', 's']
    } else if i == 47 {
        seq!['g', 'a', 'l', 'a', 't', 'i', 'a', 'n', 's']
    } else if i == 48 {
        seq!['e', 'p', 'h', 'e', 's', 'i', 'a', 'n', 's']
    } else if i == 49 {
        seq!['p', 'h', 'i', 'l', 'i', 'p', 'p', 'i', 'a', 'n', 's']
    } else if i == 50 {
        seq!['c', 'o', 'l', 'o', 's', 's', 'i', 'a', 'n', 's']
    } else if i == 51 {
        seq!['1', ' ', 't', 'h', 'e', 's', 's', 'a', 'l', 'o', 'n', 'i', 'a', 'n', 's']
    } else if i == 52 {
        seq!['2', ' ', 't', 'h', 'e', 's', 's', 'a', 'l', 'o', 'n', 'i', 'a', 'n', 's']
    } else if i == 53 {
        seq!['1', ' ', 't', 'i', 'm', 'o', 't', 'h', 'y']
    } else if i == 54 {
        seq!['2', ' ', 't', 'i', 'm', 'o', 't', 'h', 'y']
    } else if i == 55 {
        seq!['t', 'i', 't', 'u', 's']
    } else if i == 56 {
        seq!['p', 'h', 'i', 'l', 'e', 'm', 'o', 'n']
    } else if i == 57 {
        seq!['h', 'e', 'b', 'r', 'e', 'w', 's']
    } else if i == 58 {
        seq!['j', 'a', 'm', 'e', 's']
    } else if i == 59 {
        seq!['1', ' ', 'p', 'e', 't', 'e', 'r']
    } else if i == 60 {
        seq!['2', ' ', 'p', 'e', 't', 'e', 'r']
    } else if i == 61 {
        seq!['1', ' ', 'j', 'o', 'h', 'n']
    } else if i == 62 {
        seq!['2', ' ', 'j', 'o', 'h', 'n']
    } else if i == 63 {
        seq!['3', ' ', 'j', 'o', 'h', 'n']
    } else if i == 64 {
        seq!['j', 'u', 'd', 'e']
    } else {
        seq!['r', 'e', 'v', 'e', 'l', 'a', 't', 'i', 'o', 'n']
    }
}

/// Each canonical name is ASCII, and its lowercase form is `lower_name`.
proof fn lemma_lower_name(i: int)
    requires
        0 <= i < 66,
    ensures
        all_ascii(canonical_name(i)@),
        ascii_lowercase(canonical_name(i)@) == lower_name(i),
        lowercase_of(canonical_name(i)@) == lower_name(i),
{
    if i == 0 {
        reveal_strlit("Genesis");
        assert(ascii_lowercase("Genesis"@) =~= lower_name(0));
    } else if i == 1 {
        reveal_strlit("Exodus");
        assert(ascii_lowercase("Exodus"@) =~= lower_name(1));
    } else if i == 2 {
        reveal_strlit("Leviticus");
        assert(ascii_lowercase("Leviticus"@) =~= lower_name(2));
    } else if i == 3 {
        reveal_strlit("Numbers");
        assert(ascii_lowercase("Numbers"@) =~= lower_name(3));
    } else if i == 4 {
        reveal_strlit("Deuteronomy");
        assert(ascii_lowercase("Deuteronomy"@) =~= lower_name(4));
    } else if i == 5 {
        reveal_strlit("Joshua");
        assert(ascii_lowercase("Joshua"@) =~= lower_name(5));
    } else if i == 6 {
        reveal_strlit("Judges");
        assert(ascii_lowercase("Judges"@) =~= lower_name(6));
    } else if i == 7 {
        reveal_strlit("Ruth");
        assert(ascii_lowercase("Ruth"@) =~= lower_name(7));
    } else if i == 8 {
        reveal_strlit("1 Samuel");
        assert(ascii_lowercase("1 Samuel"@) =~= lower_name(8));
    } else if i == 9 {
        reveal_strlit("2 Samuel");
        assert(ascii_lowercase("2 Samuel"@) =~= lower_name(9));
    } else if i == 10 {
        reveal_strlit("1 Kings");
        assert(ascii_lowercase("1 Kings"@) =~= lower_name(10));
    } else if i == 11 {
        reveal_strlit("2 Kings");
        assert(ascii_lowercase("2 Kings"@) =~= lower_name(11));
    } else if i == 12 {
        reveal_strlit("1 Chronicles");
        assert(ascii_lowercase("1 Chronicles"@) =~= lower_name(12));
    } else if i == 13 {
        reveal_strlit("2 Chronicles");
        assert(ascii_lowercase("2 Chronicles"@) =~= lower_name(13));
    } else if i == 14 {
        reveal_strlit("Ezra");
        assert(ascii_lowercase("Ezra"@) =~= lower_name(14));
    } else if i == 15 {
        reveal_strlit("Nehemiah");
        assert(ascii_lowercase("Nehemiah"@) =~= lower_name(15));
    } else if i == 16 {
        reveal_strlit("Esther");
        assert(ascii_lowercase("Esther"@) =~= lower_name(16));
    } else if i == 17 {
        reveal_strlit("Job");
        assert(ascii_lowercase("Job"@) =~= lower_name(17));
    } else if i == 18 {
        reveal_strlit("Psalms");
        assert(ascii_lowercase("Psalms"@) =~= lower_name(18));
    } else if i == 19 {
        reveal_strlit("Proverbs");
        assert(ascii_lowercase("Proverbs"@) =~= lower_name(19));
    } else if i == 20 {
        reveal_strlit("Ecclesiastes");
        assert(ascii_lowercase("Ecclesiastes"@) =~= lower_name(20));
    } else if i == 21 {
        reveal_strlit("Song of Solomon");
        assert(ascii_lowercase("Song of Solomon"@) =~= lower_name(21));
    } else if i == 22 {
        reveal_strlit("Isaiah");
        assert(ascii_lowercase("Isaiah"@) =~= lower_name(22));
    } else if i == 23 {
        reveal_strlit("Jeremiah");
        assert(ascii_lowercase("Jeremiah"@) =~= lower_name(23));
    } else if i == 24 {
        reveal_strlit("Lamentations");
        assert(ascii_lowercase("Lamentations"@) =~= lower_name(24));
    } else if i == 25 {
        reveal_strlit("Ezekiel");
        assert(ascii_lowercase("Ezekiel"@) =~= lower_name(25));
    } else if i == 26 {
        reveal_strlit("Daniel");
        assert(ascii_lowercase("Daniel"@) =~= lower_name(26));
    } else if i == 27 {
        reveal_strlit("Hosea");
        assert(ascii_lowercase("Hosea"@) =~= lower_name(27));
    } else if i == 28 {
        reveal_strlit("Joel");
        assert(ascii_lowercase("Joel"@) =~= lower_name(28));
    } else if i == 29 {
        reveal_strlit("Amos");
        assert(ascii_lowercase("Amos"@) =~= lower_name(29));
    } else if i == 30 {
        reveal_strlit("Obadiah");
        assert(ascii_lowercase("Obadiah"@) =~= lower_name(30));
    } else if i == 31 {
        reveal_strlit("Jonah");
        assert(ascii_lowercase("Jonah"@) =~= lower_name(31));
    } else if i == 32 {
        reveal_strlit("Micah");
        assert(ascii_lowercase("Micah"@) =~= lower_name(32));
    } else if i == 33 {
        reveal_strlit("Nahum");
        assert(ascii_lowercase("Nahum"@) =~= lower_name(33));
    } else if i == 34 {
        reveal_strlit("Habakkuk");
        assert(ascii_lowercase("Habakkuk"@) =~= lower_name(34));
    } else if i == 35 {
        reveal_strlit("Zephaniah");
        assert(ascii_lowercase("Zephaniah"@) =~= lower_name(35));
    } else if i == 36 {
        reveal_strlit("Haggai");
        assert(ascii_lowercase("Haggai"@) =~= lower_name(36));
    } else if i == 37 {
        reveal_strlit("Zechariah");
        assert(ascii_lowercase("Zechariah"@) =~= lower_name(37));
    } else if i == 38 {
        reveal_strlit("Malachi");
        assert(ascii_lowercase("Malachi"@) =~= lower_name(38));
    } else if i == 39 {
        reveal_strlit("Matthew");
        assert(ascii_lowercase("Matthew"@) =~= lower_name(39));
    } else if i == 40 {
        reveal_strlit("Mark");
        assert(ascii_lowercase("Mark"@) =~= lower_name(40));
    } else if i == 41 {
        reveal_strlit("Luke");
        assert(ascii_lowercase("Luke"@) =~= lower_name(41));
    } else if i == 42 {
        reveal_strlit("John");
        assert(ascii_lowercase("John"@) =~= lower_name(42));
    } else if i == 43 {
        reveal_strlit("Acts");
        assert(ascii_lowercase("Acts"@) =~= lower_name(43));
    } else if i == 44 {
        reveal_strlit("Romans");
        assert(ascii_lowercase("Romans"@) =~= lower_name(44));
    } else if i == 45 {
        reveal_strlit("1 Corinthians");
        assert(ascii_lowercase("1 Corinthians"@) =~= lower_name(45));
    } else if i == 46 {
        reveal_strlit("2 Corinthians");
        assert(ascii_lowercase("2 Corinthians"@) =~= lower_name(46));
    } else if i == 47 {
        reveal_strlit("Galatians");
        assert(ascii_lowercase("Galatians"@) =~= lower_name(47));
    } else if i == 48 {
        reveal_strlit("Ephesians");
        assert(ascii_lowercase("Ephesians"@) =~= lower_name(48));
    } else if i == 49 {
        reveal_strlit("Philippians");
        assert(ascii_lowercase("Philippians"@) =~= lower_name(49));
    } else if i == 50 {
        reveal_strlit("Colossians");
        assert(ascii_lowercase("Colossians"@) =~= lower_name(50));
    } else if i == 51 {
        reveal_strlit("1 Thessalonians");
        assert(ascii_lowercase("1 Thessalonians"@) =~= lower_name(51));
    } else if i == 52 {
        reveal_strlit("2 Thessalonians");
        assert(ascii_lowercase("2 Thessalonians"@) =~= lower_name(52));
    } else if i == 53 {
        reveal_strlit("1 Timothy");
        assert(ascii_lowercase("1 Timothy"@) =~= lower_name(53));
    } else if i == 54 {
        reveal_strlit("2 Timothy");
        assert(ascii_lowercase("2 Timothy"@) =~= lower_name(54));
    } else if i == 55 {
        reveal_strlit("Titus");
        assert(ascii_lowercase("Titus"@) =~= lower_name(55));
    } else if i == 56 {
        reveal_strlit("Philemon");
        assert(ascii_lowercase("Philemon"@) =~= lower_name(56));
    } else if i == 57 {
        reveal_strlit("Hebrews");
        assert(ascii_lowercase("Hebrews"@) =~= lower_name(57));
    } else if i == 58 {
        reveal_strlit("James");
        assert(ascii_lowercase("James"@) =~= lower_name(58));
    } else if i == 59 {
        reveal_strlit("1 Peter");
        assert(ascii_lowercase("1 Peter"@) =~= lower_name(59));
    } else if i == 60 {
        reveal_strlit("2 Peter");
        assert(ascii_lowercase("2 Peter"@) =~= lower_name(60));
    } else if i == 61 {
        reveal_strlit("1 John");
        assert(ascii_lowercase("1 John"@) =~= lower_name(61));
    } else if i == 62 {
        reveal_strlit("2 John");
        assert(ascii_lowercase("2 John"@) =~= lower_name(62));
    } else if i == 63 {
        reveal_strlit("3 John");
        assert(ascii_lowercase("3 John"@) =~= lower_name(63));
    } else if i == 64 {
        reveal_strlit("Jude");
        assert(ascii_lowercase("Jude"@) =~= lower_name(64));
    } else {
        reveal_strlit("Revelation");
        assert(ascii_lowercase("Revelation"@) =~= lower_name(65));
    }
}

/// No lowercase canonical name holds an ordinal word.
proof fn lemma_no_ordinals(i: int)
    requires
        0 <= i < 66,
    ensures
        no_ordinal_words(lower_name(i)),
{
    lemma_no_ordinals_of(lower_name(i));
}

/// A text in which no space follows a `t` or a `d` holds no ordinal word:
/// each of them ends with `t ` or `d `.
proof fn lemma_no_ordinals_of(s: Seq<char>)
    requires
        forall|k: int| 0 < k < s.len() && #[trigger] s[k] == ' ' ==> s[k - 1] != 't' && s[k - 1] != 'd',
    ensures
        no_ordinal_words(s),
{
    reveal_strlit("first ");
    reveal_strlit("second ");
    reveal_strlit("third ");
    reveal_strlit("1st ");
    reveal_strlit("2nd ");
    reveal_strlit("3rd ");
    lemma_not_ending_in(s, "first "@, 't');
    lemma_not_ending_in(s, "second "@, 'd');
    lemma_not_ending_in(s, "third "@, 'd');
    lemma_not_ending_in(s, "1st "@, 't');
    lemma_not_ending_in(s, "2nd "@, 'd');
    lemma_not_ending_in(s, "3rd "@, 'd');
}

proof fn lemma_not_ending_in(s: Seq<char>, pat: Seq<char>, c: char)
    requires
        pat.len() >= 2,
        pat[pat.len() - 1] == ' ',
        pat[pat.len() - 2] == c,
        forall|k: int| 0 < k < s.len() && #[trigger] s[k] == ' ' ==> s[k - 1] != c,
    ensures
        !occurs_in(s, pat),
{
    if occurs_in(s, pat) {
        let p = choose|p: int| 0 <= p && p + pat.len() <= s.len() && #[trigger] s.subrange(p, p + pat.len()) == pat;
        let k = p + pat.len() - 1;
        assert(s[k] == s.subrange(p, p + pat.len())[pat.len() - 1]);
        assert(s[k - 1] == s.subrange(p, p + pat.len())[pat.len() - 2]);
    }
}

/// No book before position 1 has its lowercase name.
proof fn lemma_distinct_below_1(j: int)
    requires
        0 <= j < 1,
    ensures
        lower_name(j) != lower_name(1),
{
}

/// No book before position 2 has its lowercase name.
proof fn lemma_distinct_below_2(j: int)
    requires
        0 <= j < 2,
    ensures
        lower_name(j) != lower_name(2),
{
}

/// No book before position 3 has its lowercase name.
proof fn lemma_distinct_below_3(j: int)
    requires
        0 <= j < 3,
    ensures
        lower_name(j) != lower_name(3),
{
    if j == 0 {
        assert(lower_name(0)[0] != lower_name(3)[0]);
    }
}

/// No book before position 4 has its lowercase name.
proof fn lemma_distinct_below_4(j: int)
    requires
        0 <= j < 4,
    ensures
        lower_name(j) != lower_name(4),
{
}

/// No book before position 5 has its lowercase name.
proof fn lemma_distinct_below_5(j: int)
    requires
        0 <= j < 5,
    ensures
        lower_name(j) != lower_name(5),
{
    if j == 1 {
        assert(lower_name(1)[0] != lower_name(5)[0]);
    }
}

/// No book before position 6 has its lowercase name.
proof fn lemma_distinct_below_6(j: int)
    requires
        0 <= j < 6,
    ensures
        lower_name(j) != lower_name(6),
{
    if j == 1 {
        assert(lower_name(1)[0] != lower_name(6)[0]);
    }
    if j == 5 {
        assert(lower_name(5)[1] != lower_name(6)[1]);
    }
}

/// No book before position 7 has its lowercase name.
proof fn lemma_distinct_below_7(j: int)
    requires
        0 <= j < 7,
    ensures
        lower_name(j) != lower_name(7),
{
}

/// No book before position 8 has its lowercase name.
proof fn lemma_distinct_below_8(j: int)
    requires
        0 <= j < 8,
    ensures
        lower_name(j) != lower_name(8),
{
}

/// No book before position 9 has its lowercase name.
proof fn lemma_distinct_below_9(j: int)
    requires
        0 <= j < 9,
    ensures
        lower_name(j) != lower_name(9),
{
    if j == 8 {
        assert(lower_name(8)[0] != lower_name(9)[0]);
    }
}

/// No book before position 10 has its lowercase name.
proof fn lemma_distinct_below_10(j: int)
    requires
        0 <= j < 10,
    ensures
        lower_name(j) != lower_name(10),
{
    if j == 0 {
        assert(lower_name(0)[0] != lower_name(10)[0]);
    }
    if j == 3 {
        assert(lower_name(3)[0] != lower_name(10)[0]);
    }
}

/// No book before position 11 has its lowercase name.
proof fn lemma_distinct_below_11(j: int)
    requires
        0 <= j < 11,
    ensures
        lower_name(j) != lower_name(11),
{
    if j == 0 {
        assert(lower_name(0)[0] != lower_name(11)[0]);
    }
    if j == 3 {
        assert(lower_name(3)[0] != lower_name(11)[0]);
    }
    if j == 10 {
        assert(lower_name(10)[0] != lower_name(11)[0]);
    }
}

/// No book before position 12 has its lowercase name.
proof fn lemma_distinct_below_12(j: int)
    requires
        0 <= j < 12,
    ensures
        lower_name(j) != lower_name(12),
{
}

/// No book before position 13 has its lowercase name.
proof fn lemma_distinct_below_13(j: int)
    requires
        0 <= j < 13,
    ensures
        lower_name(j) != lower_name(13),
{
    if j == 12 {
        assert(lower_name(12)[0] != lower_name(13)[0]);
    }
}

/// No book before position 14 has its lowercase name.
proof fn lemma_distinct_below_14(j: int)
    requires
        0 <= j < 14,
    ensures
        lower_name(j) != lower_name(14),
{
    if j == 7 {
        assert(lower_name(7)[0] != lower_name(14)[0]);
    }
}

/// No book before position 15 has its lowercase name.
proof fn lemma_distinct_below_15(j: int)
    requires
        0 <= j < 15,
    ensures
        lower_name(j) != lower_name(15),
{
    if j == 8 {
        assert(lower_name(8)[0] != lower_name(15)[0]);
    }
    if j == 9 {
        assert(lower_name(9)[0] != lower_name(15)[0]);
    }
}

/// No book before position 16 has its lowercase name.
proof fn lemma_distinct_below_16(j: int)
    requires
        0 <= j < 16,
    ensures
        lower_name(j) != lower_name(16),
{
    if j == 1 {
        assert(lower_name(1)[1] != lower_name(16)[1]);
    }
    if j == 5 {
        assert(lower_name(5)[0] != lower_name(16)[0]);
    }
    if j == 6 {
        assert(lower_name(6)[0] != lower_name(16)[0]);
    }
}

/// No book before position 17 has its lowercase name.
proof fn lemma_distinct_below_17(j: int)
    requires
        0 <= j < 17,
    ensures
        lower_name(j) != lower_name(17),
{
}

/// No book before position 18 has its lowercase name.
proof fn lemma_distinct_below_18(j: int)
    requires
        0 <= j < 18,
    ensures
        lower_name(j) != lower_name(18),
{
    if j == 1 {
        assert(lower_name(1)[0] != lower_name(18)[0]);
    }
    if j == 5 {
        assert(lower_name(5)[0] != lower_name(18)[0]);
    }
    if j == 6 {
        assert(lower_name(6)[0] != lower_name(18)[0]);
    }
    if j == 16 {
        assert(lower_name(16)[0] != lower_name(18)[0]);
    }
}

/// No book before position 19 has its lowercase name.
proof fn lemma_distinct_below_19(j: int)
    requires
        0 <= j < 19,
    ensures
        lower_name(j) != lower_name(19),
{
    if j == 8 {
        assert(lower_name(8)[0] != lower_name(19)[0]);
    }
    if j == 9 {
        assert(lower_name(9)[0] != lower_name(19)[0]);
    }
    if j == 15 {
        assert(lower_name(15)[0] != lower_name(19)[0]);
    }
}

/// No book before position 20 has its lowercase name.
proof fn lemma_distinct_below_20(j: int)
    requires
        0 <= j < 20,
    ensures
        lower_name(j) != lower_name(20),
{
    if j == 12 {
        assert(lower_name(12)[0] != lower_name(20)[0]);
    }
    if j == 13 {
        assert(lower_name(13)[0] != lower_name(20)[0]);
    }
}

/// No book before position 21 has its lowercase name.
proof fn lemma_distinct_below_21(j: int)
    requires
        0 <= j < 21,
    ensures
        lower_name(j) != lower_name(21),
{
}

/// No book before position 22 has its lowercase name.
proof fn lemma_distinct_below_22(j: int)
    requires
        0 <= j < 22,
    ensures
        lower_name(j) != lower_name(22),
{
    if j == 1 {
        assert(lower_name(1)[0] != lower_name(22)[0]);
    }
    if j == 5 {
        assert(lower_name(5)[0] != lower_name(22)[0]);
    }
    if j == 6 {
        assert(lower_name(6)[0] != lower_name(22)[0]);
    }
    if j == 16 {
        assert(lower_name(16)[0] != lower_name(22)[0]);
    }
    if j == 18 {
        assert(lower_name(18)[0] != lower_name(22)[0]);
    }
}

/// No book before position 23 has its lowercase name.
proof fn lemma_distinct_below_23(j: int)
    requires
        0 <= j < 23,
    ensures
        lower_name(j) != lower_name(23),
{
    if j == 8 {
        assert(lower_name(8)[0] != lower_name(23)[0]);
    }
    if j == 9 {
        assert(lower_name(9)[0] != lower_name(23)[0]);
    }
    if j == 15 {
        assert(lower_name(15)[0] != lower_name(23)[0]);
    }
    if j == 19 {
        assert(lower_name(19)[0] != lower_name(23)[0]);
    }
}

/// No book before position 24 has its lowercase name.
proof fn lemma_distinct_below_24(j: int)
    requires
        0 <= j < 24,
    ensures
        lower_name(j) != lower_name(24),
{
    if j == 12 {
        assert(lower_name(12)[0] != lower_name(24)[0]);
    }
    if j == 13 {
        assert(lower_name(13)[0] != lower_name(24)[0]);
    }
    if j == 20 {
        assert(lower_name(20)[0] != lower_name(24)[0]);
    }
}

/// No book before position 25 has its lowercase name.
proof fn lemma_distinct_below_25(j: int)
    requires
        0 <= j < 25,
    ensures
        lower_name(j) != lower_name(25),
{
    if j == 0 {
        assert(lower_name(0)[0] != lower_name(25)[0]);
    }
    if j == 3 {
        assert(lower_name(3)[0] != lower_name(25)[0]);
    }
    if j == 10 {
        assert(lower_name(10)[0] != lower_name(25)[0]);
    }
    if j == 11 {
        assert(lower_name(11)[0] != lower_name(25)[0]);
    }
}

/// No book before position 26 has its lowercase name.
proof fn lemma_distinct_below_26(j: int)
    requires
        0 <= j < 26,
    ensures
        lower_name(j) != lower_name(26),
{
    if j == 1 {
        assert(lower_name(1)[0] != lower_name(26)[0]);
    }
    if j == 5 {
        assert(lower_name(5)[0] != lower_name(26)[0]);
    }
    if j == 6 {
        assert(lower_name(6)[0] != lower_name(26)[0]);
    }
    if j == 16 {
        assert(lower_name(16)[0] != lower_name(26)[0]);
    }
    if j == 18 {
        assert(lower_name(18)[0] != lower_name(26)[0]);
    }
    if j == 22 {
        assert(lower_name(22)[0] != lower_name(26)[0]);
    }
}

/// No book before position 27 has its lowercase name.
proof fn lemma_distinct_below_27(j: int)
    requires
        0 <= j < 27,
    ensures
        lower_name(j) != lower_name(27),
{
}

/// No book before position 28 has its lowercase name.
proof fn lemma_distinct_below_28(j: int)
    requires
        0 <= j < 28,
    ensures
        lower_name(j) != lower_name(28),
{
    if j == 7 {
        assert(lower_name(7)[0] != lower_name(28)[0]);
    }
    if j == 14 {
        assert(lower_name(14)[0] != lower_name(28)[0]);
    }
}

/// No book before position 29 has its lowercase name.
proof fn lemma_distinct_below_29(j: int)
    requires
        0 <= j < 29,
    ensures
        lower_name(j) != lower_name(29),
{
    if j == 7 {
        assert(lower_name(7)[0] != lower_name(29)[0]);
    }
    if j == 14 {
        assert(lower_name(14)[0] != lower_name(29)[0]);
    }
    if j == 28 {
        assert(lower_name(28)[0] != lower_name(29)[0]);
    }
}

/// No book before position 30 has its lowercase name.
proof fn lemma_distinct_below_30(j: int)
    requires
        0 <= j < 30,
    ensures
        lower_name(j) != lower_name(30),
{
    if j == 0 {
        assert(lower_name(0)[0] != lower_name(30)[0]);
    }
    if j == 3 {
        assert(lower_name(3)[0] != lower_name(30)[0]);
    }
    if j == 10 {
        assert(lower_name(10)[0] != lower_name(30)[0]);
    }
    if j == 11 {
        assert(lower_name(11)[0] != lower_name(30)[0]);
    }
    if j == 25 {
        assert(lower_name(25)[0] != lower_name(30)[0]);
    }
}

/// No book before position 31 has its lowercase name.
proof fn lemma_distinct_below_31(j: int)
    requires
        0 <= j < 31,
    ensures
        lower_name(j) != lower_name(31),
{
    if j == 27 {
        assert(lower_name(27)[0] != lower_name(31)[0]);
    }
}

/// No book before position 32 has its lowercase name.
proof fn lemma_distinct_below_32(j: int)
    requires
        0 <= j < 32,
    ensures
        lower_name(j) != lower_name(32),
{
    if j == 27 {
        assert(lower_name(27)[0] != lower_name(32)[0]);
    }
    if j == 31 {
        assert(lower_name(31)[0] != lower_name(32)[0]);
    }
}

/// No book before position 33 has its lowercase name.
proof fn lemma_distinct_below_33(j: int)
    requires
        0 <= j < 33,
    ensures
        lower_name(j) != lower_name(33),
{
    if j == 27 {
        assert(lower_name(27)[0] != lower_name(33)[0]);
    }
    if j == 31 {
        assert(lower_name(31)[0] != lower_name(33)[0]);
    }
    if j == 32 {
        assert(lower_name(32)[0] != lower_name(33)[0]);
    }
}

/// No book before position 34 has its lowercase name.
proof fn lemma_distinct_below_34(j: int)
    requires
        0 <= j < 34,
    ensures
        lower_name(j) != lower_name(34),
{
    if j == 8 {
        assert(lower_name(8)[0] != lower_name(34)[0]);
    }
    if j == 9 {
        assert(lower_name(9)[0] != lower_name(34)[0]);
    }
    if j == 15 {
        assert(lower_name(15)[0] != lower_name(34)[0]);
    }
    if j == 19 {
        assert(lower_name(19)[0] != lower_name(34)[0]);
    }
    if j == 23 {
        assert(lower_name(23)[0] != lower_name(34)[0]);
    }
}

/// No book before position 35 has its lowercase name.
proof fn lemma_distinct_below_35(j: int)
    requires
        0 <= j < 35,
    ensures
        lower_name(j) != lower_name(35),
{
    if j == 2 {
        assert(lower_name(2)[0] != lower_name(35)[0]);
    }
}

/// No book before position 36 has its lowercase name.
proof fn lemma_distinct_below_36(j: int)
    requires
        0 <= j < 36,
    ensures
        lower_name(j) != lower_name(36),
{
    if j == 1 {
        assert(lower_name(1)[0] != lower_name(36)[0]);
    }
    if j == 5 {
        assert(lower_name(5)[0] != lower_name(36)[0]);
    }
    if j == 6 {
        assert(lower_name(6)[0] != lower_name(36)[0]);
    }
    if j == 16 {
        assert(lower_name(16)[0] != lower_name(36)[0]);
    }
    if j == 18 {
        assert(lower_name(18)[0] != lower_name(36)[0]);
    }
    if j == 22 {
        assert(lower_name(22)[0] != lower_name(36)[0]);
    }
    if j == 26 {
        assert(lower_name(26)[0] != lower_name(36)[0]);
    }
}

/// No book before position 37 has its lowercase name.
proof fn lemma_distinct_below_37(j: int)
    requires
        0 <= j < 37,
    ensures
        lower_name(j) != lower_name(37),
{
    if j == 2 {
        assert(lower_name(2)[0] != lower_name(37)[0]);
    }
    if j == 35 {
        assert(lower_name(35)[2] != lower_name(37)[2]);
    }
}

/// No book before position 38 has its lowercase name.
proof fn lemma_distinct_below_38(j: int)
    requires
        0 <= j < 38,
    ensures
        lower_name(j) != lower_name(38),
{
    if j == 0 {
        assert(lower_name(0)[0] != lower_name(38)[0]);
    }
    if j == 3 {
        assert(lower_name(3)[0] != lower_name(38)[0]);
    }
    if j == 10 {
        assert(lower_name(10)[0] != lower_name(38)[0]);
    }
    if j == 11 {
        assert(lower_name(11)[0] != lower_name(38)[0]);
    }
    if j == 25 {
        assert(lower_name(25)[0] != lower_name(38)[0]);
    }
    if j == 30 {
        assert(lower_name(30)[0] != lower_name(38)[0]);
    }
}

/// No book before position 39 has its lowercase name.
proof fn lemma_distinct_below_39(j: int)
    requires
        0 <= j < 39,
    ensures
        lower_name(j) != lower_name(39),
{
    if j == 0 {
        assert(lower_name(0)[0] != lower_name(39)[0]);
    }
    if j == 3 {
        assert(lower_name(3)[0] != lower_name(39)[0]);
    }
    if j == 10 {
        assert(lower_name(10)[0] != lower_name(39)[0]);
    }
    if j == 11 {
        assert(lower_name(11)[0] != lower_name(39)[0]);
    }
    if j == 25 {
        assert(lower_name(25)[0] != lower_name(39)[0]);
    }
    if j == 30 {
        assert(lower_name(30)[0] != lower_name(39)[0]);
    }
    if j == 38 {
        assert(lower_name(38)[2] != lower_name(39)[2]);
    }
}

/// No book before position 40 has its lowercase name.
proof fn lemma_distinct_below_40(j: int)
    requires
        0 <= j < 40,
    ensures
        lower_name(j) != lower_name(40),
{
    if j == 7 {
        assert(lower_name(7)[0] != lower_name(40)[0]);
    }
    if j == 14 {
        assert(lower_name(14)[0] != lower_name(40)[0]);
    }
    if j == 28 {
        assert(lower_name(28)[0] != lower_name(40)[0]);
    }
    if j == 29 {
        assert(lower_name(29)[0] != lower_name(40)[0]);
    }
}

/// No book before position 41 has its lowercase name.
proof fn lemma_distinct_below_41(j: int)
    requires
        0 <= j < 41,
    ensures
        lower_name(j) != lower_name(41),
{
    if j == 7 {
        assert(lower_name(7)[0] != lower_name(41)[0]);
    }
    if j == 14 {
        assert(lower_name(14)[0] != lower_name(41)[0]);
    }
    if j == 28 {
        assert(lower_name(28)[0] != lower_name(41)[0]);
    }
    if j == 29 {
        assert(lower_name(29)[0] != lower_name(41)[0]);
    }
    if j == 40 {
        assert(lower_name(40)[0] != lower_name(41)[0]);
    }
}

/// No book before position 42 has its lowercase name.
proof fn lemma_distinct_below_42(j: int)
    requires
        0 <= j < 42,
    ensures
        lower_name(j) != lower_name(42),
{
    if j == 7 {
        assert(lower_name(7)[0] != lower_name(42)[0]);
    }
    if j == 14 {
        assert(lower_name(14)[0] != lower_name(42)[0]);
    }
    if j == 28 {
        assert(lower_name(28)[2] != lower_name(42)[2]);
    }
    if j == 29 {
        assert(lower_name(29)[0] != lower_name(42)[0]);
    }
    if j == 40 {
        assert(lower_name(40)[0] != lower_name(42)[0]);
    }
    if j == 41 {
        assert(lower_name(41)[0] != lower_name(42)[0]);
    }
}

/// No book before position 43 has its lowercase name.
proof fn lemma_distinct_below_43(j: int)
    requires
        0 <= j < 43,
    ensures
        lower_name(j) != lower_name(43),
{
    if j == 7 {
        assert(lower_name(7)[0] != lower_name(43)[0]);
    }
    if j == 14 {
        assert(lower_name(14)[0] != lower_name(43)[0]);
    }
    if j == 28 {
        assert(lower_name(28)[0] != lower_name(43)[0]);
    }
    if j == 29 {
        assert(lower_name(29)[1] != lower_name(43)[1]);
    }
    if j == 40 {
        assert(lower_name(40)[0] != lower_name(43)[0]);
    }
    if j == 41 {
        assert(lower_name(41)[0] != lower_name(43)[0]);
    }
    if j == 42 {
        assert(lower_name(42)[0] != lower_name(43)[0]);
    }
}

/// No book before position 44 has its lowercase name.
proof fn lemma_distinct_below_44(j: int)
    requires
        0 <= j < 44,
    ensures
        lower_name(j) != lower_name(44),
{
    if j == 1 {
        assert(lower_name(1)[0] != lower_name(44)[0]);
    }
    if j == 5 {
        assert(lower_name(5)[0] != lower_name(44)[0]);
    }
    if j == 6 {
        assert(lower_name(6)[0] != lower_name(44)[0]);
    }
    if j == 16 {
        assert(lower_name(16)[0] != lower_name(44)[0]);
    }
    if j == 18 {
        assert(lower_name(18)[0] != lower_name(44)[0]);
    }
    if j == 22 {
        assert(lower_name(22)[0] != lower_name(44)[0]);
    }
    if j == 26 {
        assert(lower_name(26)[0] != lower_name(44)[0]);
    }
    if j == 36 {
        assert(lower_name(36)[0] != lower_name(44)[0]);
    }
}

/// No book before position 45 has its lowercase name.
proof fn lemma_distinct_below_45(j: int)
    requires
        0 <= j < 45,
    ensures
        lower_name(j) != lower_name(45),
{
}

/// No book before position 46 has its lowercase name.
proof fn lemma_distinct_below_46(j: int)
    requires
        0 <= j < 46,
    ensures
        lower_name(j) != lower_name(46),
{
    if j == 45 {
        assert(lower_name(45)[0] != lower_name(46)[0]);
    }
}

/// No book before position 47 has its lowercase name.
proof fn lemma_distinct_below_47(j: int)
    requires
        0 <= j < 47,
    ensures
        lower_name(j) != lower_name(47),
{
    if j == 2 {
        assert(lower_name(2)[0] != lower_name(47)[0]);
    }
    if j == 35 {
        assert(lower_name(35)[0] != lower_name(47)[0]);
    }
    if j == 37 {
        assert(lower_name(37)[0] != lower_name(47)[0]);
    }
}

/// No book before position 48 has its lowercase name.
proof fn lemma_distinct_below_48(j: int)
    requires
        0 <= j < 48,
    ensures
        lower_name(j) != lower_name(48),
{
    if j == 2 {
        assert(lower_name(2)[0] != lower_name(48)[0]);
    }
    if j == 35 {
        assert(lower_name(35)[0] != lower_name(48)[0]);
    }
    if j == 37 {
        assert(lower_name(37)[0] != lower_name(48)[0]);
    }
    if j == 47 {
        assert(lower_name(47)[0] != lower_name(48)[0]);
    }
}

/// No book before position 49 has its lowercase name.
proof fn lemma_distinct_below_49(j: int)
    requires
        0 <= j < 49,
    ensures
        lower_name(j) != lower_name(49),
{
    if j == 4 {
        assert(lower_name(4)[0] != lower_name(49)[0]);
    }
}

/// No book before position 50 has its lowercase name.
proof fn lemma_distinct_below_50(j: int)
    requires
        0 <= j < 50,
    ensures
        lower_name(j) != lower_name(50),
{
}

/// No book before position 51 has its lowercase name.
proof fn lemma_distinct_below_51(j: int)
    requires
        0 <= j < 51,
    ensures
        lower_name(j) != lower_name(51),
{
    if j == 21 {
        assert(lower_name(21)[0] != lower_name(51)[0]);
    }
}

/// No book before position 52 has its lowercase name.
proof fn lemma_distinct_below_52(j: int)
    requires
        0 <= j < 52,
    ensures
        lower_name(j) != lower_name(52),
{
    if j == 21 {
        assert(lower_name(21)[0] != lower_name(52)[0]);
    }
    if j == 51 {
        assert(lower_name(51)[0] != lower_name(52)[0]);
    }
}

/// No book before position 53 has its lowercase name.
proof fn lemma_distinct_below_53(j: int)
    requires
        0 <= j < 53,
    ensures
        lower_name(j) != lower_name(53),
{
    if j == 2 {
        assert(lower_name(2)[0] != lower_name(53)[0]);
    }
    if j == 35 {
        assert(lower_name(35)[0] != lower_name(53)[0]);
    }
    if j == 37 {
        assert(lower_name(37)[0] != lower_name(53)[0]);
    }
    if j == 47 {
        assert(lower_name(47)[0] != lower_name(53)[0]);
    }
    if j == 48 {
        assert(lower_name(48)[0] != lower_name(53)[0]);
    }
}

/// No book before position 54 has its lowercase name.
proof fn lemma_distinct_below_54(j: int)
    requires
        0 <= j < 54,
    ensures
        lower_name(j) != lower_name(54),
{
    if j == 2 {
        assert(lower_name(2)[0] != lower_name(54)[0]);
    }
    if j == 35 {
        assert(lower_name(35)[0] != lower_name(54)[0]);
    }
    if j == 37 {
        assert(lower_name(37)[0] != lower_name(54)[0]);
    }
    if j == 47 {
        assert(lower_name(47)[0] != lower_name(54)[0]);
    }
    if j == 48 {
        assert(lower_name(48)[0] != lower_name(54)[0]);
    }
    if j == 53 {
        assert(lower_name(53)[0] != lower_name(54)[0]);
    }
}

/// No book before position 55 has its lowercase name.
proof fn lemma_distinct_below_55(j: int)
    requires
        0 <= j < 55,
    ensures
        lower_name(j) != lower_name(55),
{
    if j == 27 {
        assert(lower_name(27)[0] != lower_name(55)[0]);
    }
    if j == 31 {
        assert(lower_name(31)[0] != lower_name(55)[0]);
    }
    if j == 32 {
        assert(lower_name(32)[0] != lower_name(55)[0]);
    }
    if j == 33 {
        assert(lower_name(33)[0] != lower_name(55)[0]);
    }
}

/// No book before position 56 has its lowercase name.
proof fn lemma_distinct_below_56(j: int)
    requires
        0 <= j < 56,
    ensures
        lower_name(j) != lower_name(56),
{
    if j == 8 {
        assert(lower_name(8)[0] != lower_name(56)[0]);
    }
    if j == 9 {
        assert(lower_name(9)[0] != lower_name(56)[0]);
    }
    if j == 15 {
        assert(lower_name(15)[0] != lower_name(56)[0]);
    }
    if j == 19 {
        assert(lower_name(19)[1] != lower_name(56)[1]);
    }
    if j == 23 {
        assert(lower_name(23)[0] != lower_name(56)[0]);
    }
    if j == 34 {
        assert(lower_name(34)[0] != lower_name(56)[0]);
    }
}

/// No book before position 57 has its lowercase name.
proof fn lemma_distinct_below_57(j: int)
    requires
        0 <= j < 57,
    ensures
        lower_name(j) != lower_name(57),
{
    if j == 0 {
        assert(lower_name(0)[0] != lower_name(57)[0]);
    }
    if j == 3 {
        assert(lower_name(3)[0] != lower_name(57)[0]);
    }
    if j == 10 {
        assert(lower_name(10)[0] != lower_name(57)[0]);
    }
    if j == 11 {
        assert(lower_name(11)[0] != lower_name(57)[0]);
    }
    if j == 25 {
        assert(lower_name(25)[0] != lower_name(57)[0]);
    }
    if j == 30 {
        assert(lower_name(30)[0] != lower_name(57)[0]);
    }
    if j == 38 {
        assert(lower_name(38)[0] != lower_name(57)[0]);
    }
    if j == 39 {
        assert(lower_name(39)[0] != lower_name(57)[0]);
    }
}

/// No book before position 58 has its lowercase name.
proof fn lemma_distinct_below_58(j: int)
    requires
        0 <= j < 58,
    ensures
        lower_name(j) != lower_name(58),
{
    if j == 27 {
        assert(lower_name(27)[0] != lower_name(58)[0]);
    }
    if j == 31 {
        assert(lower_name(31)[1] != lower_name(58)[1]);
    }
    if j == 32 {
        assert(lower_name(32)[0] != lower_name(58)[0]);
    }
    if j == 33 {
        assert(lower_name(33)[0] != lower_name(58)[0]);
    }
    if j == 55 {
        assert(lower_name(55)[0] != lower_name(58)[0]);
    }
}

/// No book before position 59 has its lowercase name.
proof fn lemma_distinct_below_59(j: int)
    requires
        0 <= j < 59,
    ensures
        lower_name(j) != lower_name(59),
{
    if j == 0 {
        assert(lower_name(0)[0] != lower_name(59)[0]);
    }
    if j == 3 {
        assert(lower_name(3)[0] != lower_name(59)[0]);
    }
    if j == 10 {
        assert(lower_name(10)[2] != lower_name(59)[2]);
    }
    if j == 11 {
        assert(lower_name(11)[0] != lower_name(59)[0]);
    }
    if j == 25 {
        assert(lower_name(25)[0] != lower_name(59)[0]);
    }
    if j == 30 {
        assert(lower_name(30)[0] != lower_name(59)[0]);
    }
    if j == 38 {
        assert(lower_name(38)[0] != lower_name(59)[0]);
    }
    if j == 39 {
        assert(lower_name(39)[0] != lower_name(59)[0]);
    }
    if j == 57 {
        assert(lower_name(57)[0] != lower_name(59)[0]);
    }
}

/// No book before position 60 has its lowercase name.
proof fn lemma_distinct_below_60(j: int)
    requires
        0 <= j < 60,
    ensures
        lower_name(j) != lower_name(60),
{
    if j == 0 {
        assert(lower_name(0)[0] != lower_name(60)[0]);
    }
    if j == 3 {
        assert(lower_name(3)[0] != lower_name(60)[0]);
    }
    if j == 10 {
        assert(lower_name(10)[0] != lower_name(60)[0]);
    }
    if j == 11 {
        assert(lower_name(11)[2] != lower_name(60)[2]);
    }
    if j == 25 {
        assert(lower_name(25)[0] != lower_name(60)[0]);
    }
    if j == 30 {
        assert(lower_name(30)[0] != lower_name(60)[0]);
    }
    if j == 38 {
        assert(lower_name(38)[0] != lower_name(60)[0]);
    }
    if j == 39 {
        assert(lower_name(39)[0] != lower_name(60)[0]);
    }
    if j == 57 {
        assert(lower_name(57)[0] != lower_name(60)[0]);
    }
    if j == 59 {
        assert(lower_name(59)[0] != lower_name(60)[0]);
    }
}

/// No book before position 61 has its lowercase name.
proof fn lemma_distinct_below_61(j: int)
    requires
        0 <= j < 61,
    ensures
        lower_name(j) != lower_name(61),
{
    if j == 1 {
        assert(lower_name(1)[0] != lower_name(61)[0]);
    }
    if j == 5 {
        assert(lower_name(5)[0] != lower_name(61)[0]);
    }
    if j == 6 {
        assert(lower_name(6)[0] != lower_name(61)[0]);
    }
    if j == 16 {
        assert(lower_name(16)[0] != lower_name(61)[0]);
    }
    if j == 18 {
        assert(lower_name(18)[0] != lower_name(61)[0]);
    }
    if j == 22 {
        assert(lower_name(22)[0] != lower_name(61)[0]);
    }
    if j == 26 {
        assert(lower_name(26)[0] != lower_name(61)[0]);
    }
    if j == 36 {
        assert(lower_name(36)[0] != lower_name(61)[0]);
    }
    if j == 44 {
        assert(lower_name(44)[0] != lower_name(61)[0]);
    }
}

/// No book before position 62 has its lowercase name.
proof fn lemma_distinct_below_62(j: int)
    requires
        0 <= j < 62,
    ensures
        lower_name(j) != lower_name(62),
{
    if j == 1 {
        assert(lower_name(1)[0] != lower_name(62)[0]);
    }
    if j == 5 {
        assert(lower_name(5)[0] != lower_name(62)[0]);
    }
    if j == 6 {
        assert(lower_name(6)[0] != lower_name(62)[0]);
    }
    if j == 16 {
        assert(lower_name(16)[0] != lower_name(62)[0]);
    }
    if j == 18 {
        assert(lower_name(18)[0] != lower_name(62)[0]);
    }
    if j == 22 {
        assert(lower_name(22)[0] != lower_name(62)[0]);
    }
    if j == 26 {
        assert(lower_name(26)[0] != lower_name(62)[0]);
    }
    if j == 36 {
        assert(lower_name(36)[0] != lower_name(62)[0]);
    }
    if j == 44 {
        assert(lower_name(44)[0] != lower_name(62)[0]);
    }
    if j == 61 {
        assert(lower_name(61)[0] != lower_name(62)[0]);
    }
}

/// No book before position 63 has its lowercase name.
proof fn lemma_distinct_below_63(j: int)
    requires
        0 <= j < 63,
    ensures
        lower_name(j) != lower_name(63),
{
    if j == 1 {
        assert(lower_name(1)[0] != lower_name(63)[0]);
    }
    if j == 5 {
        assert(lower_name(5)[0] != lower_name(63)[0]);
    }
    if j == 6 {
        assert(lower_name(6)[0] != lower_name(63)[0]);
    }
    if j == 16 {
        assert(lower_name(16)[0] != lower_name(63)[0]);
    }
    if j == 18 {
        assert(lower_name(18)[0] != lower_name(63)[0]);
    }
    if j == 22 {
        assert(lower_name(22)[0] != lower_name(63)[0]);
    }
    if j == 26 {
        assert(lower_name(26)[0] != lower_name(63)[0]);
    }
    if j == 36 {
        assert(lower_name(36)[0] != lower_name(63)[0]);
    }
    if j == 44 {
        assert(lower_name(44)[0] != lower_name(63)[0]);
    }
    if j == 61 {
        assert(lower_name(61)[0] != lower_name(63)[0]);
    }
    if j == 62 {
        assert(lower_name(62)[0] != lower_name(63)[0]);
    }
}

/// No book before position 64 has its lowercase name.
proof fn lemma_distinct_below_64(j: int)
    requires
        0 <= j < 64,
    ensures
        lower_name(j) != lower_name(64),
{
    if j == 7 {
        assert(lower_name(7)[0] != lower_name(64)[0]);
    }
    if j == 14 {
        assert(lower_name(14)[0] != lower_name(64)[0]);
    }
    if j == 28 {
        assert(lower_name(28)[1] != lower_name(64)[1]);
    }
    if j == 29 {
        assert(lower_name(29)[0] != lower_name(64)[0]);
    }
    if j == 40 {
        assert(lower_name(40)[0] != lower_name(64)[0]);
    }
    if j == 41 {
        assert(lower_name(41)[0] != lower_name(64)[0]);
    }
    if j == 42 {
        assert(lower_name(42)[1] != lower_name(64)[1]);
    }
    if j == 43 {
        assert(lower_name(43)[0] != lower_name(64)[0]);
    }
}

/// No book before position 65 has its lowercase name.
proof fn lemma_distinct_below_65(j: int)
    requires
        0 <= j < 65,
    ensures
        lower_name(j) != lower_name(65),
{
    if j == 50 {
        assert(lower_name(50)[0] != lower_name(65)[0]);
    }
}

/// Different canonical books have different lowercase names.
proof fn lemma_distinct(j: int, n: int)
    requires
        0 <= j < n < 66,
    ensures
        lower_name(j) != lower_name(n),
{
    if n == 1 {
        lemma_distinct_below_1(j);
    } else if n == 2 {
        lemma_distinct_below_2(j);
    } else if n == 3 {
        lemma_distinct_below_3(j);
    } else if n == 4 {
        lemma_distinct_below_4(j);
    } else if n == 5 {
        lemma_distinct_below_5(j);
    } else if n == 6 {
        lemma_distinct_below_6(j);
    } else if n == 7 {
        lemma_distinct_below_7(j);
    } else if n == 8 {
        lemma_distinct_below_8(j);
    } else if n == 9 {
        lemma_distinct_below_9(j);
    } else if n == 10 {
        lemma_distinct_below_10(j);
    } else if n == 11 {
        lemma_distinct_below_11(j);
    } else if n == 12 {
        lemma_distinct_below_12(j);
    } else if n == 13 {
        lemma_distinct_below_13(j);
    } else if n == 14 {
        lemma_distinct_below_14(j);
    } else if n == 15 {
        lemma_distinct_below_15(j);
    } else if n == 16 {
        lemma_distinct_below_16(j);
    } else if n == 17 {
        lemma_distinct_below_17(j);
    } else if n == 18 {
        lemma_distinct_below_18(j);
    } else if n == 19 {
        lemma_distinct_below_19(j);
    } else if n == 20 {
        lemma_distinct_below_20(j);
    } else if n == 21 {
        lemma_distinct_below_21(j);
    } else if n == 22 {
        lemma_distinct_below_22(j);
    } else if n == 23 {
        lemma_distinct_below_23(j);
    } else if n == 24 {
        lemma_distinct_below_24(j);
    } else if n == 25 {
        lemma_distinct_below_25(j);
    } else if n == 26 {
        lemma_distinct_below_26(j);
    } else if n == 27 {
        lemma_distinct_below_27(j);
    } else if n == 28 {
        lemma_distinct_below_28(j);
    } else if n == 29 {
        lemma_distinct_below_29(j);
    } else if n == 30 {
        lemma_distinct_below_30(j);
    } else if n == 31 {
        lemma_distinct_below_31(j);
    } else if n == 32 {
        lemma_distinct_below_32(j);
    } else if n == 33 {
        lemma_distinct_below_33(j);
    } else if n == 34 {
        lemma_distinct_below_34(j);
    } else if n == 35 {
        lemma_distinct_below_35(j);
    } else if n == 36 {
        lemma_distinct_below_36(j);
    } else if n == 37 {
        lemma_distinct_below_37(j);
    } else if n == 38 {
        lemma_distinct_below_38(j);
    } else if n == 39 {
        lemma_distinct_below_39(j);
    } else if n == 40 {
        lemma_distinct_below_40(j);
    } else if n == 41 {
        lemma_distinct_below_41(j);
    } else if n == 42 {
        lemma_distinct_below_42(j);
    } else if n == 43 {
        lemma_distinct_below_43(j);
    } else if n == 44 {
        lemma_distinct_below_44(j);
    } else if n == 45 {
        lemma_distinct_below_45(j);
    } else if n == 46 {
        lemma_distinct_below_46(j);
    } else if n == 47 {
        lemma_distinct_below_47(j);
    } else if n == 48 {
        lemma_distinct_below_48(j);
    } else if n == 49 {
        lemma_distinct_below_49(j);
    } else if n == 50 {
        lemma_distinct_below_50(j);
    } else if n == 51 {
        lemma_distinct_below_51(j);
    } else if n == 52 {
        lemma_distinct_below_52(j);
    } else if n == 53 {
        lemma_distinct_below_53(j);
    } else if n == 54 {
        lemma_distinct_below_54(j);
    } else if n == 55 {
        lemma_distinct_below_55(j);
    } else if n == 56 {
        lemma_distinct_below_56(j);
    } else if n == 57 {
        lemma_distinct_below_57(j);
    } else if n == 58 {
        lemma_distinct_below_58(j);
    } else if n == 59 {
        lemma_distinct_below_59(j);
    } else if n == 60 {
        lemma_distinct_below_60(j);
    } else if n == 61 {
        lemma_distinct_below_61(j);
    } else if n == 62 {
        lemma_distinct_below_62(j);
    } else if n == 63 {
        lemma_distinct_below_63(j);
    } else if n == 64 {
        lemma_distinct_below_64(j);
    } else {
        lemma_distinct_below_65(j);
    }
}

/// A canonical name resolves to its own book whatever the case of its
/// letters: an ASCII name that differs from the canonical name of the book
/// at position `n` only in letter case ("JOHN", "1 john", "song of
/// solomon") resolves to that book, never to a fuzzy neighbour.
pub proof fn lemma_canonical_name_resolves(n: int, input: Seq<char>)
    requires
        0 <= n < 66,
        all_ascii(input),
        ascii_lowercase(input) == ascii_lowercase(canonical_name(n)@),
    ensures
        resolution(input) == Some(n),
{
    let x = canonical_name(n)@;
    lemma_lower_name(n);
    lemma_resolution_ignores_ascii_case(input, x);
    lemma_no_ordinals(n);
    lemma_normalize_plain_ascii(x);
    assert(ordinals_normalized(x) == lower_name(n));
    assert forall|j: int| 0 <= j < n implies !names_book(x, j) by {
        lemma_lower_name(j);
        lemma_distinct(j, n);
    }
    lemma_first_exact_skip(x, n as nat);
    assert(names_book(x, n));
    assert(first_exact_from(x, n as nat) == Some(n));
}

} // verus!

//! Character-level text operations: the views of strings as sequences of
//! chars, replacement of a pattern, decimal numerals and lowercase.
use vstd::prelude::*;

verus! {

/// The lowercase form of a string that is not all ASCII, as
/// `str::to_lowercase` computes it (Unicode lowercase mapping).
pub uninterp spec fn unicode_lowercase(s: Seq<char>) -> Seq<char>;

/// `c` is an ASCII character.
pub open spec fn ascii(c: char) -> bool {
    (c as u32) < 128
}

/// Every character of `s` is ASCII.
pub open spec fn all_ascii(s: Seq<char>) -> bool {
    forall|i: int| 0 <= i < s.len() ==> ascii(#[trigger] s[i])
}

/// `c` with an ASCII capital letter made small.
pub open spec fn ascii_lower(c: char) -> char {
    if 'A' <= c <= 'Z' {
        ((c as u32) + 32) as char
    } else {
        c
    }
}

/// `s` with its ASCII capital letters made small, character by character.
pub open spec fn ascii_lowercase(s: Seq<char>) -> Seq<char> {
    s.map_values(|c: char| ascii_lower(c))
}

/// The lowercase form of `s`, as `str::to_lowercase` computes it: on ASCII
/// text, each capital letter becomes its small letter and every other
/// character stays; otherwise the Unicode lowercase mapping.
pub open spec fn lowercase_of(s: Seq<char>) -> Seq<char> {
    if all_ascii(s) {
        ascii_lowercase(s)
    } else {
        unicode_lowercase(s)
    }
}

/// The chars of `s`, in order.
pub fn chars_of(s: &str) -> (r: Vec<char>)
    ensures
        r@ == s@,
{
    let mut r: Vec<char> = Vec::new();
    for c in it: s.chars()
        invariant
            r@ == it.seq().take(it.index() as int),
            it.seq() == s@,
    {
        r.push(c);
        proof {
            assert(it.seq().take(it.index() + 1) == it.seq().take(it.index() as int).push(c));
        }
    }
    proof {
        assert(s@.take(s@.len() as int) == s@);
    }
    r
}

/// Calls `str::to_lowercase`: the lowercase form of `s`. Trusted: on
/// ASCII text each capital letter becomes its small letter and every other
/// character stays (Unicode maps ASCII so, and `to_lowercase` applies
/// that mapping); other text gives the named `unicode_lowercase(s)`.
#[verifier::external_body]
pub(crate) fn lowercase(s: &str) -> (r: Vec<char>)
    ensures
        r@ == lowercase_of(s@),
        !all_ascii(s@) ==> r@ == unicode_lowercase(s@),
{
    s.to_lowercase().chars().collect()
}

/// The string made of the chars `v` (`String::from_iter`).
#[verifier::external_body]
pub(crate) fn string_of(v: Vec<char>) -> (r: String)
    ensures
        r@ == v@,
{
    String::from_iter(v)
}

/// Whether two char sequences are equal.
pub fn same_chars(a: &Vec<char>, b: &Vec<char>) -> (r: bool)
    ensures
        r == (a@ == b@),
{
    if a.len() != b.len() {
        return false;
    }
    let mut i: usize = 0;
    while i < a.len()
        invariant
            i <= a.len(),
            a.len() == b.len(),
            forall|j: int| 0 <= j < i ==> a@[j] == b@[j],
        decreases a.len() - i,
    {
        if a[i] != b[i] {
            return false;
        }
        i = i + 1;
    }
    proof {
        assert(a@ =~= b@);
    }
    true
}

/// `s` with every occurrence of the non-empty `pat`, scanned from the left
/// without overlap, replaced by `with` (what `str::replace` computes).
pub open spec fn replaced(s: Seq<char>, pat: Seq<char>, with: Seq<char>) -> Seq<char>
    decreases s.len(),
{
    if s.len() == 0 {
        s
    } else if 0 < pat.len() <= s.len() && s.take(pat.len() as int) == pat {
        with + replaced(s.skip(pat.len() as int), pat, with)
    } else {
        seq![s[0]] + replaced(s.skip(1), pat, with)
    }
}

/// `pat` occurs somewhere in `s`.
pub open spec fn occurs_in(s: Seq<char>, pat: Seq<char>) -> bool {
    exists|i: int| 0 <= i && i + pat.len() <= s.len() && #[trigger] s.subrange(i, i + pat.len()) == pat
}

/// Replacing a pattern that does not occur changes nothing.
pub proof fn lemma_replaced_absent(s: Seq<char>, pat: Seq<char>, with: Seq<char>)
    requires
        pat.len() > 0,
        !occurs_in(s, pat),
    ensures
        replaced(s, pat, with) == s,
    decreases s.len(),
{
    if s.len() > 0 {
        if pat.len() <= s.len() && s.take(pat.len() as int) == pat {
            assert(s.subrange(0int, 0int + pat.len()) == pat);
            assert(occurs_in(s, pat));
        } else {
            let rest = s.skip(1);
            assert(!occurs_in(rest, pat)) by {
                if occurs_in(rest, pat) {
                    let i = choose|i: int| 0 <= i && i + pat.len() <= rest.len() && #[trigger] rest.subrange(i, i + pat.len()) == pat;
                    assert(s.subrange(i + 1, i + 1 + pat.len()) == rest.subrange(i, i + pat.len()));
                }
            }
            lemma_replaced_absent(rest, pat, with);
            assert(replaced(s, pat, with) == seq![s[0]] + replaced(rest, pat, with));
            assert(seq![s[0]] + rest =~= s);
        }
    }
}

/// `c` is a decimal digit.
pub open spec fn is_digit(c: char) -> bool {
    '0' <= c <= '9'
}

/// A replacement text made of one digit and a space.
pub open spec fn digit_space(w: Seq<char>) -> bool {
    w.len() == 2 && is_digit(w[0]) && w[1] == ' '
}

/// A pattern that a digit-and-space replacement cannot help to form: it
/// does not start with a space, its second character is neither a digit
/// nor a space, and no character after the first is a digit.
pub open spec fn word_shape(q: Seq<char>) -> bool {
    &&& q.len() >= 2
    &&& q[0] != ' '
    &&& q[1] != ' '
    &&& forall|i: int| 1 <= i < q.len() ==> !is_digit(#[trigger] q[i])
}

/// Every character of `s` has the property `p`.
pub open spec fn all_chars(s: Seq<char>, p: spec_fn(char) -> bool) -> bool {
    forall|i: int| 0 <= i < s.len() ==> p(#[trigger] s[i])
}

/// Replacing keeps a property that the text and the replacement have at
/// every character.
pub proof fn lemma_replaced_chars(
    s: Seq<char>,
    pat: Seq<char>,
    with: Seq<char>,
    p: spec_fn(char) -> bool,
)
    requires
        all_chars(s, p),
        all_chars(with, p),
    ensures
        all_chars(replaced(s, pat, with), p),
    decreases s.len(),
{
    if s.len() > 0 {
        let out = replaced(s, pat, with);
        if 0 < pat.len() <= s.len() && s.take(pat.len() as int) == pat {
            let rest = s.skip(pat.len() as int);
            assert(all_chars(rest, p)) by {
                assert forall|i: int| 0 <= i < rest.len() implies p(#[trigger] rest[i]) by {
                    assert(rest[i] == s[i + pat.len()]);
                }
            }
            lemma_replaced_chars(rest, pat, with, p);
            assert forall|i: int| 0 <= i < out.len() implies p(#[trigger] out[i]) by {
                if i >= with.len() {
                    assert(out[i] == replaced(rest, pat, with)[i - with.len()]);
                }
            }
        } else {
            let rest = s.skip(1);
            assert(all_chars(rest, p)) by {
                assert forall|i: int| 0 <= i < rest.len() implies p(#[trigger] rest[i]) by {
                    assert(rest[i] == s[i + 1]);
                }
            }
            lemma_replaced_chars(rest, pat, with, p);
            assert forall|i: int| 0 <= i < out.len() implies p(#[trigger] out[i]) by {
                if i >= 1 {
                    assert(out[i] == replaced(rest, pat, with)[i - 1]);
                }
            }
        }
    }
}

/// A prefix of a replacement's result without digits was not touched by a
/// digit-and-space replacement: it is the same prefix of the text.
proof fn lemma_digitless_prefix(s: Seq<char>, pat: Seq<char>, with: Seq<char>, l: int)
    requires
        pat.len() > 0,
        digit_space(with),
        0 <= l <= replaced(s, pat, with).len(),
        forall|i: int| 0 <= i < l ==> !is_digit(#[trigger] replaced(s, pat, with)[i]),
    ensures
        l <= s.len(),
        replaced(s, pat, with).take(l) == s.take(l),
    decreases s.len(),
{
    let out = replaced(s, pat, with);
    if l > 0 {
        if pat.len() <= s.len() && s.take(pat.len() as int) == pat {
            assert(out[0] == with[0]);
        } else {
            let rest = s.skip(1);
            let r = replaced(rest, pat, with);
            assert(out == seq![s[0]] + r);
            assert forall|i: int| 0 <= i < l - 1 implies !is_digit(#[trigger] r[i]) by {
                assert(r[i] == out[i + 1]);
            }
            lemma_digitless_prefix(rest, pat, with, l - 1);
            assert(out.take(l) =~= seq![s[0]] + r.take(l - 1));
            assert(s.take(l) =~= seq![s[0]] + rest.take(l - 1));
        }
    }
}

/// A digit-and-space replacement forms no new occurrence of a pattern of
/// word shape: whatever occurs in the result occurred in the text.
pub proof fn lemma_replaced_no_new(s: Seq<char>, pat: Seq<char>, with: Seq<char>, q: Seq<char>)
    requires
        pat.len() > 0,
        digit_space(with),
        word_shape(q),
        occurs_in(replaced(s, pat, with), q),
    ensures
        occurs_in(s, q),
    decreases s.len(),
{
    let out = replaced(s, pat, with);
    let p = choose|p: int| 0 <= p && p + q.len() <= out.len() && #[trigger] out.subrange(p, p + q.len()) == q;
    assert(out[p] == q[0] && out[p + 1] == q[1]) by {
        assert(out.subrange(p, p + q.len())[0] == out[p]);
        assert(out.subrange(p, p + q.len())[1] == out[p + 1]);
    }
    if s.len() == 0 {
    } else if pat.len() <= s.len() && s.take(pat.len() as int) == pat {
        let rest = s.skip(pat.len() as int);
        let r = replaced(rest, pat, with);
        assert(out == with + r);
        if p == 0 {
            assert(out[1] == with[1]);
        } else if p == 1 {
            assert(out[1] == with[1]);
        } else {
            assert(r.subrange(p - 2, p - 2 + q.len()) =~= out.subrange(p, p + q.len()));
            lemma_replaced_no_new(rest, pat, with, q);
            let k = choose|k: int| 0 <= k && k + q.len() <= rest.len() && #[trigger] rest.subrange(k, k + q.len()) == q;
            assert(s.subrange(k + pat.len(), k + pat.len() + q.len()) =~= rest.subrange(k, k + q.len()));
        }
    } else {
        let rest = s.skip(1);
        let r = replaced(rest, pat, with);
        assert(out == seq![s[0]] + r);
        if p >= 1 {
            assert(r.subrange(p - 1, p - 1 + q.len()) =~= out.subrange(p, p + q.len()));
            lemma_replaced_no_new(rest, pat, with, q);
            let k = choose|k: int| 0 <= k && k + q.len() <= rest.len() && #[trigger] rest.subrange(k, k + q.len()) == q;
            assert(s.subrange(k + 1, k + 1 + q.len()) =~= rest.subrange(k, k + q.len()));
        } else {
            let l = q.len() - 1;
            assert forall|i: int| 0 <= i < l implies !is_digit(#[trigger] r[i]) by {
                assert(r[i] == out[i + 1]);
                assert(out.subrange(0, q.len() as int)[i + 1] == q[i + 1]);
            }
            lemma_digitless_prefix(rest, pat, with, l);
            assert(s.subrange(0, q.len() as int) =~= q) by {
                assert forall|i: int| 0 <= i < q.len() implies #[trigger] s.subrange(0, q.len() as int)[i] == q[i] by {
                    assert(out.subrange(0, q.len() as int)[i] == q[i]);
                    if i >= 1 {
                        assert(r.take(l)[i - 1] == rest.take(l)[i - 1]);
                        assert(r[i - 1] == out[i]);
                        assert(rest[i - 1] == s[i]);
                    }
                }
            }
            assert(s.subrange(0int, 0int + q.len()) == q);
        }
    }
}

/// A digit-and-space replacement of a pattern of word shape leaves no
/// occurrence of the pattern.
pub proof fn lemma_replaced_removes(s: Seq<char>, pat: Seq<char>, with: Seq<char>)
    requires
        digit_space(with),
        word_shape(pat),
    ensures
        !occurs_in(replaced(s, pat, with), pat),
    decreases s.len(),
{
    let out = replaced(s, pat, with);
    if occurs_in(out, pat) && s.len() > 0 {
        let p = choose|p: int| 0 <= p && p + pat.len() <= out.len() && #[trigger] out.subrange(p, p + pat.len()) == pat;
        assert(out[p] == pat[0] && out[p + 1] == pat[1]) by {
            assert(out.subrange(p, p + pat.len())[0] == out[p]);
            assert(out.subrange(p, p + pat.len())[1] == out[p + 1]);
        }
        if pat.len() <= s.len() && s.take(pat.len() as int) == pat {
            let rest = s.skip(pat.len() as int);
            let r = replaced(rest, pat, with);
            assert(out == with + r);
            if p >= 2 {
                assert(r.subrange(p - 2, p - 2 + pat.len()) =~= out.subrange(p, p + pat.len()));
                lemma_replaced_removes(rest, pat, with);
            } else {
                assert(out[1] == with[1]);
            }
        } else {
            let rest = s.skip(1);
            let r = replaced(rest, pat, with);
            assert(out == seq![s[0]] + r);
            if p >= 1 {
                assert(r.subrange(p - 1, p - 1 + pat.len()) =~= out.subrange(p, p + pat.len()));
                lemma_replaced_removes(rest, pat, with);
            } else {
                let l = pat.len() - 1;
                assert forall|i: int| 0 <= i < l implies !is_digit(#[trigger] r[i]) by {
                    assert(r[i] == out[i + 1]);
                    assert(out.subrange(0, pat.len() as int)[i + 1] == pat[i + 1]);
                }
                lemma_digitless_prefix(rest, pat, with, l);
                assert(s.take(pat.len() as int) =~= pat) by {
                    assert forall|i: int| 0 <= i < pat.len() implies #[trigger] s.take(pat.len() as int)[i] == pat[i] by {
                        assert(out.subrange(0, pat.len() as int)[i] == pat[i]);
                        if i >= 1 {
                            assert(r.take(l)[i - 1] == rest.take(l)[i - 1]);
                            assert(r[i - 1] == out[i]);
                            assert(rest[i - 1] == s[i]);
                        }
                    }
                }
            }
        }
    } else if occurs_in(out, pat) {
        let p = choose|p: int| 0 <= p && p + pat.len() <= out.len() && #[trigger] out.subrange(p, p + pat.len()) == pat;
    }
}

/// Whether `pat` occurs in `s` at position `i`.
fn occurs_at(s: &Vec<char>, i: usize, pat: &Vec<char>) -> (r: bool)
    requires
        i <= s.len(),
    ensures
        r == (pat.len() <= s.len() - i && s@.skip(i as int).take(pat.len() as int) == pat@),
{
    if pat.len() > s.len() - i {
        return false;
    }
    let mut j: usize = 0;
    while j < pat.len()
        invariant
            j <= pat.len(),
            pat.len() <= s.len() - i,
            forall|k: int| 0 <= k < j ==> s@[i + k] == pat@[k],
        decreases pat.len() - j,
    {
        if s[i + j] != pat[j] {
            assert(s@.skip(i as int).take(pat.len() as int)[j as int] == s@[i + j]);
            return false;
        }
        j = j + 1;
    }
    proof {
        assert(s@.skip(i as int).take(pat.len() as int) =~= pat@);
    }
    true
}

/// `s` with every occurrence of `pat` replaced by `with`.
pub fn replace_all(s: &Vec<char>, pat: &Vec<char>, with: &Vec<char>) -> (r: Vec<char>)
    requires
        pat.len() > 0,
    ensures
        r@ == replaced(s@, pat@, with@),
{
    let mut out: Vec<char> = Vec::new();
    let mut i: usize = 0;
    assert(s@.skip(0) == s@);
    while i < s.len()
        invariant
            i <= s.len(),
            pat.len() > 0,
            out@ + replaced(s@.skip(i as int), pat@, with@) == replaced(s@, pat@, with@),
        decreases s.len() - i,
    {
        let ghost rest = s@.skip(i as int);
        if occurs_at(s, i, pat) {
            let mut k: usize = 0;
            let ghost start = out@;
            while k < with.len()
                invariant
                    k <= with.len(),
                    out@ == start + with@.take(k as int),
                decreases with.len() - k,
            {
                out.push(with[k]);
                k = k + 1;
                proof {
                    assert(out@ == start + with@.take(k as int));
                }
            }
            proof {
                assert(with@.take(with.len() as int) == with@);
                assert(rest.skip(pat.len() as int) == s@.skip(i + pat.len()));
                assert(start + (with@ + replaced(rest.skip(pat.len() as int), pat@, with@)) == (
                start + with@) + replaced(rest.skip(pat.len() as int), pat@, with@));
            }
            i = i + pat.len();
        } else {
            let c = s[i];
            let ghost start = out@;
            out.push(c);
            proof {
                assert(rest[0] == c);
                assert(rest.skip(1) == s@.skip(i + 1));
                assert(start + (seq![c] + replaced(rest.skip(1), pat@, with@)) == start.push(c)
                    + replaced(rest.skip(1), pat@, with@));
            }
            i = i + 1;
        }
    }
    proof {
        assert(s@.skip(s.len() as int).len() == 0);
        assert(out@ + replaced(s@.skip(i as int), pat@, with@) == out@);
    }
    out
}

/// The decimal digit `d` as a char.
pub open spec fn digit_char(d: int) -> char {
    if d == 0 {
        '0'
    } else if d == 1 {
        '1'
    } else if d == 2 {
        '2'
    } else if d == 3 {
        '3'
    } else if d == 4 {
        '4'
    } else if d == 5 {
        '5'
    } else if d == 6 {
        '6'
    } else if d == 7 {
        '7'
    } else if d == 8 {
        '8'
    } else {
        '9'
    }
}

/// The decimal numeral of `n`, without leading zeros (what `u32`'s
/// `Display` writes).
pub open spec fn decimal(n: nat) -> Seq<char>
    decreases n,
{
    if n < 10 {
        seq![digit_char(n as int)]
    } else {
        decimal(n / 10).push(digit_char((n % 10) as int))
    }
}

fn digit(d: u32) -> (c: char)
    requires
        d < 10,
    ensures
        c == digit_char(d as int),
{
    if d == 0 {
        '0'
    } else if d == 1 {
        '1'
    } else if d == 2 {
        '2'
    } else if d == 3 {
        '3'
    } else if d == 4 {
        '4'
    } else if d == 5 {
        '5'
    } else if d == 6 {
        '6'
    } else if d == 7 {
        '7'
    } else if d == 8 {
        '8'
    } else {
        '9'
    }
}

/// Appends the decimal numeral of `n` to `out`.
pub fn push_decimal(out: &mut Vec<char>, n: u32)
    ensures
        final(out)@ == old(out)@ + decimal(n as nat),
    decreases n,
{
    if n >= 10 {
        push_decimal(out, n / 10);
    }
    out.push(digit(n % 10));
    proof {
        if n < 10 {
            assert(n % 10 == n);
        }
    }
}

/// Appends the chars of `s` to `out`.
pub fn push_str(out: &mut Vec<char>, s: &str)
    ensures
        final(out)@ == old(out)@ + s@,
{
    let cs = chars_of(s);
    let mut i: usize = 0;
    let ghost start = out@;
    while i < cs.len()
        invariant
            i <= cs.len(),
            cs@ == s@,
            out@ == start + cs@.take(i as int),
        decreases cs.len() - i,
    {
        out.push(cs[i]);
        i = i + 1;
        proof {
            assert(out@ == start + cs@.take(i as int));
        }
    }
    proof {
        assert(cs@.take(cs.len() as int) == cs@);
    }
}

} // verus!

//! Arbitrary-precision natural numbers, stored as little-endian vectors of
//! 64-bit limbs. Reciprocal Rank Fusion scores are sums of unit fractions,
//! and comparing two of them exactly needs more bits than any machine word.
use vstd::prelude::*;

verus! {

/// The radix of one limb: 2^64.
pub open spec fn radix() -> int {
    0x1_0000_0000_0000_0000
}

/// `radix()` to the power `k`.
pub open spec fn radix_pow(k: nat) -> int
    decreases k,
{
    if k == 0 {
        1
    } else {
        radix() * radix_pow((k - 1) as nat)
    }
}

/// The limb at position `i`, with every position past the end read as zero.
pub open spec fn limb(s: Seq<u64>, i: int) -> int {
    if 0 <= i < s.len() {
        s[i] as int
    } else {
        0
    }
}

/// The number formed by the lowest `k` limbs of `s`.
pub open spec fn low_value(s: Seq<u64>, k: nat) -> int
    decreases k,
{
    if k == 0 {
        0
    } else {
        low_value(s, (k - 1) as nat) + limb(s, k - 1) * radix_pow((k - 1) as nat)
    }
}

/// The number that the limbs `s` stand for.
pub open spec fn value(s: Seq<u64>) -> int {
    low_value(s, s.len())
}

/// Every power of the radix is positive.
proof fn lemma_radix_pow_positive(k: nat)
    ensures
        radix_pow(k) > 0,
    decreases k,
{
    if k > 0 {
        lemma_radix_pow_positive((k - 1) as nat);
        let p = radix_pow((k - 1) as nat);
        assert(radix() * p > 0) by (nonlinear_arith)
            requires
                p > 0,
                radix() > 0,
        ;
    }
}

/// The lowest `k` limbs stand for a number in `[0, radix^k)`.
proof fn lemma_low_value_bounds(s: Seq<u64>, k: nat)
    ensures
        0 <= low_value(s, k) < radix_pow(k),
    decreases k,
{
    if k > 0 {
        let j = (k - 1) as nat;
        lemma_low_value_bounds(s, j);
        lemma_radix_pow_positive(j);
        let lo = low_value(s, j);
        let d = limb(s, j as int);
        let p = radix_pow(j);
        assert(0 <= d < radix());
        assert(0 <= lo + d * p < radix() * p) by (nonlinear_arith)
            requires
                0 <= lo < p,
                0 <= d < radix(),
                p > 0,
        ;
    }
}

/// Zero limbs past the end of `s` do not change its value.
proof fn lemma_low_value_past_end(s: Seq<u64>, k: nat)
    requires
        k >= s.len(),
    ensures
        low_value(s, k) == value(s),
    decreases k,
{
    if k > s.len() {
        lemma_low_value_past_end(s, (k - 1) as nat);
    }
}

/// `low_value` only reads the limbs below `k`.
proof fn lemma_low_value_agree(s: Seq<u64>, t: Seq<u64>, k: nat)
    requires
        forall|i: int| 0 <= i < k ==> limb(s, i) == limb(t, i),
    ensures
        low_value(s, k) == low_value(t, k),
    decreases k,
{
    if k > 0 {
        lemma_low_value_agree(s, t, (k - 1) as nat);
    }
}

/// Pushing a limb on top of `k` limbs adds it at weight radix^k.
proof fn lemma_push_limb(s: Seq<u64>, x: u64)
    ensures
        low_value(s.push(x), s.len()) == value(s),
        value(s.push(x)) == value(s) + x * radix_pow(s.len()),
{
    lemma_low_value_agree(s.push(x), s, s.len());
}

/// Splits a double-width number into its low and high limb.
proof fn lemma_split_wide(x: u128)
    ensures
        x as int == (x / 0x1_0000_0000_0000_0000u128) as int * radix() + (x
            % 0x1_0000_0000_0000_0000u128) as int,
        (x % 0x1_0000_0000_0000_0000u128) < 0x1_0000_0000_0000_0000u128,
        (x / 0x1_0000_0000_0000_0000u128) < 0x1_0000_0000_0000_0000u128,
{
    vstd::arithmetic::div_mod::lemma_fundamental_div_mod(x as int, radix());
    vstd::arithmetic::div_mod::lemma_mod_bound(x as int, radix());
    assert((x / 0x1_0000_0000_0000_0000u128) < 0x1_0000_0000_0000_0000u128) by (bit_vector);
}

/// The natural number zero.
pub fn zero() -> (r: Vec<u64>)
    ensures
        value(r@) == 0,
{
    Vec::new()
}

/// The natural number `x`.
pub fn from_u64(x: u64) -> (r: Vec<u64>)
    ensures
        value(r@) == x,
{
    let mut r: Vec<u64> = Vec::new();
    r.push(x);
    proof {
        lemma_push_limb(Seq::<u64>::empty(), x);
    }
    r
}

/// The sum of two natural numbers.
pub fn sum(a: &Vec<u64>, b: &Vec<u64>) -> (r: Vec<u64>)
    ensures
        value(r@) == value(a@) + value(b@),
{
    let n = if a.len() >= b.len() {
        a.len()
    } else {
        b.len()
    };
    let mut r: Vec<u64> = Vec::new();
    let mut carry: u64 = 0;
    let mut i: usize = 0;
    while i < n
        invariant
            i <= n,
            n >= a.len(),
            n >= b.len(),
            r.len() == i,
            carry <= 1,
            low_value(r@, i as nat) + carry * radix_pow(i as nat) == low_value(a@, i as nat)
                + low_value(b@, i as nat),
        decreases n - i,
    {
        let da: u64 = if i < a.len() {
            a[i]
        } else {
            0
        };
        let db: u64 = if i < b.len() {
            b[i]
        } else {
            0
        };
        assert(da as int == limb(a@, i as int));
        assert(db as int == limb(b@, i as int));
        let x: u128 = da as u128 + db as u128 + carry as u128;
        proof {
            lemma_split_wide(x);
        }
        let lo = (x % 0x1_0000_0000_0000_0000u128) as u64;
        let hi = (x / 0x1_0000_0000_0000_0000u128) as u64;
        assert(hi <= 1) by (bit_vector)
            requires
                x == da as u128 + db as u128 + carry as u128,
                carry <= 1,
                hi == (x / 0x1_0000_0000_0000_0000u128) as u64,
        ;
        proof {
            let ghost old_r = r@;
            lemma_push_limb(old_r, lo);
            let p = radix_pow(i as nat);
            let low_r = low_value(old_r, i as nat);
            assert(low_value(old_r.push(lo), (i + 1) as nat) == low_r + lo * p) by {
                lemma_low_value_agree(old_r.push(lo), old_r, i as nat);
            }
            assert(low_r + lo * p + hi * (radix() * p) == low_r + (lo + hi * radix()) * p)
                by (nonlinear_arith);
            assert(radix_pow((i + 1) as nat) == radix() * p);
            assert(low_value(a@, (i + 1) as nat) == low_value(a@, i as nat) + da * p);
            assert(low_value(b@, (i + 1) as nat) == low_value(b@, i as nat) + db * p);
            assert((lo + hi * radix()) * p == da * p + db * p + carry * p) by (nonlinear_arith)
                requires
                    lo + hi * radix() == da + db + carry,
            ;
        }
        r.push(lo);
        carry = hi;
        i = i + 1;
    }
    let ghost before = r@;
    r.push(carry);
    proof {
        lemma_push_limb(before, carry);
        lemma_low_value_past_end(a@, n as nat);
        lemma_low_value_past_end(b@, n as nat);
    }
    r
}

/// The product of a natural number and one limb.
pub fn scale(a: &Vec<u64>, m: u64) -> (r: Vec<u64>)
    ensures
        value(r@) == value(a@) * m,
{
    let n = a.len();
    let mut r: Vec<u64> = Vec::new();
    let mut carry: u64 = 0;
    let mut i: usize = 0;
    while i < n
        invariant
            i <= n,
            n == a.len(),
            r.len() == i,
            low_value(r@, i as nat) + carry * radix_pow(i as nat) == low_value(a@, i as nat) * m,
        decreases n - i,
    {
        let d = a[i];
        assert(d as int == limb(a@, i as int));
        assert((d as u128) * (m as u128) + (carry as u128) <= 0xffff_ffff_ffff_ffff_ffff_ffff_ffff_ffffu128)
            by (nonlinear_arith)
            requires
                d <= 0xffff_ffff_ffff_ffff,
                m <= 0xffff_ffff_ffff_ffff,
                carry <= 0xffff_ffff_ffff_ffff,
        ;
        let x: u128 = (d as u128) * (m as u128) + carry as u128;
        proof {
            lemma_split_wide(x);
        }
        let lo = (x % 0x1_0000_0000_0000_0000u128) as u64;
        let hi = (x / 0x1_0000_0000_0000_0000u128) as u64;
        proof {
            let ghost old_r = r@;
            lemma_push_limb(old_r, lo);
            let p = radix_pow(i as nat);
            let low_r = low_value(old_r, i as nat);
            let low_a = low_value(a@, i as nat);
            assert(low_value(old_r.push(lo), (i + 1) as nat) == low_r + lo * p) by {
                lemma_low_value_agree(old_r.push(lo), old_r, i as nat);
            }
            assert(low_r + lo * p + hi * (radix() * p) == (low_a + d * p) * m)
                by (nonlinear_arith)
                requires
                    low_r + carry * p == low_a * m,
                    x == d * m + carry,
                    x == hi * radix() + lo,
            ;
        }
        r.push(lo);
        carry = hi;
        i = i + 1;
    }
    let ghost before = r@;
    r.push(carry);
    proof {
        lemma_push_limb(before, carry);
    }
    r
}

/// `k` zero limbs followed by `s`.
spec fn shifted(s: Seq<u64>, k: nat) -> Seq<u64> {
    Seq::new(k, |i: int| 0u64) + s
}

proof fn lemma_shifted_value(s: Seq<u64>, k: nat, j: nat)
    ensures
        low_value(shifted(s, k), k + j) == low_value(s, j) * radix_pow(k),
    decreases j,
{
    let t = shifted(s, k);
    if j == 0 {
        lemma_zero_low_value(t, k);
    } else {
        let j1 = (j - 1) as nat;
        lemma_shifted_value(s, k, j1);
        lemma_radix_pow_adds(k, j1);
        assert(limb(t, (k + j1) as int) == limb(s, j1 as int));
        let a = low_value(s, j1);
        let d = limb(s, j1 as int);
        let pk = radix_pow(k);
        let pj = radix_pow(j1);
        assert(a * pk + d * (pk * pj) == (a + d * pj) * pk) by (nonlinear_arith);
    }
}

proof fn lemma_zero_low_value(t: Seq<u64>, k: nat)
    requires
        forall|i: int| 0 <= i < k ==> limb(t, i) == 0,
    ensures
        low_value(t, k) == 0,
    decreases k,
{
    if k > 0 {
        lemma_zero_low_value(t, (k - 1) as nat);
    }
}

proof fn lemma_radix_pow_adds(a: nat, b: nat)
    ensures
        radix_pow(a + b) == radix_pow(a) * radix_pow(b),
    decreases b,
{
    if b > 0 {
        let b1 = (b - 1) as nat;
        lemma_radix_pow_adds(a, b1);
        assert(radix_pow(a + b) == radix() * radix_pow(a + b1));
        let pa = radix_pow(a);
        let pb = radix_pow(b1);
        assert(radix() * (pa * pb) == pa * (radix() * pb)) by (nonlinear_arith);
    }
}

/// `s` times radix^k: `k` zero limbs in front of `s`.
fn shift_up(s: Vec<u64>, k: usize) -> (r: Vec<u64>)
    ensures
        value(r@) == value(s@) * radix_pow(k as nat),
{
    let mut r: Vec<u64> = Vec::new();
    let mut i: usize = 0;
    while i < k
        invariant
            i <= k,
            r@ == Seq::new(i as nat, |j: int| 0u64),
        decreases k - i,
    {
        r.push(0);
        i = i + 1;
    }
    let mut j: usize = 0;
    while j < s.len()
        invariant
            j <= s.len(),
            r@ == Seq::new(k as nat, |i: int| 0u64) + s@.take(j as int),
        decreases s.len() - j,
    {
        r.push(s[j]);
        j = j + 1;
        assert(r@ == Seq::new(k as nat, |i: int| 0u64) + s@.take(j as int));
    }
    proof {
        assert(s@.take(s.len() as int) == s@);
        assert(r@ == shifted(s@, k as nat));
        lemma_shifted_value(s@, k as nat, s.len() as nat);
    }
    r
}

/// The product of two natural numbers.
pub fn product(a: &Vec<u64>, b: &Vec<u64>) -> (r: Vec<u64>)
    ensures
        value(r@) == value(a@) * value(b@),
{
    let mut r = zero();
    let mut j: usize = 0;
    while j < b.len()
        invariant
            j <= b.len(),
            value(r@) == value(a@) * low_value(b@, j as nat),
        decreases b.len() - j,
    {
        let part = scale(a, b[j]);
        let moved = shift_up(part, j);
        r = sum(&r, &moved);
        proof {
            let va = value(a@);
            let lb = low_value(b@, j as nat);
            let d = b[j as int] as int;
            let p = radix_pow(j as nat);
            assert(limb(b@, j as int) == d);
            assert(va * lb + va * d * p == va * (lb + d * p)) by (nonlinear_arith);
        }
        j = j + 1;
    }
    r
}

/// Whether `a` stands for a larger number than `b`.
pub fn greater(a: &Vec<u64>, b: &Vec<u64>) -> (r: bool)
    ensures
        r == (value(a@) > value(b@)),
{
    let n = if a.len() >= b.len() {
        a.len()
    } else {
        b.len()
    };
    // Subtract a from b limb by limb; a borrow out of the top limb means a > b.
    let mut borrow: u64 = 0;
    let mut i: usize = 0;
    let ghost mut rest: int = 0;
    while i < n
        invariant
            i <= n,
            n >= a.len(),
            n >= b.len(),
            borrow <= 1,
            0 <= rest < radix_pow(i as nat),
            low_value(b@, i as nat) - low_value(a@, i as nat) == rest - borrow * radix_pow(
                i as nat,
            ),
        decreases n - i,
    {
        let da: u64 = if i < a.len() {
            a[i]
        } else {
            0
        };
        let db: u64 = if i < b.len() {
            b[i]
        } else {
            0
        };
        assert(da as int == limb(a@, i as int));
        assert(db as int == limb(b@, i as int));
        let next_borrow: u64;
        let ghost digit: int;
        if (db as u128) >= (da as u128) + (borrow as u128) {
            next_borrow = 0;
            proof {
                digit = db - da - borrow;
            }
        } else {
            next_borrow = 1;
            proof {
                digit = db + radix() - da - borrow;
            }
        }
        proof {
            let p = radix_pow(i as nat);
            assert(0 <= digit < radix());
            assert(0 <= rest + digit * p < radix() * p) by (nonlinear_arith)
                requires
                    0 <= rest < p,
                    0 <= digit < radix(),
                    p > 0,
            ;
            assert(rest - borrow * p + (db - da) * p == (rest + digit * p) - next_borrow * (
            radix() * p)) by (nonlinear_arith)
                requires
                    digit == db - da - borrow + next_borrow * radix(),
            ;
            assert(radix_pow((i + 1) as nat) == radix() * p);
            assert(low_value(a@, (i + 1) as nat) == low_value(a@, i as nat) + da * p);
            assert(low_value(b@, (i + 1) as nat) == low_value(b@, i as nat) + db * p);
            assert((db - da) * p == db * p - da * p) by (nonlinear_arith);
            rest = rest + digit * p;
        }
        borrow = next_borrow;
        i = i + 1;
    }
    proof {
        lemma_low_value_past_end(a@, n as nat);
        lemma_low_value_past_end(b@, n as nat);
    }
    borrow == 1
}

} // verus!

//! 64-bit arithmetic on pairs of 32-bit words, for devices without native 64-bit integers.
//!
//! A pair `(lo, hi)` stands for the word `lo + hi * 2^32`. Every operation is proved to give, bit
//! for bit, what the native `u64` operation gives.
use vstd::arithmetic::div_mod::*;
use vstd::arithmetic::mul::*;
use vstd::prelude::*;

verus! {

/// `(lo, hi)`: the two 32-bit halves of a 64-bit word.
pub type U64Emu = (u32, u32);

/// The word that a pair stands for.
pub open spec fn word(v: U64Emu) -> u64 {
    (v.0 + v.1 * 0x1_0000_0000) as u64
}

/// A pair is the shifted-and-or'ed form of its word.
proof fn lemma_word_bits(v: U64Emu)
    ensures
        word(v) == v.0 + v.1 * 0x1_0000_0000,
        word(v) == (v.0 as u64) | ((v.1 as u64) << 32),
{
    let (lo, hi) = v;
    assert((lo as u64) | ((hi as u64) << 32) == lo + hi * 0x1_0000_0000) by (bit_vector);
}

/// Splits a word into its halves.
pub fn to_emu(v: u64) -> (r: U64Emu)
    ensures
        word(r) == v,
{
    assert(v == (v as u32) + ((v >> 32) as u32) * 0x1_0000_0000) by (bit_vector);
    #[verifier::truncate]
    let lo: u32 = v as u32;
    (lo, (v >> 32) as u32)
}

/// Joins two halves into their word.
pub fn from_emu(v: U64Emu) -> (r: u64)
    ensures
        r == word(v),
{
    proof {
        lemma_word_bits(v);
    }
    (v.0 as u64) | ((v.1 as u64) << 32)
}

/// Bitwise exclusive or.
pub fn xor64(a: U64Emu, b: U64Emu) -> (r: U64Emu)
    ensures
        word(r) == word(a) ^ word(b),
{
    let r: U64Emu = (a.0 ^ b.0, a.1 ^ b.1);
    proof {
        lemma_word_bits(a);
        lemma_word_bits(b);
        lemma_word_bits(r);
        let (a0, a1) = a;
        let (b0, b1) = b;
        assert(((a0 ^ b0) as u64) | (((a1 ^ b1) as u64) << 32) == ((a0 as u64) | ((a1 as u64)
            << 32)) ^ ((b0 as u64) | ((b1 as u64) << 32))) by (bit_vector);
    }
    r
}

/// Sum of two halves and the carry out of it.
fn carrying_add(a: u32, b: u32) -> (r: (u32, u32))
    ensures
        r.0 + r.1 * 0x1_0000_0000 == a + b,
        r.1 <= 1,
{
    let sum: u32 = a.wrapping_add(b);
    if sum < a {
        (sum, 1)
    } else {
        (sum, 0)
    }
}

/// Addition modulo 2^64.
pub fn add64(a: U64Emu, b: U64Emu) -> (r: U64Emu)
    ensures
        word(r) == word(a).wrapping_add(word(b)),
{
    let (lo, carry): (u32, u32) = carrying_add(a.0, b.0);
    let hi: u32 = a.1.wrapping_add(b.1).wrapping_add(carry);
    (lo, hi)
}

/// Difference of two halves and the borrow into it.
fn borrowing_sub(a: u32, b: u32) -> (r: (u32, u32))
    ensures
        r.0 - r.1 * 0x1_0000_0000 == a - b,
        r.1 <= 1,
{
    let diff: u32 = a.wrapping_sub(b);
    if a < b {
        (diff, 1)
    } else {
        (diff, 0)
    }
}

/// Subtraction modulo 2^64.
pub fn sub64(a: U64Emu, b: U64Emu) -> (r: U64Emu)
    ensures
        word(r) == word(a).wrapping_sub(word(b)),
{
    let (lo, borrow): (u32, u32) = borrowing_sub(a.0, b.0);
    let hi: u32 = a.1.wrapping_sub(b.1).wrapping_sub(borrow);
    (lo, hi)
}

/// Logical right shift by `s` bits, for the shifts that stay inside one half.
pub fn shr64(a: U64Emu, s: u32) -> (r: U64Emu)
    requires
        0 < s < 32,
    ensures
        word(r) == word(a) >> s,
{
    let lo: u32 = (a.0 >> s) | (a.1 << (32 - s));
    let hi: u32 = a.1 >> s;
    proof {
        lemma_word_bits(a);
        lemma_word_bits((lo, hi));
        let (a0, a1) = a;
        assert((((a0 >> s) | (a1 << ((32 - s) as u32))) as u64) | (((a1 >> s) as u64) << 32) == ((
        a0 as u64) | ((a1 as u64) << 32)) >> s) by (bit_vector)
            requires
                0 < s < 32,
        ;
    }
    (lo, hi)
}

/// The two halves of a 32x32-bit product.
fn mul_extended(a: u32, b: u32) -> (r: U64Emu)
    ensures
        word(r) == a * b,
{
    assert(a * b <= 0xffff_ffff * 0xffff_ffff) by (nonlinear_arith)
        requires
            a <= 0xffff_ffff,
            b <= 0xffff_ffff,
    ;
    to_emu((a as u64) * (b as u64))
}

/// The product of two words, written out over their halves.
proof fn lemma_product(a: U64Emu, b: U64Emu)
    ensures
        word(a) * word(b) == a.0 * b.0 + 0x1_0000_0000 * (a.0 * b.1 + a.1 * b.0)
            + 0x1_0000_0000_0000_0000 * (a.1 * b.1),
{
    lemma_word_bits(a);
    lemma_word_bits(b);
    let (a0, a1, b0, b1) = (a.0 as int, a.1 as int, b.0 as int, b.1 as int);
    assert((a0 + a1 * 0x1_0000_0000) * (b0 + b1 * 0x1_0000_0000) == a0 * b0 + 0x1_0000_0000 * (a0
        * b1 + a1 * b0) + 0x1_0000_0000_0000_0000 * (a1 * b1)) by (nonlinear_arith);
}

/// Multiplication modulo 2^64.
pub fn mul64(a: U64Emu, b: U64Emu) -> (r: U64Emu)
    ensures
        word(r) == word(a).wrapping_mul(word(b)),
{
    let (lo0, hi0): (u32, u32) = mul_extended(a.0, b.0);
    let cross: u32 = a.0.wrapping_mul(b.1).wrapping_add(a.1.wrapping_mul(b.0));
    let r: U64Emu = (lo0, hi0.wrapping_add(cross));
    proof {
        lemma_product(a, b);
        let p1 = a.0 * b.1;
        let p2 = a.1 * b.0;
        let p3 = a.1 * b.1;
        // The high half is hi0 + p1 + p2 up to a multiple of 2^32.
        let k1 = p1 / 0x1_0000_0000;
        let k2 = p2 / 0x1_0000_0000;
        assert(p1 == k1 * 0x1_0000_0000 + p1 % 0x1_0000_0000);
        assert(p2 == k2 * 0x1_0000_0000 + p2 % 0x1_0000_0000);
        let carry = (p1 % 0x1_0000_0000 + p2 % 0x1_0000_0000 - cross) / 0x1_0000_0000;
        let carry2 = (hi0 + cross - r.1) / 0x1_0000_0000;
        let k = k1 + k2 + carry + carry2 + p3;
        assert(word(a) * word(b) == word(r) + k * 0x1_0000_0000_0000_0000);
        lemma_mod_multiples_vanish(k, word(r) as int, 0x1_0000_0000_0000_0000);
    }
    r
}

/// The high 64 bits of the full 128-bit product.
pub fn mulhi64(a: U64Emu, b: U64Emu) -> (r: U64Emu)
    ensures
        word(r) == (word(a) * word(b)) / 0x1_0000_0000_0000_0000,
{
    let (p0_lo, p0_hi): (u32, u32) = mul_extended(a.0, b.0);
    let (p1_lo, p1_hi): (u32, u32) = mul_extended(a.0, b.1);
    let (p2_lo, p2_hi): (u32, u32) = mul_extended(a.1, b.0);
    let (p3_lo, p3_hi): (u32, u32) = mul_extended(a.1, b.1);

    // Bits 32..64: only the carry out of this column matters.
    let (col, c1): (u32, u32) = carrying_add(p0_hi, p1_lo);
    let (low, c2): (u32, u32) = carrying_add(col, p2_lo);
    let carry_to_hi: u32 = c1 + c2;

    // Bits 64..96.
    let (mid, c3): (u32, u32) = carrying_add(p1_hi, p2_hi);
    let (mid, c4): (u32, u32) = carrying_add(mid, p3_lo);
    let (mid, c5): (u32, u32) = carrying_add(mid, carry_to_hi);
    let carry_to_top: u32 = c3 + c4 + c5;

    // Bits 96..128.
    let top: u32 = p3_hi.wrapping_add(carry_to_top);
    proof {
        lemma_product(a, b);
        lemma_word_bits((p0_lo, p0_hi));
        lemma_word_bits((p1_lo, p1_hi));
        lemma_word_bits((p2_lo, p2_hi));
        lemma_word_bits((p3_lo, p3_hi));
        let rest = p0_lo + low * 0x1_0000_0000;
        let high = mid + (p3_hi + carry_to_top) * 0x1_0000_0000;
        let product = word(a) * word(b);
        assert(product == rest + high * 0x1_0000_0000_0000_0000);
        assert(product < 0x1_0000_0000_0000_0000 * 0x1_0000_0000_0000_0000) by (nonlinear_arith)
            requires
                product == word(a) * word(b),
                word(a) < 0x1_0000_0000_0000_0000,
                word(b) < 0x1_0000_0000_0000_0000,
        ;
        assert(high < 0x1_0000_0000_0000_0000);
        assert(top == p3_hi + carry_to_top);
        lemma_fundamental_div_mod_converse(product, 0x1_0000_0000_0000_0000, high, rest);
    }
    (mid, top)
}

/// Whether a word is at least the 32-bit number `d`.
pub fn wide_ge_u32(v: U64Emu, d: u32) -> (r: bool)
    ensures
        r == (word(v) >= d),
{
    v.1 != 0 || v.0 >= d
}

/// Subtracts a 32-bit number, modulo 2^64.
pub fn sub64_u32(v: U64Emu, d: u32) -> (r: U64Emu)
    ensures
        word(r) == word(v).wrapping_sub(d as u64),
{
    sub64(v, (d, 0))
}

/// Whether one word is below another.
pub fn lt64(a: U64Emu, b: U64Emu) -> (r: bool)
    ensures
        r == (word(a) < word(b)),
{
    if a.1 != b.1 {
        a.1 < b.1
    } else {
        a.0 < b.0
    }
}

/// Whether two words are the same.
pub fn eq64(a: U64Emu, b: U64Emu) -> (r: bool)
    ensures
        r == (word(a) == word(b)),
{
    a.0 == b.0 && a.1 == b.1
}

/// What one step of binary long division makes of the remainder: the next dividend bit comes in
/// at the right, and the divisor goes out once if it fits.
fn division_step(rem: u32, bit: u32, divisor: u32) -> (r: u32)
    requires
        bit <= 1,
        divisor < 0x8000_0000,
        divisor > 0 ==> rem < divisor,
    ensures
        divisor > 0 ==> r == (2 * rem + bit) % (divisor as int),
        divisor == 0 ==> r == (2 * rem + bit) % 0x1_0000_0000,
{
    proof {
        assert((rem << 1) | bit == (2 * rem + bit) % 0x1_0000_0000) by (bit_vector)
            requires
                bit <= 1,
        ;
    }
    let shifted: u32 = (rem << 1) | bit;
    if shifted >= divisor {
        proof {
            if divisor > 0 {
                lemma_fundamental_div_mod_converse(
                    2 * rem + bit,
                    divisor as int,
                    1,
                    shifted - divisor,
                );
            }
        }
        shifted - divisor
    } else {
        proof {
            lemma_small_mod((2 * rem + bit) as nat, divisor as nat);
        }
        shifted
    }
}

/// What long division of `x` has for its remainder: `x % divisor`, and the low half of `x` where
/// the divisor is zero, since then nothing is ever subtracted.
pub open spec fn long_division_remainder(x: u64, divisor: u32) -> u64 {
    if divisor == 0 {
        x % 0x1_0000_0000
    } else {
        x % (divisor as u64)
    }
}

/// The remainder after one more bit of `x` has come in.
proof fn lemma_division_step(x: u64, i: u64, divisor: u32, rem: u32, bit: u32, next: u32)
    requires
        i < 64,
        divisor < 0x8000_0000,
        bit == (x >> i) & 1,
        i < 63 ==> rem == long_division_remainder(x >> ((i + 1) as u64), divisor),
        i == 63 ==> rem == 0,
        divisor > 0 ==> next == (2 * rem + bit) % (divisor as int),
        divisor == 0 ==> next == (2 * rem + bit) % 0x1_0000_0000,
    ensures
        next == long_division_remainder(x >> i, divisor),
{
    let high: u64 = if i < 63 {
        x >> ((i + 1) as u64)
    } else {
        0
    };
    let cur: u64 = x >> i;
    let b: u64 = bit as u64;
    assert(cur == 2 * high + b) by {
        if i < 63 {
            assert(x >> i == 2 * (x >> ((i + 1) as u64)) + ((x >> i) & 1)) by (bit_vector)
                requires
                    i < 63,
            ;
        } else {
            assert(x >> 63 == (x >> 63) & 1) by (bit_vector);
        }
    }
    let d: int = if divisor == 0 {
        0x1_0000_0000
    } else {
        divisor as int
    };
    assert(rem == high as int % d);
    let q = high as int / d;
    lemma_fundamental_div_mod(high as int, d);
    assert(2 * high + b == 2 * rem + b + (2 * q) * d) by (nonlinear_arith)
        requires
            high == d * q + rem,
    ;
    lemma_mod_multiples_vanish(2 * q, 2 * rem + b, d);
    assert((2 * rem + b + (2 * q) * d) == d * (2 * q) + (2 * rem + b)) by (nonlinear_arith);
}

/// `dividend % divisor` by binary long division, from the top bit down.
///
/// Only divisors below 2^31 are served: the remainder is doubled at each step. With a divisor of
/// zero nothing is subtracted, and the low half of the dividend comes out.
pub fn mod64_emu(dividend: U64Emu, divisor: u32) -> (r: u32)
    requires
        divisor < 0x8000_0000,
    ensures
        r == long_division_remainder(word(dividend), divisor),
        divisor > 0 ==> r == word(dividend) % (divisor as u64),
        divisor == 0 ==> r == dividend.0,
{
    let ghost x = word(dividend);
    let (lo, hi) = dividend;
    proof {
        lemma_word_bits(dividend);
        assert(0u64 >> 0 == 0) by (bit_vector);
    }
    let mut rem: u32 = 0;
    let mut i: u32 = 32;
    while i > 0
        invariant
            i <= 32,
            divisor < 0x8000_0000,
            x == (lo as u64) | ((hi as u64) << 32),
            i < 32 ==> rem == long_division_remainder(x >> ((i + 32) as u64), divisor),
            i == 32 ==> rem == 0,
        decreases i,
    {
        i = i - 1;
        let bit: u32 = (hi >> i) & 1;
        proof {
            let j = (i + 32) as u64;
            assert(((hi >> i) & 1) == ((x >> j) & 1) && ((hi >> i) & 1) <= 1) by (bit_vector)
                requires
                    i < 32,
                    j == i + 32,
                    x == (lo as u64) | ((hi as u64) << 32),
            ;
        }
        let next: u32 = division_step(rem, bit, divisor);
        proof {
            lemma_division_step(x, (i + 32) as u64, divisor, rem, bit, next);
        }
        rem = next;
    }
    i = 32;
    while i > 0
        invariant
            i <= 32,
            divisor < 0x8000_0000,
            x == (lo as u64) | ((hi as u64) << 32),
            rem == long_division_remainder(x >> (i as u64), divisor),
        decreases i,
    {
        i = i - 1;
        let bit: u32 = (lo >> i) & 1;
        proof {
            assert(((lo >> i) & 1) == ((x >> (i as u64)) & 1) && ((lo >> i) & 1) <= 1)
                by (bit_vector)
                requires
                    i < 32,
                    x == (lo as u64) | ((hi as u64) << 32),
            ;
        }
        let next: u32 = division_step(rem, bit, divisor);
        proof {
            lemma_division_step(x, i as u64, divisor, rem, bit, next);
        }
        rem = next;
    }
    assert(x >> 0 == x) by (bit_vector);
    rem
}

/// The Barrett constant of a divisor: `floor(2^64 / divisor)`.
pub open spec fn barrett_mu(divisor: u32) -> int {
    0x1_0000_0000_0000_0000int / (divisor as int)
}

/// Computes the Barrett constant of a divisor, modulo 2^64 (which matters for a divisor of one).
pub fn compute_mu(divisor: u32) -> (r: U64Emu)
    requires
        divisor > 0,
    ensures
        word(r) == barrett_mu(divisor) % 0x1_0000_0000_0000_0000,
        divisor >= 2 ==> word(r) == barrett_mu(divisor),
{
    let mu: u128 = 0x1_0000_0000_0000_0000u128 / (divisor as u128);
    proof {
        assert(mu as u64 == mu % 0x1_0000_0000_0000_0000) by (bit_vector);
        assert(mu == barrett_mu(divisor));
        if divisor >= 2 {
            assert(mu < 0x1_0000_0000_0000_0000) by (nonlinear_arith)
                requires
                    mu == 0x1_0000_0000_0000_0000int / (divisor as int),
                    divisor >= 2,
            ;
            lemma_small_mod(mu as nat, 0x1_0000_0000_0000_0000);
        }
    }
    #[verifier::truncate]
    let low: u64 = mu as u64;
    to_emu(low)
}

/// What is left of `x` once the estimated quotient `floor(x * mu / 2^64)` has been taken out.
pub open spec fn barrett_estimate(x: u64, divisor: u32, mu: u64) -> u64 {
    let q = (x * mu / 0x1_0000_0000_0000_0000) as u64;
    x.wrapping_sub(q.wrapping_mul(divisor as u64))
}

/// `r` after `n` corrections, each of which takes the divisor out once where it fits.
pub open spec fn corrected(r: u64, divisor: u32, n: nat) -> u64
    decreases n,
{
    if n == 0 {
        r
    } else if r >= divisor {
        corrected((r - divisor) as u64, divisor, (n - 1) as nat)
    } else {
        corrected(r, divisor, (n - 1) as nat)
    }
}

/// What Barrett reduction with four corrections makes of `x`.
pub open spec fn barrett_residue(x: u64, divisor: u32, mu: u64) -> u64 {
    corrected(barrett_estimate(x, divisor, mu), divisor, 4)
}

/// With the divisor's own Barrett constant, the estimate exceeds the remainder by at most one
/// divisor: a single correction gives `x % divisor`, and further ones change nothing.
pub proof fn law_barrett_one_correction(x: u64, divisor: u32, mu: u64, n: nat)
    requires
        divisor >= 2,
        mu == barrett_mu(divisor),
        n >= 1,
    ensures
        barrett_estimate(x, divisor, mu) < 2 * divisor,
        corrected(barrett_estimate(x, divisor, mu), divisor, n) == x % (divisor as u64),
{
    let d = divisor as int;
    let w = 0x1_0000_0000_0000_0000int;
    let q = x * mu / w;
    let s = x * mu % w;
    lemma_fundamental_div_mod(w, d);
    let t = w % d;
    lemma_fundamental_div_mod(x * mu, w);
    assert(0 <= q <= x && q * d <= x && x - q * d < 2 * d) by (nonlinear_arith)
        requires
            x < w,
            x >= 0,
            d >= 2,
            mu >= 0,
            w == 0x1_0000_0000_0000_0000,
            w == d * mu + t,
            0 <= t < d,
            x * mu == w * q + s,
            0 <= s < w,
    {
        assert(mu <= w);
        // x * w == x * d * mu + x * t == d * (w * q + s) + x * t
        assert(x * w == x * (d * mu) + x * t);
        assert(x * (d * mu) == d * (x * mu));
        assert(d * (w * q + s) == (q * d) * w + d * s);
        assert(x * t >= 0 && d * s >= 0);
        assert((x - q * d) * w == d * s + x * t);
        assert(d * s < d * w);
        assert(x * t < w * d);
        assert((x - q * d) * w < (2 * d) * w);
        assert(x - q * d >= 0);
        assert(x - q * d < 2 * d);
        assert(q >= 0) by {
            if q <= -1 {
                assert(w * q <= -w);
                assert(x * mu >= 0);
            }
        }
        assert(q <= q * d);
    }
    let est = barrett_estimate(x, divisor, mu);
    assert(q as u64 == q);
    assert(est == x - q * d);
    if est < divisor {
        lemma_fundamental_div_mod_converse(x as int, d, q, est as int);
        lemma_corrected_settles(est, divisor, n);
    } else {
        let r = (est - divisor) as u64;
        assert(x == (q + 1) * d + r) by (nonlinear_arith)
            requires
                est == x - q * d,
                r == est - d,
        ;
        lemma_fundamental_div_mod_converse(x as int, d, q + 1, r as int);
        lemma_corrected_settles(r, divisor, (n - 1) as nat);
    }
}

/// A residue below the divisor is not corrected any further.
proof fn lemma_corrected_settles(r: u64, divisor: u32, n: nat)
    requires
        r < divisor,
    ensures
        corrected(r, divisor, n) == r,
    decreases n,
{
    if n > 0 {
        lemma_corrected_settles(r, divisor, (n - 1) as nat);
    }
}

/// Barrett reduction: `dividend % divisor` with wide multiplications in place of a bit-serial
/// division, where `mu` is the divisor's Barrett constant (see `compute_mu`).
///
/// Another `mu` is served as long as four corrections bring the residue down to 32 bits.
pub fn mod64_fast(dividend: U64Emu, divisor: u32, mu: U64Emu) -> (r: u32)
    requires
        divisor >= 2,
        word(mu) == barrett_mu(divisor) || barrett_residue(word(dividend), divisor, word(mu))
            < 0x1_0000_0000,
    ensures
        r == barrett_residue(word(dividend), divisor, word(mu)),
        word(mu) == barrett_mu(divisor) ==> r == word(dividend) % (divisor as u64),
{
    let q1: U64Emu = mulhi64(dividend, mu);
    let mut rest: U64Emu = sub64(dividend, mul64(q1, (divisor, 0)));
    let ghost x = word(dividend);
    let ghost m = word(mu);
    proof {
        if m == barrett_mu(divisor) {
            law_barrett_one_correction(x, divisor, m, 4);
        }
        assert(word(q1) == x * m / 0x1_0000_0000_0000_0000);
        assert(word((divisor, 0u32)) == divisor);
    }
    let mut left: u32 = 4;
    while left > 0
        invariant
            left <= 4,
            barrett_residue(x, divisor, m) == corrected(word(rest), divisor, left as nat),
        decreases left,
    {
        if wide_ge_u32(rest, divisor) {
            rest = sub64_u32(rest, divisor);
        }
        left = left - 1;
    }
    rest.0
}

/// A pair stands for its first half and 2^32 times its second, and two pairs stand for one word
/// only if they are the same.
pub proof fn law_word(v: U64Emu, w: U64Emu)
    ensures
        word(v) == v.0 + 0x1_0000_0000 * v.1,
        word(v) == word(w) ==> v == w,
{
}

/// The Barrett constant is as often as the divisor goes into 2^64 whole.
pub proof fn law_barrett_mu(divisor: u32)
    requires
        divisor > 0,
    ensures
        barrett_mu(divisor) * divisor <= 0x1_0000_0000_0000_0000,
        0x1_0000_0000_0000_0000 < (barrett_mu(divisor) + 1) * divisor,
{
    let w = 0x1_0000_0000_0000_0000int;
    let (d, m) = (divisor as int, barrett_mu(divisor));
    lemma_fundamental_div_mod(w, d);
    assert(m * d <= w && w < (m + 1) * d) by (nonlinear_arith)
        requires
            w == d * m + w % d,
            0 <= w % d < d,
    ;
}

/// A correction takes one divisor away, and only where it fits: what is left of four of them is
/// the same modulo the divisor, it is at most four divisors less, and if it is not below the
/// divisor all four were taken.
pub proof fn law_corrections(r: u64, divisor: u32, n: nat)
    requires
        divisor > 0,
    ensures
        corrected(r, divisor, n) as int % (divisor as int) == r as int % (divisor as int),
        corrected(r, divisor, n) <= r <= corrected(r, divisor, n) + n * divisor,
        corrected(r, divisor, n) >= divisor ==> corrected(r, divisor, n) == r - n * divisor,
    decreases n,
{
    let d = divisor as int;
    if n > 0 {
        let m = (n - 1) as nat;
        assert(n * d == m * d + d) by (nonlinear_arith)
            requires
                n == m + 1,
        ;
        assert(m * d >= 0) by (nonlinear_arith)
            requires
                d > 0,
        ;
        if r >= divisor {
            let less = (r - divisor) as u64;
            law_corrections(less, divisor, m);
            lemma_mod_multiples_vanish(1, less as int, d);
        } else {
            lemma_corrected_settles(r, divisor, m);
        }
    } else {
        assert(n * d == 0) by (nonlinear_arith)
            requires
                n == 0,
        ;
    }
}

/// Barrett reduction takes the product's high half as the quotient, whatever constant it is given,
/// and makes four corrections of what is left.
pub proof fn law_barrett_residue(x: u64, divisor: u32, mu: u64, q: int)
    requires
        divisor >= 2,
        q * 0x1_0000_0000_0000_0000 <= x * mu < (q + 1) * 0x1_0000_0000_0000_0000,
        q * divisor <= x,
    ensures
        barrett_residue(x, divisor, mu) as int % (divisor as int) == x as int % (divisor as int),
        barrett_residue(x, divisor, mu) <= x - q * divisor,
        x - q * divisor <= barrett_residue(x, divisor, mu) + 4 * divisor,
        barrett_residue(x, divisor, mu) >= divisor ==> barrett_residue(x, divisor, mu) == x - (q
            + 4) * divisor,
{
    let w = 0x1_0000_0000_0000_0000int;
    let d = divisor as int;
    let p = x * mu;
    lemma_fundamental_div_mod_converse(p, w, q, p - q * w);
    assert(0 <= p) by (nonlinear_arith)
        requires
            p == x * mu,
            x >= 0,
            mu >= 0,
    ;
    assert(q >= 0);
    assert(q * d >= 0) by (nonlinear_arith)
        requires
            q >= 0,
            d > 0,
    ;
    assert(q <= x) by (nonlinear_arith)
        requires
            q * d <= x,
            q >= 0,
            d >= 2,
    ;
    let e = barrett_estimate(x, divisor, mu);
    assert(e == x - q * d);
    law_corrections(e, divisor, 4);
    lemma_mod_multiples_vanish(q, e as int, d);
    assert(d * q == q * d) by (nonlinear_arith);
    assert((q + 4) * d == q * d + 4 * d) by (nonlinear_arith);
}

} // verus!

//! Little-endian numbers in byte strings.
use vstd::arithmetic::div_mod::*;
use vstd::prelude::*;

verus! {

/// The number that a byte string holds, least significant byte first.
pub open spec fn le_nat(s: Seq<u8>) -> nat
    decreases s.len(),
{
    if s.len() == 0 {
        0
    } else {
        s[0] as nat + 256 * le_nat(s.skip(1))
    }
}

/// The number in the eight bytes from `at` on.
pub open spec fn le_word_at(s: Seq<u8>, at: int) -> nat {
    le_nat(s.subrange(at, at + 8))
}

/// Eight bytes, one by one.
proof fn lemma_le_word_at(s: Seq<u8>, at: int)
    requires
        0 <= at,
        at + 8 <= s.len(),
    ensures
        le_word_at(s, at) == s[at] + 0x100 * s[at + 1] + 0x1_0000 * s[at + 2] + 0x100_0000 * s[at
            + 3] + 0x1_0000_0000 * s[at + 4] + 0x100_0000_0000 * s[at + 5] + 0x1_0000_0000_0000
            * s[at + 6] + 0x100_0000_0000_0000 * s[at + 7],
{
    let t = s.subrange(at, at + 8);
    assert(t.skip(1).skip(1) =~= t.skip(2));
    assert(t.skip(2).skip(1) =~= t.skip(3));
    assert(t.skip(3).skip(1) =~= t.skip(4));
    assert(t.skip(4).skip(1) =~= t.skip(5));
    assert(t.skip(5).skip(1) =~= t.skip(6));
    assert(t.skip(6).skip(1) =~= t.skip(7));
    assert(t.skip(7).skip(1) =~= t.skip(8));
    reveal_with_fuel(le_nat, 9);
}

/// Reads the eight bytes from `at` on.
pub fn read_le_u64(s: &[u8], at: usize) -> (r: u64)
    requires
        at + 8 <= s@.len(),
    ensures
        r == le_word_at(s@, at as int),
{
    proof {
        lemma_le_word_at(s@, at as int);
    }
    s[at] as u64 + 0x100 * (s[at + 1] as u64) + 0x1_0000 * (s[at + 2] as u64) + 0x100_0000 * (s[at
        + 3] as u64) + 0x1_0000_0000 * (s[at + 4] as u64) + 0x100_0000_0000 * (s[at + 5] as u64)
        + 0x1_0000_0000_0000 * (s[at + 6] as u64) + 0x100_0000_0000_0000 * (s[at + 7] as u64)
}

/// The four 64-bit words of a 32-byte string.
pub open spec fn words_of(b: Seq<u8>) -> Seq<u64> {
    Seq::new(4, |i: int| le_word_at(b, 8 * i) as u64)
}

/// Splits 32 bytes into four little-endian words, least significant first.
pub fn words4(b: &[u8; 32]) -> (w: [u64; 4])
    ensures
        w@ == words_of(b@),
        forall|i: int| 0 <= i < 4 ==> #[trigger] w@[i] == le_word_at(b@, 8 * i),
{
    let s: &[u8] = b.as_slice();
    let w: [u64; 4] = [
        read_le_u64(s, 0),
        read_le_u64(s, 8),
        read_le_u64(s, 16),
        read_le_u64(s, 24),
    ];
    assert(w@ =~= words_of(b@));
    w
}

/// The bytes of a word, least significant first.
pub open spec fn word_bytes(w: u64) -> Seq<u8> {
    seq![
        (w % 0x100) as u8,
        (w / 0x100 % 0x100) as u8,
        (w / 0x1_0000 % 0x100) as u8,
        (w / 0x100_0000 % 0x100) as u8,
        (w / 0x1_0000_0000 % 0x100) as u8,
        (w / 0x100_0000_0000 % 0x100) as u8,
        (w / 0x1_0000_0000_0000 % 0x100) as u8,
        (w / 0x100_0000_0000_0000) as u8,
    ]
}

/// The bytes of four words, one after the other.
pub open spec fn bytes_of(w: Seq<u64>) -> Seq<u8>
    recommends
        w.len() == 4,
{
    word_bytes(w[0]) + word_bytes(w[1]) + word_bytes(w[2]) + word_bytes(w[3])
}

/// Writes a word into the eight bytes from `at` on.
fn write_le_u64(out: &mut [u8; 32], at: usize, w: u64)
    requires
        at + 8 <= 32,
    ensures
        final(out)@ == old(out)@.take(at as int) + word_bytes(w) + old(out)@.skip(at + 8),
{
    out[at] = (w % 0x100) as u8;
    out[at + 1] = (w / 0x100 % 0x100) as u8;
    out[at + 2] = (w / 0x1_0000 % 0x100) as u8;
    out[at + 3] = (w / 0x100_0000 % 0x100) as u8;
    out[at + 4] = (w / 0x1_0000_0000 % 0x100) as u8;
    out[at + 5] = (w / 0x100_0000_0000 % 0x100) as u8;
    out[at + 6] = (w / 0x1_0000_0000_0000 % 0x100) as u8;
    out[at + 7] = (w / 0x100_0000_0000_0000) as u8;
    assert(out@ =~= old(out)@.take(at as int) + word_bytes(w) + old(out)@.skip(at + 8));
}

/// Joins four words into 32 bytes, least significant word first.
pub fn words_to_bytes(w: &[u64; 4]) -> (b: [u8; 32])
    ensures
        b@ == bytes_of(w@),
{
    let mut out: [u8; 32] = [0u8; 32];
    write_le_u64(&mut out, 0, w[0]);
    write_le_u64(&mut out, 8, w[1]);
    write_le_u64(&mut out, 16, w[2]);
    write_le_u64(&mut out, 24, w[3]);
    assert(out@ =~= bytes_of(w@));
    out
}

/// The number that four words hold, least significant first.
pub open spec fn words_nat(w: Seq<u64>) -> nat
    recommends
        w.len() == 4,
{
    (w[0] + 0x1_0000_0000_0000_0000 * (w[1] + 0x1_0000_0000_0000_0000 * (w[2]
        + 0x1_0000_0000_0000_0000 * w[3]))) as nat
}

/// The first eight bytes and the rest.
proof fn lemma_le_nat_split(s: Seq<u8>)
    requires
        s.len() >= 8,
    ensures
        le_nat(s) == le_word_at(s, 0) + 0x1_0000_0000_0000_0000 * le_nat(s.skip(8)),
{
    lemma_le_word_at(s, 0);
    assert(s.skip(1).skip(1) =~= s.skip(2));
    assert(s.skip(2).skip(1) =~= s.skip(3));
    assert(s.skip(3).skip(1) =~= s.skip(4));
    assert(s.skip(4).skip(1) =~= s.skip(5));
    assert(s.skip(5).skip(1) =~= s.skip(6));
    assert(s.skip(6).skip(1) =~= s.skip(7));
    assert(s.skip(7).skip(1) =~= s.skip(8));
    reveal_with_fuel(le_nat, 9);
}

/// A word of a byte string fits 64 bits.
proof fn lemma_le_word_bound(s: Seq<u8>, at: int)
    requires
        0 <= at,
        at + 8 <= s.len(),
    ensures
        le_word_at(s, at) < 0x1_0000_0000_0000_0000,
{
    lemma_le_word_at(s, at);
}

/// 32 bytes hold the number that their four words hold.
pub proof fn law_words_keep_value(b: Seq<u8>)
    requires
        b.len() == 32,
    ensures
        le_nat(b) == words_nat(words_of(b)),
{
    let b1 = b.skip(8);
    let b2 = b1.skip(8);
    let b3 = b2.skip(8);
    lemma_le_nat_split(b);
    lemma_le_nat_split(b1);
    lemma_le_nat_split(b2);
    lemma_le_nat_split(b3);
    assert(b3.skip(8).len() == 0);
    assert(b1.subrange(0, 8) =~= b.subrange(8, 16));
    assert(b2.subrange(0, 8) =~= b.subrange(16, 24));
    assert(b3.subrange(0, 8) =~= b.subrange(24, 32));
    lemma_le_word_bound(b, 0);
    lemma_le_word_bound(b, 8);
    lemma_le_word_bound(b, 16);
    lemma_le_word_bound(b, 24);
}

/// A word is the number that its bytes hold.
proof fn lemma_word_bytes(w: u64)
    ensures
        le_nat(word_bytes(w)) == w,
{
    let s = word_bytes(w);
    lemma_le_word_at(s, 0);
    assert(s.subrange(0, 8) =~= s);
    assert(w == w % 0x100 + 0x100 * (w / 0x100 % 0x100) + 0x1_0000 * (w / 0x1_0000 % 0x100)
        + 0x100_0000 * (w / 0x100_0000 % 0x100) + 0x1_0000_0000 * (w / 0x1_0000_0000 % 0x100)
        + 0x100_0000_0000 * (w / 0x100_0000_0000 % 0x100) + 0x1_0000_0000_0000 * (w
        / 0x1_0000_0000_0000 % 0x100) + 0x100_0000_0000_0000 * (w / 0x100_0000_0000_0000))
        by (bit_vector);
}

/// Splitting joined words gives the words back.
pub proof fn law_words_round_trip(w: Seq<u64>)
    requires
        w.len() == 4,
    ensures
        bytes_of(w).len() == 32,
        words_of(bytes_of(w)) == w,
{
    let b = bytes_of(w);
    assert forall|i: int| 0 <= i < 4 implies words_of(b)[i] == w[i] by {
        assert(b.subrange(8 * i, 8 * i + 8) =~= word_bytes(w[i]));
        lemma_word_bytes(w[i]);
    }
    assert(words_of(b) =~= w);
}

/// The bytes of a word that was read are the bytes that it was read from.
proof fn lemma_read_word_bytes(s: Seq<u8>, at: int)
    requires
        0 <= at,
        at + 8 <= s.len(),
    ensures
        word_bytes(le_word_at(s, at) as u64) == s.subrange(at, at + 8),
{
    lemma_le_word_at(s, at);
    lemma_le_word_bound(s, at);
    let w = le_word_at(s, at) as u64;
    let (b0, b1, b2, b3) = (s[at], s[at + 1], s[at + 2], s[at + 3]);
    let (b4, b5, b6, b7) = (s[at + 4], s[at + 5], s[at + 6], s[at + 7]);
    assert(w % 0x100 == b0 && w / 0x100 % 0x100 == b1 && w / 0x1_0000 % 0x100 == b2 && w
        / 0x100_0000 % 0x100 == b3 && w / 0x1_0000_0000 % 0x100 == b4 && w / 0x100_0000_0000
        % 0x100 == b5 && w / 0x1_0000_0000_0000 % 0x100 == b6 && w / 0x100_0000_0000_0000 == b7)
        by (bit_vector)
        requires
            w == b0 + 0x100 * b1 + 0x1_0000 * b2 + 0x100_0000 * b3 + 0x1_0000_0000 * b4
                + 0x100_0000_0000 * b5 + 0x1_0000_0000_0000 * b6 + 0x100_0000_0000_0000 * b7,
    ;
    let bytes = word_bytes(w);
    assert(bytes[0] == b0 && bytes[1] == b1 && bytes[2] == b2 && bytes[3] == b3);
    assert(bytes[4] == b4 && bytes[5] == b5 && bytes[6] == b6 && bytes[7] == b7);
    assert(bytes =~= s.subrange(at, at + 8));
}

/// Joining split words gives the bytes back.
pub proof fn law_bytes_round_trip(b: Seq<u8>)
    requires
        b.len() == 32,
    ensures
        bytes_of(words_of(b)) == b,
{
    lemma_read_word_bytes(b, 0);
    lemma_read_word_bytes(b, 8);
    lemma_read_word_bytes(b, 16);
    lemma_read_word_bytes(b, 24);
    assert(bytes_of(words_of(b)) =~= b);
}

/// Where two byte strings agree above `i`, the byte at `i` decides.
proof fn lemma_top_byte_decides(a: Seq<u8>, b: Seq<u8>, i: int)
    requires
        a.len() == b.len(),
        0 <= i < a.len(),
        a[i] < b[i],
        forall|j: int| i < j < a.len() ==> a[j] == b[j],
    ensures
        le_nat(a) < le_nat(b),
    decreases i,
{
    if i == 0 {
        assert(a.skip(1) =~= b.skip(1));
    } else {
        lemma_top_byte_decides(a.skip(1), b.skip(1), i - 1);
    }
}

/// Compares two 32-byte little-endian numbers.
pub fn le_leq(a: &[u8; 32], b: &[u8; 32]) -> (r: bool)
    ensures
        r == (le_nat(a@) <= le_nat(b@)),
{
    let mut i: usize = 32;
    while i > 0
        invariant
            i <= 32,
            forall|j: int| i <= j < 32 ==> a@[j] == b@[j],
        decreases i,
    {
        i = i - 1;
        if a[i] < b[i] {
            proof {
                lemma_top_byte_decides(a@, b@, i as int);
            }
            return true;
        }
        if a[i] > b[i] {
            proof {
                lemma_top_byte_decides(b@, a@, i as int);
            }
            return false;
        }
    }
    assert(a@ =~= b@);
    true
}

/// 256 to the power of `n`: what the byte behind `n` others counts.
pub open spec fn place_value(n: nat) -> nat
    decreases n,
{
    if n == 0 {
        1
    } else {
        256 * place_value((n - 1) as nat)
    }
}

/// The bytes of a number count from the least significant on: a byte alone is its own number, and
/// what stands behind `n` bytes counts 256 to the power of `n` times as much.
pub proof fn law_le_nat_places(a: Seq<u8>, b: Seq<u8>)
    ensures
        a.len() == 1 ==> le_nat(a) == a[0],
        le_nat(a + b) == le_nat(a) + place_value(a.len()) * le_nat(b),
    decreases a.len(),
{
    if a.len() == 0 {
        assert(a + b =~= b);
        assert(place_value(0) == 1);
        assert(1 * le_nat(b) == le_nat(b));
    } else {
        law_le_nat_places(a.skip(1), b);
        assert((a + b).skip(1) =~= a.skip(1) + b);
        assert(a.len() == 1 ==> le_nat(a.skip(1)) == 0);
        let v = place_value(a.skip(1).len());
        let w = le_nat(b);
        assert(place_value(a.len()) == 256 * v);
        assert((256 * v) * w == 256 * (v * w)) by (nonlinear_arith);
        assert(le_nat(a + b) == a[0] + 256 * (le_nat(a.skip(1)) + v * w));
    }
}

/// The words of 32 bytes are the numbers in their eighths, in order, and the 32 bytes hold the
/// first word, 2^64 times the second, 2^128 times the third and 2^192 times the fourth.
pub proof fn law_word_places(b: Seq<u8>)
    requires
        b.len() == 32,
    ensures
        words_of(b).len() == 4,
        words_of(b)[0] == le_nat(b.subrange(0, 8)),
        words_of(b)[1] == le_nat(b.subrange(8, 16)),
        words_of(b)[2] == le_nat(b.subrange(16, 24)),
        words_of(b)[3] == le_nat(b.subrange(24, 32)),
        le_nat(b) == words_of(b)[0] + 0x1_0000_0000_0000_0000 * words_of(b)[1]
            + 0x1_0000_0000_0000_0000_0000_0000_0000_0000 * words_of(b)[2]
            + 0x1_0000_0000_0000_0000_0000_0000_0000_0000_0000_0000_0000_0000 * words_of(b)[3],
{
    law_words_keep_value(b);
    lemma_le_word_bound(b, 0);
    lemma_le_word_bound(b, 8);
    lemma_le_word_bound(b, 16);
    lemma_le_word_bound(b, 24);
}

} // verus!

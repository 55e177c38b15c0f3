//! The Proof-of-Model walk: from a block's seed over the model's weight chunks to the value that
//! is held against the target.
//!
//! The walk exists twice: on native 64-bit words, and on pairs of 32-bit words as a device
//! without 64-bit integers runs it. Both are proved against the same walk.
use vstd::arithmetic::div_mod::*;
use vstd::prelude::*;

use crate::bytes::{le_leq, words4, words_to_bytes};
use crate::emu64::{
    compute_mu, eq64, from_emu, lt64, mod64_fast, mul64, shr64, to_emu, xor64, U64Emu,
};
#[allow(unused_imports)]
use crate::bytes::{
    bytes_of, law_word_places, law_words_keep_value, law_words_round_trip, le_nat, words_nat, words_of,
};
#[allow(unused_imports)]
use crate::emu64::word;

verus! {

/// The SplitMix64 finaliser: two xor-shift-multiply rounds and a last xor-shift.
#[verifier::opaque]
pub open spec fn mix64(x: u64) -> u64 {
    let a = (x ^ (x >> 30u32)).wrapping_mul(0xbf58476d1ce4e5b9u64);
    let b = (a ^ (a >> 27u32)).wrapping_mul(0x94d049bb133111ebu64);
    b ^ (b >> 31u32)
}

/// The finaliser on a native word.
pub fn mix64_native(x: u64) -> (r: u64)
    ensures
        r == mix64(x),
{
    proof {
        reveal(mix64);
    }
    let a: u64 = (x ^ (x >> 30u32)).wrapping_mul(0xbf58476d1ce4e5b9u64);
    let b: u64 = (a ^ (a >> 27u32)).wrapping_mul(0x94d049bb133111ebu64);
    b ^ (b >> 31u32)
}

/// The finaliser on a pair.
pub fn mix64_emu(x: U64Emu) -> (r: U64Emu)
    ensures
        word(r) == mix64(word(x)),
{
    proof {
        reveal(mix64);
    }
    let a: U64Emu = mul64(xor64(x, shr64(x, 30)), (0x1ce4e5b9u32, 0xbf58476du32));
    let b: U64Emu = mul64(xor64(a, shr64(a, 27)), (0x133111ebu32, 0x94d049bbu32));
    xor64(b, shr64(b, 31))
}

/// The state that a walk starts in: the nonce, the timestamp and the four words of the block's
/// pre-PoW hash, mixed in one after the other.
pub open spec fn block_seed(p: Seq<u64>, timestamp: u64, nonce: u64) -> u64 {
    let s0 = mix64(nonce ^ 0x4B65727978531u64);
    let s1 = mix64(s0 ^ timestamp);
    let s2 = mix64(s1 ^ p[0]);
    let s3 = mix64(s2 ^ p[1]);
    let s4 = mix64(s3 ^ p[2]);
    mix64(s4 ^ p[3])
}

/// The state after a chunk's four words have been mixed in.
pub open spec fn absorb(state: u64, chunk: [u64; 4]) -> u64 {
    mix64(state ^ chunk@[0] ^ chunk@[1] ^ chunk@[2] ^ chunk@[3])
}

/// The state after the first `i` chunks of a walk.
pub open spec fn state_after(seed: u64, chunks: Seq<[u64; 4]>, i: int) -> u64
    decreases i,
{
    if i <= 0 {
        seed
    } else {
        absorb(state_after(seed, chunks, i - 1), chunks[i - 1])
    }
}

/// The four words of the value at the end of a walk.
pub open spec fn pow_words(state: u64, p: Seq<u64>) -> Seq<u64> {
    let o0 = mix64(state ^ p[0] ^ 0x9E3779B97F4A7C15u64);
    let o1 = mix64(o0 ^ p[1] ^ 0xC2B2AE3D27D4EB4Fu64);
    let o2 = mix64(o1 ^ p[2] ^ 0x165667B19E3779F9u64);
    let o3 = mix64(o2 ^ p[3] ^ 0xD6E8FEB86659FD93u64);
    seq![o0, o1, o2, o3]
}

/// Whether a chunk source may return `chunk` for the offset `off`.
pub open spec fn gives<F: Fn(u64) -> [u64; 4]>(chunk_of: F, off: u64, chunk: [u64; 4]) -> bool {
    call_ensures(chunk_of, (off,), chunk)
}

/// Whether `chunks` are what the chunk source gave on the way: the chunk of each step is one that
/// it returned for the offset that the state before the step picks.
pub open spec fn walk_trace<F: Fn(u64) -> [u64; 4]>(
    chunk_of: F,
    seed: u64,
    n_chunks: u64,
    chunks: Seq<[u64; 4]>,
) -> bool {
    forall|i: int|
        0 <= i < chunks.len() ==> gives(
            chunk_of,
            state_after(seed, chunks, i) % n_chunks,
            #[trigger] chunks[i],
        )
}

/// What a walk of `k` steps over `chunks` ends in, for a given target: the 32-byte value, and
/// whether it is at most the target.
pub open spec fn walk_outcome(
    pre_pow_hash: Seq<u8>,
    timestamp: u64,
    nonce: u64,
    target: Seq<u8>,
    chunks: Seq<[u64; 4]>,
) -> (Seq<u8>, bool) {
    let p = words_of(pre_pow_hash);
    let seed = block_seed(p, timestamp, nonce);
    let value = bytes_of(pow_words(state_after(seed, chunks, chunks.len() as int), p));
    (value, le_nat(value) <= le_nat(target))
}

/// Whether `r` is the outcome of a `k`-step walk over `n_chunks` chunks of the given source.
pub open spec fn is_walk_result<F: Fn(u64) -> [u64; 4]>(
    pre_pow_hash: Seq<u8>,
    timestamp: u64,
    nonce: u64,
    target: Seq<u8>,
    n_chunks: u64,
    k: u32,
    chunk_of: F,
    r: ([u8; 32], bool),
) -> bool {
    exists|chunks: Seq<[u64; 4]>|
        {
            &&& chunks.len() == k
            &&& #[trigger] walk_trace(
                chunk_of,
                block_seed(words_of(pre_pow_hash), timestamp, nonce),
                n_chunks,
                chunks,
            )
            &&& (r.0@, r.1) == walk_outcome(pre_pow_hash, timestamp, nonce, target, chunks)
        }
}

/// Earlier states do not depend on later chunks.
proof fn lemma_state_after_push(seed: u64, chunks: Seq<[u64; 4]>, c: [u64; 4], i: int)
    requires
        i <= chunks.len(),
    ensures
        state_after(seed, chunks.push(c), i) == state_after(seed, chunks, i),
    decreases i,
{
    if i > 0 {
        lemma_state_after_push(seed, chunks, c, i - 1);
    }
}

/// A trace goes on with whatever the source gives for the current offset.
proof fn lemma_trace_push<F: Fn(u64) -> [u64; 4]>(
    chunk_of: F,
    seed: u64,
    n_chunks: u64,
    chunks: Seq<[u64; 4]>,
    c: [u64; 4],
)
    requires
        walk_trace(chunk_of, seed, n_chunks, chunks),
        gives(chunk_of, state_after(seed, chunks, chunks.len() as int) % n_chunks, c),
    ensures
        walk_trace(chunk_of, seed, n_chunks, chunks.push(c)),
        state_after(seed, chunks.push(c), (chunks.len() + 1) as int) == absorb(
            state_after(seed, chunks, chunks.len() as int),
            c,
        ),
{
    let next = chunks.push(c);
    assert forall|i: int| 0 <= i < next.len() implies gives(
        chunk_of,
        state_after(seed, next, i) % n_chunks,
        #[trigger] next[i],
    ) by {
        lemma_state_after_push(seed, chunks, c, i);
        if i < chunks.len() {
            assert(next[i] == chunks[i]);
        }
    }
    lemma_state_after_push(seed, chunks, c, chunks.len() as int);
}

/// The walk on native words.
///
/// `chunk_of` gives the four words of a chunk, by the chunk's index below `n_chunks`.
pub fn walk_native<F: Fn(u64) -> [u64; 4]>(
    pre_pow_hash: &[u8; 32],
    timestamp: u64,
    nonce: u64,
    target: &[u8; 32],
    n_chunks: u64,
    k: u32,
    chunk_of: F,
) -> (r: ([u8; 32], bool))
    requires
        n_chunks > 0,
        forall|off: u64| off < n_chunks ==> call_requires(chunk_of, (off,)),
    ensures
        is_walk_result(
            pre_pow_hash@,
            timestamp,
            nonce,
            target@,
            n_chunks,
            k,
            chunk_of,
            r,
        ),
{
    let p: [u64; 4] = words4(pre_pow_hash);

    let mut state: u64 = mix64_native(nonce ^ 0x4B65727978531u64);
    state = mix64_native(state ^ timestamp);
    state = mix64_native(state ^ p[0]);
    state = mix64_native(state ^ p[1]);
    state = mix64_native(state ^ p[2]);
    state = mix64_native(state ^ p[3]);

    let ghost seed = state;
    let ghost mut chunks: Seq<[u64; 4]> = Seq::empty();
    let mut off: u64 = state % n_chunks;
    for i in 0..k
        invariant
            n_chunks > 0,
            forall|off: u64| off < n_chunks ==> call_requires(chunk_of, (off,)),
            chunks.len() == i,
            walk_trace(chunk_of, seed, n_chunks, chunks),
            state == state_after(seed, chunks, i as int),
            off == state % n_chunks,
    {
        let chunk: [u64; 4] = chunk_of(off);
        let h: u64 = state ^ chunk[0] ^ chunk[1] ^ chunk[2] ^ chunk[3];
        state = mix64_native(h);
        off = state % n_chunks;
        proof {
            lemma_trace_push(chunk_of, seed, n_chunks, chunks, chunk);
            chunks = chunks.push(chunk);
        }
    }

    let o0: u64 = mix64_native(state ^ p[0] ^ 0x9E3779B97F4A7C15u64);
    let o1: u64 = mix64_native(o0 ^ p[1] ^ 0xC2B2AE3D27D4EB4Fu64);
    let o2: u64 = mix64_native(o1 ^ p[2] ^ 0x165667B19E3779F9u64);
    let o3: u64 = mix64_native(o2 ^ p[3] ^ 0xD6E8FEB86659FD93u64);
    let o: [u64; 4] = [o0, o1, o2, o3];
    assert(o@ =~= pow_words(state, p@));

    let pow: [u8; 32] = words_to_bytes(&o);
    let le: bool = le_leq(&pow, target);
    assert(seed == block_seed(words_of(pre_pow_hash@), timestamp, nonce));
    assert(walk_trace(chunk_of, seed, n_chunks, chunks));
    (pow, le)
}

/// The low half of a chunk count: what a device without 64-bit integers keeps of it.
pub open spec fn low_half(n_chunks: u64) -> u64 {
    n_chunks % 0x1_0000_0000
}

/// Compares two four-word numbers, most significant word first.
pub fn le_leq_emu(o: &[U64Emu; 4], t: &[U64Emu; 4]) -> (r: bool)
    ensures
        r == (words_nat(seq![word(o@[0]), word(o@[1]), word(o@[2]), word(o@[3])]) <= words_nat(
            seq![word(t@[0]), word(t@[1]), word(t@[2]), word(t@[3])],
        )),
{
    if !eq64(o[3], t[3]) {
        lt64(o[3], t[3])
    } else if !eq64(o[2], t[2]) {
        lt64(o[2], t[2])
    } else if !eq64(o[1], t[1]) {
        lt64(o[1], t[1])
    } else if !eq64(o[0], t[0]) {
        lt64(o[0], t[0])
    } else {
        true
    }
}

/// Four words as pairs.
fn to_emu4(w: &[u64; 4]) -> (r: [U64Emu; 4])
    ensures
        seq![word(r@[0]), word(r@[1]), word(r@[2]), word(r@[3])] == w@,
{
    let r: [U64Emu; 4] = [to_emu(w[0]), to_emu(w[1]), to_emu(w[2]), to_emu(w[3])];
    assert(seq![word(r@[0]), word(r@[1]), word(r@[2]), word(r@[3])] =~= w@);
    r
}

/// The walk on pairs of 32-bit words.
///
/// Only the low half of `n_chunks` reaches the device; it must be at least two, as Barrett
/// reduction asks.
pub fn walk_emu<F: Fn(u64) -> [u64; 4]>(
    pre_pow_hash: &[u8; 32],
    timestamp: u64,
    nonce: u64,
    target: &[u8; 32],
    n_chunks: u64,
    k: u32,
    chunk_of: F,
) -> (r: ([u8; 32], bool))
    requires
        low_half(n_chunks) >= 2,
        forall|off: u64| off < low_half(n_chunks) ==> call_requires(chunk_of, (off,)),
    ensures
        is_walk_result(
            pre_pow_hash@,
            timestamp,
            nonce,
            target@,
            low_half(n_chunks),
            k,
            chunk_of,
            r,
        ),
{
    let p64: [u64; 4] = words4(pre_pow_hash);
    let t64: [u64; 4] = words4(target);
    let p: [U64Emu; 4] = to_emu4(&p64);
    let t: [U64Emu; 4] = to_emu4(&t64);
    let ghost n = low_half(n_chunks);
    assert(n_chunks as u32 == n_chunks % 0x1_0000_0000) by (bit_vector);
    #[verifier::truncate]
    let n_chunks32: u32 = n_chunks as u32;
    let mu: U64Emu = compute_mu(n_chunks32);

    let mut state: U64Emu = mix64_emu(xor64(to_emu(nonce), (0x27978531u32, 0x0004B657u32)));
    state = mix64_emu(xor64(state, to_emu(timestamp)));
    state = mix64_emu(xor64(state, p[0]));
    state = mix64_emu(xor64(state, p[1]));
    state = mix64_emu(xor64(state, p[2]));
    state = mix64_emu(xor64(state, p[3]));

    let ghost seed = word(state);
    proof {
        let w = seq![word(p@[0]), word(p@[1]), word(p@[2]), word(p@[3])];
        assert(w[0] == p64@[0] && w[1] == p64@[1] && w[2] == p64@[2] && w[3] == p64@[3]);
        assert(seed == block_seed(p64@, timestamp, nonce));
    }
    let ghost mut chunks: Seq<[u64; 4]> = Seq::empty();
    let mut off: u64 = mod64_fast(state, n_chunks32, mu) as u64;
    for i in 0..k
        invariant
            n == low_half(n_chunks),
            n == n_chunks32,
            n >= 2,
            word(mu) == crate::emu64::barrett_mu(n_chunks32),
            forall|off: u64| off < n ==> call_requires(chunk_of, (off,)),
            chunks.len() == i,
            walk_trace(chunk_of, seed, n, chunks),
            word(state) == state_after(seed, chunks, i as int),
            off == word(state) % n,
    {
        let chunk: [u64; 4] = chunk_of(off);
        let h0: U64Emu = xor64(state, to_emu(chunk[0]));
        let h1: U64Emu = xor64(h0, to_emu(chunk[1]));
        let h2: U64Emu = xor64(h1, to_emu(chunk[2]));
        let h3: U64Emu = xor64(h2, to_emu(chunk[3]));
        state = mix64_emu(h3);
        off = mod64_fast(state, n_chunks32, mu) as u64;
        proof {
            lemma_trace_push(chunk_of, seed, n, chunks, chunk);
            chunks = chunks.push(chunk);
        }
    }

    let o0: U64Emu = mix64_emu(xor64(xor64(state, p[0]), (0x7F4A7C15u32, 0x9E3779B9u32)));
    let o1: U64Emu = mix64_emu(xor64(xor64(o0, p[1]), (0x27D4EB4Fu32, 0xC2B2AE3Du32)));
    let o2: U64Emu = mix64_emu(xor64(xor64(o1, p[2]), (0x9E3779F9u32, 0x165667B1u32)));
    let o3: U64Emu = mix64_emu(xor64(xor64(o2, p[3]), (0x6659FD93u32, 0xD6E8FEB8u32)));
    let o: [U64Emu; 4] = [o0, o1, o2, o3];
    let w: [u64; 4] = [from_emu(o0), from_emu(o1), from_emu(o2), from_emu(o3)];
    proof {
        let v = seq![word(p@[0]), word(p@[1]), word(p@[2]), word(p@[3])];
        assert(v[0] == p64@[0] && v[1] == p64@[1] && v[2] == p64@[2] && v[3] == p64@[3]);
        assert(w@ =~= pow_words(word(state), p64@));
    }
    let pow: [u8; 32] = words_to_bytes(&w);

    // The comparison runs on words, not on the bytes.
    let le: bool = le_leq_emu(&o, &t);
    proof {
        assert(seq![word(o@[0]), word(o@[1]), word(o@[2]), word(o@[3])] =~= w@);
        law_words_keep_value(target@);
        law_words_round_trip(w@);
        law_words_keep_value(pow@);
        assert(walk_trace(chunk_of, seed, n, chunks));
    }
    (pow, le)
}

/// Whether a chunk source gives one chunk per offset, as a fixed weight blob does.
pub open spec fn fixed_source<F: Fn(u64) -> [u64; 4]>(chunk_of: F) -> bool {
    forall|off: u64, a: [u64; 4], b: [u64; 4]|
        #[trigger] gives(chunk_of, off, a) && #[trigger] gives(chunk_of, off, b) ==> a == b
}

/// Two traces over a fixed source are the same up to each step.
proof fn lemma_same_trace<F: Fn(u64) -> [u64; 4]>(
    chunk_of: F,
    seed: u64,
    n_chunks: u64,
    a: Seq<[u64; 4]>,
    b: Seq<[u64; 4]>,
    i: int,
)
    requires
        n_chunks > 0,
        fixed_source(chunk_of),
        walk_trace(chunk_of, seed, n_chunks, a),
        walk_trace(chunk_of, seed, n_chunks, b),
        a.len() == b.len(),
        0 <= i <= a.len(),
    ensures
        state_after(seed, a, i) == state_after(seed, b, i),
        forall|j: int| 0 <= j < i ==> a[j] == b[j],
    decreases i,
{
    if i > 0 {
        lemma_same_trace(chunk_of, seed, n_chunks, a, b, i - 1);
        let state = state_after(seed, a, i - 1);
        let off = state % n_chunks;
        lemma_mod_bound(state as int, n_chunks as int);
        assert(gives(chunk_of, off, a[i - 1]));
        assert(gives(chunk_of, off, b[i - 1]));
    }
}

/// Over a fixed weight blob a walk has one outcome.
pub proof fn law_walk_is_determined<F: Fn(u64) -> [u64; 4]>(
    pre_pow_hash: Seq<u8>,
    timestamp: u64,
    nonce: u64,
    target: Seq<u8>,
    n_chunks: u64,
    k: u32,
    chunk_of: F,
    a: ([u8; 32], bool),
    b: ([u8; 32], bool),
)
    requires
        n_chunks > 0,
        fixed_source(chunk_of),
        is_walk_result(pre_pow_hash, timestamp, nonce, target, n_chunks, k, chunk_of, a),
        is_walk_result(pre_pow_hash, timestamp, nonce, target, n_chunks, k, chunk_of, b),
    ensures
        a.0@ == b.0@,
        a.1 == b.1,
{
    let seed = block_seed(words_of(pre_pow_hash), timestamp, nonce);
    let ca = choose|chunks: Seq<[u64; 4]>|
        {
            &&& chunks.len() == k
            &&& #[trigger] walk_trace(chunk_of, seed, n_chunks, chunks)
            &&& (a.0@, a.1) == walk_outcome(pre_pow_hash, timestamp, nonce, target, chunks)
        };
    let cb = choose|chunks: Seq<[u64; 4]>|
        {
            &&& chunks.len() == k
            &&& #[trigger] walk_trace(chunk_of, seed, n_chunks, chunks)
            &&& (b.0@, b.1) == walk_outcome(pre_pow_hash, timestamp, nonce, target, chunks)
        };
    lemma_same_trace(chunk_of, seed, n_chunks, ca, cb, k as int);
}

/// Over a fixed weight blob whose chunk count fits 32 bits, the walk on pairs and the walk on
/// native words end in the same value and the same verdict.
pub proof fn law_walks_agree<F: Fn(u64) -> [u64; 4]>(
    pre_pow_hash: Seq<u8>,
    timestamp: u64,
    nonce: u64,
    target: Seq<u8>,
    n_chunks: u64,
    k: u32,
    chunk_of: F,
    native: ([u8; 32], bool),
    emulated: ([u8; 32], bool),
)
    requires
        fixed_source(chunk_of),
        2 <= n_chunks < 0x1_0000_0000,
        is_walk_result(pre_pow_hash, timestamp, nonce, target, n_chunks, k, chunk_of, native),
        is_walk_result(
            pre_pow_hash,
            timestamp,
            nonce,
            target,
            low_half(n_chunks),
            k,
            chunk_of,
            emulated,
        ),
    ensures
        emulated.0@ == native.0@,
        emulated.1 == native.1,
{
    law_walk_is_determined(
        pre_pow_hash,
        timestamp,
        nonce,
        target,
        n_chunks,
        k,
        chunk_of,
        native,
        emulated,
    );
}

/// Multiplying by an odd number is undone by multiplying by its inverse.
proof fn lemma_wrapping_inverse(t: u64, c: u64, inverse: u64, q: int)
    requires
        c * inverse == 1 + q * 0x1_0000_0000_0000_0000,
    ensures
        t.wrapping_mul(c).wrapping_mul(inverse) == t,
{
    let m = 0x1_0000_0000_0000_0000int;
    let p = t * c;
    lemma_mul_mod_noop_left(p, inverse as int, m);
    assert(p * inverse == t + (t * q) * m) by (nonlinear_arith)
        requires
            p == t * c,
            c * inverse == 1 + q * m,
    ;
    lemma_mod_multiples_vanish(t * q, t as int, m);
    assert(m * (t * q) + t == t + (t * q) * m) by (nonlinear_arith);
    lemma_small_mod(t as nat, m as nat);
}

/// The finaliser is SplitMix64's, with its two multipliers and three shifts, and it is undone by
/// the inverse multipliers and the same shifts in the opposite order.
pub proof fn law_mix64(x: u64)
    ensures
        ({
            let a = (x ^ (x >> 30u32)).wrapping_mul(0xbf58476d1ce4e5b9u64);
            let b = (a ^ (a >> 27u32)).wrapping_mul(0x94d049bb133111ebu64);
            mix64(x) == b ^ (b >> 31u32)
        }),
        ({
            let z = mix64(x);
            let b = z ^ (z >> 31u32) ^ (z >> 62u32);
            let s = b.wrapping_mul(0x319642b2d24d8ec3u64);
            let a = s ^ (s >> 27u32) ^ (s >> 54u32);
            let t = a.wrapping_mul(0x96de1b173f119089u64);
            t ^ (t >> 30u32) ^ (t >> 60u32) == x
        }),
{
    reveal(mix64);
    let t = x ^ (x >> 30u32);
    let a = t.wrapping_mul(0xbf58476d1ce4e5b9u64);
    let s = a ^ (a >> 27u32);
    let b = s.wrapping_mul(0x94d049bb133111ebu64);
    let z = b ^ (b >> 31u32);
    assert(z ^ (z >> 31u32) ^ (z >> 62u32) == b) by (bit_vector)
        requires
            z == b ^ (b >> 31u32),
    ;
    assert(s ^ (s >> 27u32) ^ (s >> 54u32) == a) by (bit_vector)
        requires
            s == a ^ (a >> 27u32),
    ;
    assert(t ^ (t >> 30u32) ^ (t >> 60u32) == x) by (bit_vector)
        requires
            t == x ^ (x >> 30u32),
    ;
    assert(0x94d049bb133111ebu64 * 0x319642b2d24d8ec3u64 == 1 + 2077064247507883091
        * 0x1_0000_0000_0000_0000int) by (nonlinear_arith);
    assert(0xbf58476d1ce4e5b9u64 * 0x96de1b173f119089u64 == 1 + 8125545580553827436
        * 0x1_0000_0000_0000_0000int) by (nonlinear_arith);
    lemma_wrapping_inverse(
        s,
        0x94d049bb133111ebu64,
        0x319642b2d24d8ec3u64,
        2077064247507883091,
    );
    lemma_wrapping_inverse(
        t,
        0xbf58476d1ce4e5b9u64,
        0x96de1b173f119089u64,
        8125545580553827436,
    );
}

/// The finaliser never takes two words to one.
pub proof fn law_mix64_is_injective(x: u64, y: u64)
    requires
        x != y,
    ensures
        mix64(x) != mix64(y),
{
    law_mix64(x);
    law_mix64(y);
}

/// Whether two chunks differ in one of their four words, and in no other.
pub open spec fn differ_in_one_word(a: [u64; 4], b: [u64; 4]) -> bool {
    exists|j: int|
        0 <= j < 4 && a@[j] != #[trigger] b@[j] && (forall|i: int|
            0 <= i < 4 && i != j ==> a@[i] == #[trigger] b@[i])
}

/// A step of the walk mixes the xor of the state and of all four words of the chunk. It depends on
/// every one of the words, and on the state: a change in one word, or in the state alone, changes
/// the state behind the step.
pub proof fn law_step_takes_every_word(state: u64, other: u64, a: [u64; 4], b: [u64; 4])
    ensures
        absorb(state, a) == mix64(state ^ a@[0] ^ a@[1] ^ a@[2] ^ a@[3]),
        differ_in_one_word(a, b) ==> absorb(state, a) != absorb(state, b),
        state != other ==> absorb(state, a) != absorb(other, a),
{
    let (a0, a1, a2, a3) = (a@[0], a@[1], a@[2], a@[3]);
    let (b0, b1, b2, b3) = (b@[0], b@[1], b@[2], b@[3]);
    let x = state ^ a0 ^ a1 ^ a2 ^ a3;
    if differ_in_one_word(a, b) {
        let y = state ^ b0 ^ b1 ^ b2 ^ b3;
        let j = choose|j: int|
            0 <= j < 4 && a@[j] != #[trigger] b@[j] && (forall|i: int|
                0 <= i < 4 && i != j ==> a@[i] == #[trigger] b@[i]);
        assert(b@[j] == b0 || b@[j] == b1 || b@[j] == b2 || b@[j] == b3);
        assert(x != y) by (bit_vector)
            requires
                x == state ^ a0 ^ a1 ^ a2 ^ a3,
                y == state ^ b0 ^ b1 ^ b2 ^ b3,
                (a0 != b0 && a1 == b1 && a2 == b2 && a3 == b3) || (a0 == b0 && a1 != b1 && a2
                    == b2 && a3 == b3) || (a0 == b0 && a1 == b1 && a2 != b2 && a3 == b3) || (a0
                    == b0 && a1 == b1 && a2 == b2 && a3 != b3),
        ;
        law_mix64_is_injective(x, y);
    }
    if state != other {
        let y = other ^ a0 ^ a1 ^ a2 ^ a3;
        assert(x != y) by (bit_vector)
            requires
                x == state ^ a0 ^ a1 ^ a2 ^ a3,
                y == other ^ a0 ^ a1 ^ a2 ^ a3,
                state != other,
        ;
        law_mix64_is_injective(x, y);
    }
}

/// What a walk is, step by step. There are states and chunks such that: the first state comes of
/// the nonce, the timestamp and the four little-endian words of the hash, in this order; the source
/// gave each chunk for the state before it, taken modulo the number of chunks; each state is the
/// finaliser of the one before it and the four words of its chunk; the four little-endian words of
/// the value come of the last state and the words of the hash; and the verdict is whether the value
/// is at most the target, both as little-endian numbers.
pub proof fn law_walk_step_by_step<F: Fn(u64) -> [u64; 4]>(
    pre_pow_hash: Seq<u8>,
    timestamp: u64,
    nonce: u64,
    target: Seq<u8>,
    n_chunks: u64,
    k: u32,
    chunk_of: F,
    r: ([u8; 32], bool),
) -> (walk: (Seq<u64>, Seq<[u64; 4]>))
    requires
        pre_pow_hash.len() == 32,
        is_walk_result(pre_pow_hash, timestamp, nonce, target, n_chunks, k, chunk_of, r),
    ensures
        ({
            let (states, chunks) = walk;
            let p0 = le_nat(pre_pow_hash.subrange(0, 8)) as u64;
            let p1 = le_nat(pre_pow_hash.subrange(8, 16)) as u64;
            let p2 = le_nat(pre_pow_hash.subrange(16, 24)) as u64;
            let p3 = le_nat(pre_pow_hash.subrange(24, 32)) as u64;
            let o0 = mix64(states[k as int] ^ p0 ^ 0x9E3779B97F4A7C15u64);
            let o1 = mix64(o0 ^ p1 ^ 0xC2B2AE3D27D4EB4Fu64);
            let o2 = mix64(o1 ^ p2 ^ 0x165667B19E3779F9u64);
            let o3 = mix64(o2 ^ p3 ^ 0xD6E8FEB86659FD93u64);
            &&& states.len() == k + 1
            &&& chunks.len() == k
            &&& states[0] == mix64(
                mix64(
                    mix64(
                        mix64(mix64(mix64(nonce ^ 0x4B65727978531u64) ^ timestamp) ^ p0) ^ p1,
                    ) ^ p2,
                ) ^ p3,
            )
            &&& forall|i: int|
                0 <= i < k ==> {
                    &&& call_ensures(
                        chunk_of,
                        (states[i] % n_chunks,),
                        #[trigger] chunks[i],
                    )
                    &&& states[i + 1] == mix64(
                        states[i] ^ chunks[i]@[0] ^ chunks[i]@[1] ^ chunks[i]@[2] ^ chunks[i]@[3],
                    )
                }
            &&& le_nat(r.0@.subrange(0, 8)) == o0
            &&& le_nat(r.0@.subrange(8, 16)) == o1
            &&& le_nat(r.0@.subrange(16, 24)) == o2
            &&& le_nat(r.0@.subrange(24, 32)) == o3
            &&& r.1 <==> le_nat(r.0@) <= le_nat(target)
        }),
{
    let p = words_of(pre_pow_hash);
    let seed = block_seed(p, timestamp, nonce);
    let chunks = choose|chunks: Seq<[u64; 4]>|
        {
            &&& chunks.len() == k
            &&& #[trigger] walk_trace(chunk_of, seed, n_chunks, chunks)
            &&& (r.0@, r.1) == walk_outcome(pre_pow_hash, timestamp, nonce, target, chunks)
        };
    let states = Seq::new((k + 1) as nat, |i: int| state_after(seed, chunks, i));
    assert forall|i: int| 0 <= i < k implies {
        &&& call_ensures(chunk_of, (states[i] % n_chunks,), #[trigger] chunks[i])
        &&& states[i + 1] == mix64(
            states[i] ^ chunks[i]@[0] ^ chunks[i]@[1] ^ chunks[i]@[2] ^ chunks[i]@[3],
        )
    } by {
        assert(gives(chunk_of, state_after(seed, chunks, i) % n_chunks, chunks[i]));
    }
    let o = pow_words(states[k as int], p);
    law_words_round_trip(o);
    law_word_places(r.0@);
    (states, chunks)
}

/// Changing one word of one chunk that a walk came by, and nothing else that it came by, changes
/// the value: there is no proof without the weights.
pub proof fn law_value_needs_every_word(
    pre_pow_hash: Seq<u8>,
    timestamp: u64,
    nonce: u64,
    target: Seq<u8>,
    chunks: Seq<[u64; 4]>,
    i: int,
    changed: [u64; 4],
)
    requires
        0 <= i < chunks.len(),
        differ_in_one_word(chunks[i], changed),
    ensures
        walk_outcome(pre_pow_hash, timestamp, nonce, target, chunks).0 != walk_outcome(
            pre_pow_hash,
            timestamp,
            nonce,
            target,
            chunks.update(i, changed),
        ).0,
{
    let p = words_of(pre_pow_hash);
    let seed = block_seed(p, timestamp, nonce);
    let other = chunks.update(i, changed);
    let n = chunks.len() as int;
    lemma_states_part(seed, chunks, i, changed, n);
    let (s, t) = (state_after(seed, chunks, n), state_after(seed, other, n));
    law_value_tells_states(p, s, t);
    law_words_round_trip(pow_words(s, p));
    law_words_round_trip(pow_words(t, p));
}

/// Walks that end in different states of one block end in different values.
pub proof fn law_value_tells_states(p: Seq<u64>, s: u64, t: u64)
    requires
        s != t,
    ensures
        pow_words(s, p) != pow_words(t, p),
{
    let p0 = p[0];
    let x = s ^ p0 ^ 0x9E3779B97F4A7C15u64;
    let y = t ^ p0 ^ 0x9E3779B97F4A7C15u64;
    assert(x != y) by (bit_vector)
        requires
            x == s ^ p0 ^ 0x9E3779B97F4A7C15u64,
            y == t ^ p0 ^ 0x9E3779B97F4A7C15u64,
            s != t,
    ;
    law_mix64_is_injective(x, y);
    assert(pow_words(s, p)[0] != pow_words(t, p)[0]);
}

/// The states of two walks are the same up to the chunk in which they differ, and differ behind it.
proof fn lemma_states_part(seed: u64, chunks: Seq<[u64; 4]>, i: int, changed: [u64; 4], j: int)
    requires
        0 <= i < chunks.len(),
        0 <= j <= chunks.len(),
        differ_in_one_word(chunks[i], changed),
    ensures
        j <= i ==> state_after(seed, chunks, j) == state_after(seed, chunks.update(i, changed), j),
        j > i ==> state_after(seed, chunks, j) != state_after(seed, chunks.update(i, changed), j),
    decreases j,
{
    if j > 0 {
        lemma_states_part(seed, chunks, i, changed, j - 1);
        let other = chunks.update(i, changed);
        law_step_takes_every_word(
            state_after(seed, chunks, j - 1),
            state_after(seed, other, j - 1),
            chunks[j - 1],
            other[j - 1],
        );
    }
}

} // verus!

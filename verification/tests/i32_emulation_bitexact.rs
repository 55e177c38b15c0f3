//! The arithmetic on pairs of 32-bit words, held against native `u64` arithmetic on random and
//! hand-picked words, and the two walks against each other.
use keryx_miner::emu64::{
    add64, compute_mu, from_emu, mod64_emu, mod64_fast, mul64, mulhi64, shr64, to_emu, xor64,
};
use keryx_miner::walk::{mix64_emu, mix64_native, walk_emu, walk_native};

struct Rng(u64);
impl Rng {
    fn next(&mut self) -> u64 {
        // splitmix64 generator (unrelated to mix64 above, just a convenient RNG).
        self.0 = self.0.wrapping_add(0x9E3779B97F4A7C15);
        let mut z = self.0;
        z = (z ^ (z >> 30)).wrapping_mul(0xbf58476d1ce4e5b9);
        z = (z ^ (z >> 27)).wrapping_mul(0x94d049bb133111eb);
        z ^ (z >> 31)
    }
}

const EDGE_U64: &[u64] = &[
    0,
    1,
    u64::MAX,
    u64::MAX - 1,
    1u64 << 63,
    1u64 << 32,
    (1u64 << 32) - 1,
    (1u64 << 32) + 1,
    0xAAAA_AAAA_AAAA_AAAA,
    0x5555_5555_5555_5555,
    0x0000_0000_FFFF_FFFF,
    0xFFFF_FFFF_0000_0000,
];

#[test]
fn xor64_bit_exact() {
    let mut rng = Rng(1);
    for _ in 0..10_000 {
        let (a, b) = (rng.next(), rng.next());
        assert_eq!(from_emu(xor64(to_emu(a), to_emu(b))), a ^ b);
    }
}

#[test]
fn add64_bit_exact() {
    let mut rng = Rng(2);
    for &a in EDGE_U64 {
        for &b in EDGE_U64 {
            assert_eq!(from_emu(add64(to_emu(a), to_emu(b))), a.wrapping_add(b), "add64({a:#x}, {b:#x})");
        }
    }
    for _ in 0..50_000 {
        let (a, b) = (rng.next(), rng.next());
        assert_eq!(from_emu(add64(to_emu(a), to_emu(b))), a.wrapping_add(b), "add64({a:#x}, {b:#x})");
    }
}

#[test]
fn shr64_bit_exact() {
    let mut rng = Rng(3);
    for &s in &[1u32, 27, 30, 31] {
        for &v in EDGE_U64 {
            assert_eq!(from_emu(shr64(to_emu(v), s)), v >> s, "shr64({v:#x}, {s})");
        }
        for _ in 0..20_000 {
            let v = rng.next();
            assert_eq!(from_emu(shr64(to_emu(v), s)), v >> s, "shr64({v:#x}, {s})");
        }
    }
}

#[test]
fn mul64_bit_exact() {
    let mut rng = Rng(4);
    let consts = [0xbf58476d1ce4e5b9u64, 0x94d049bb133111ebu64];
    for &c in &consts {
        for &v in EDGE_U64 {
            let expected = v.wrapping_mul(c);
            let got = from_emu(mul64(to_emu(v), to_emu(c)));
            assert_eq!(got, expected, "mul64({v:#x}, {c:#x})");
        }
        for _ in 0..50_000 {
            let v = rng.next();
            let expected = v.wrapping_mul(c);
            let got = from_emu(mul64(to_emu(v), to_emu(c)));
            assert_eq!(got, expected, "mul64({v:#x}, {c:#x})");
        }
    }
    // General a*b (not just the two mix64 constants), including both-random operands.
    for _ in 0..100_000 {
        let (a, b) = (rng.next(), rng.next());
        let expected = a.wrapping_mul(b);
        let got = from_emu(mul64(to_emu(a), to_emu(b)));
        assert_eq!(got, expected, "mul64({a:#x}, {b:#x})");
    }
}

#[test]
fn mix64_bit_exact() {
    let mut rng = Rng(5);
    for &v in EDGE_U64 {
        assert_eq!(from_emu(mix64_emu(to_emu(v))), mix64_native(v), "mix64({v:#x})");
    }
    for _ in 0..200_000 {
        let v = rng.next();
        assert_eq!(from_emu(mix64_emu(to_emu(v))), mix64_native(v), "mix64({v:#x})");
    }
}

#[test]
fn mod64_bit_exact() {
    let mut rng = Rng(6);
    // Divisors spanning realistic model chunk counts up to just under 2^31.
    let divisors: &[u32] = &[1, 2, 3, 7, 255, 1 << 16, 34_420_544, (1u32 << 31) - 1, (1u32 << 30) + 1];
    for &d in divisors {
        for &dv in EDGE_U64 {
            let expected = dv % (d as u64);
            let got = mod64_emu(to_emu(dv), d) as u64;
            assert_eq!(got, expected, "mod64({dv:#x} % {d})");
        }
        // Values right around the divisor boundary.
        for &dv in &[(d as u64).saturating_sub(1), d as u64, d as u64 + 1] {
            let expected = dv % (d as u64);
            let got = mod64_emu(to_emu(dv), d) as u64;
            assert_eq!(got, expected, "mod64({dv:#x} % {d})");
        }
        for _ in 0..20_000 {
            let dv = rng.next();
            let expected = dv % (d as u64);
            let got = mod64_emu(to_emu(dv), d) as u64;
            assert_eq!(got, expected, "mod64({dv:#x} % {d})");
        }
    }
}

#[test]
fn mulhi64_bit_exact() {
    let mut rng = Rng(8);
    for _ in 0..200_000 {
        let (a, b) = (rng.next(), rng.next());
        let expected = (((a as u128) * (b as u128)) >> 64) as u64;
        let got = from_emu(mulhi64(to_emu(a), to_emu(b)));
        assert_eq!(got, expected, "mulhi64({a:#x}, {b:#x})");
    }
    for &a in EDGE_U64 {
        for &b in EDGE_U64 {
            let expected = (((a as u128) * (b as u128)) >> 64) as u64;
            let got = from_emu(mulhi64(to_emu(a), to_emu(b)));
            assert_eq!(got, expected, "mulhi64({a:#x}, {b:#x})");
        }
    }
}

#[test]
fn mod64_fast_bit_exact() {
    let mut rng = Rng(9);
    // The divisors of the long division's test, without 1 (Barrett reduction starts at 2).
    let divisors: &[u32] = &[2, 3, 7, 255, 1 << 16, 34_420_544, (1u32 << 31) - 1, (1u32 << 30) + 1];
    for &d in divisors {
        let mu = compute_mu(d);
        for &dv in EDGE_U64 {
            let expected = dv % (d as u64);
            let got = mod64_fast(to_emu(dv), d, mu) as u64;
            assert_eq!(got, expected, "mod64_fast({dv:#x} % {d})");
        }
        for &dv in &[(d as u64).saturating_sub(1), d as u64, d as u64 + 1] {
            let expected = dv % (d as u64);
            let got = mod64_fast(to_emu(dv), d, mu) as u64;
            assert_eq!(got, expected, "mod64_fast({dv:#x} % {d})");
        }
        for _ in 0..50_000 {
            let dv = rng.next();
            let expected = dv % (d as u64);
            let got = mod64_fast(to_emu(dv), d, mu) as u64;
            assert_eq!(got, expected, "mod64_fast({dv:#x} % {d})");
        }
    }
    // Exhaustive sweep over every divisor 2..=2000 with randomized dividends — catches any
    // divisor-dependent edge case the hand-picked list above might miss.
    for d in 2u32..=2000 {
        let mu = compute_mu(d);
        for _ in 0..200 {
            let dv = rng.next();
            let expected = dv % (d as u64);
            let got = mod64_fast(to_emu(dv), d, mu) as u64;
            assert_eq!(got, expected, "mod64_fast({dv:#x} % {d})");
        }
    }
}

#[test]
fn end_to_end_walk_bit_exact() {
    let mut rng = Rng(7);
    let n_chunks: u64 = 34_420_544; // a real observed model chunk count
    // Synthetic weight blob: deterministic pseudo-random 4-word chunks, indexed by chunk offset.
    let chunk_of = |off: u64| -> [u64; 4] {
        let mut s = Rng(off ^ 0xC0FFEE);
        [s.next(), s.next(), s.next(), s.next()]
    };

    for case in 0..2_000 {
        let mut pre_pow_hash = [0u8; 32];
        let mut target = [0u8; 32];
        for b in pre_pow_hash.iter_mut() {
            *b = (rng.next() & 0xFF) as u8;
        }
        for b in target.iter_mut() {
            *b = (rng.next() & 0xFF) as u8;
        }
        let timestamp = rng.next();
        let nonce = rng.next();
        // Use a short walk length in most cases (fast), occasionally the real 256 steps.
        let k = if case % 200 == 0 { 256 } else { 8 };

        let (pow_native, le_native) = walk_native(&pre_pow_hash, timestamp, nonce, &target, n_chunks, k, chunk_of);
        let (pow_emu, le_emu) = walk_emu(&pre_pow_hash, timestamp, nonce, &target, n_chunks, k, chunk_of);

        assert_eq!(pow_emu, pow_native, "pow_value mismatch at case {case} (nonce={nonce:#x})");
        assert_eq!(le_emu, le_native, "le_leq mismatch at case {case} (nonce={nonce:#x})");
    }
}

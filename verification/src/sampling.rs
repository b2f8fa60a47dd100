//! Deterministic pseudo-random sampling. A permuted congruential mix of
//! three seeds yields fixed-point noise in `[0, SCALE)` (unsigned) or
//! `[-SCALE, SCALE)` (signed); the same seeds always give the same value.

use vstd::prelude::*;
use crate::fixed::SCALE;

verus! {

/// What `pcg_mix` returns: one round of a permuted congruential generator,
/// masked to 32 bits.
pub open spec fn pcg_mix_s(v: u32) -> u64 {
    let s = (((v as u64) * 747_796_405 + 2_891_336_453) as u64) & 0xffff_ffff;
    let shift = (((s >> 28) as u64) + 4) as u64;
    let t = (s >> shift) ^ s;
    let w = ((t * 277_803_737) as u64) & 0xffff_ffff;
    (w >> 22) ^ w
}

/// One round of a permuted congruential generator on a 32-bit word.
fn pcg_mix(v: u32) -> (r: u32)
    ensures
        r as u64 == pcg_mix_s(v),
{
    let scrambled: u64 = (v as u64) * 747_796_405 + 2_891_336_453;
    let s: u64 = scrambled & 0xffff_ffff;
    assert(s <= 0xffff_ffff) by (bit_vector)
        requires
            s == scrambled & 0xffff_ffff,
    ;
    assert(s >> 28 <= 15) by (bit_vector)
        requires
            s <= 0xffff_ffff,
    ;
    let shift: u64 = (s >> 28) + 4;
    let t: u64 = (s >> shift) ^ s;
    assert(t <= 0xffff_ffff) by (bit_vector)
        requires
            t == (s >> shift) ^ s,
            s <= 0xffff_ffff,
    ;
    let spread: u64 = t * 277_803_737;
    let w: u64 = spread & 0xffff_ffff;
    assert(w <= 0xffff_ffff) by (bit_vector)
        requires
            w == spread & 0xffff_ffff,
    ;
    let r: u64 = (w >> 22) ^ w;
    assert(r <= 0xffff_ffff) by (bit_vector)
        requires
            r == (w >> 22) ^ w,
            w <= 0xffff_ffff,
    ;
    r as u32
}

/// The masked mix always fits 32 bits.
pub proof fn lemma_pcg_mix_s_fits(v: u32)
    ensures
        pcg_mix_s(v) <= 0xffff_ffff,
{
    let s = (((v as u64) * 747_796_405 + 2_891_336_453) as u64) & 0xffff_ffff;
    let shift = (((s >> 28) as u64) + 4) as u64;
    let t = (s >> shift) ^ s;
    let w = ((t * 277_803_737) as u64) & 0xffff_ffff;
    assert((w >> 22) ^ w <= 0xffff_ffff && w <= 0xffff_ffff && s <= 0xffff_ffff) by (bit_vector)
        requires
            s == (((v as u64) * 747_796_405 + 2_891_336_453) as u64) & 0xffff_ffff,
            shift == (((s >> 28) as u64) + 4) as u64,
            t == (s >> shift) ^ s,
            w == ((t * 277_803_737) as u64) & 0xffff_ffff,
    ;
}

/// What `hash_noise` returns: three mixing rounds folded over the seeds,
/// reduced to `[0, SCALE)`.
pub open spec fn hash_noise_s(a: u32, b: u32, c: u32) -> int {
    let inner = (b ^ (pcg_mix_s(c) as u32)) as u32;
    let mid = (a ^ (pcg_mix_s(inner) as u32)) as u32;
    pcg_mix_s(mid) as int % (SCALE as int)
}

/// Noise in `[0, SCALE)` from three seeds.
pub fn hash_noise(a: u32, b: u32, c: u32) -> (r: i64)
    ensures
        r == hash_noise_s(a, b, c),
        0 <= r < SCALE,
{
    proof {
        lemma_pcg_mix_s_fits(c);
    }
    let inner: u32 = b ^ pcg_mix(c);
    proof {
        lemma_pcg_mix_s_fits(inner);
    }
    let mid: u32 = a ^ pcg_mix(inner);
    let h: u32 = pcg_mix(mid);
    ((h as u64) % (SCALE as u64)) as i64
}

/// The noise stays in its range.
pub proof fn lemma_hash_noise_range(a: u32, b: u32, c: u32)
    ensures
        0 <= hash_noise_s(a, b, c) < SCALE,
        -SCALE <= hash_noise_signed_s(a, b, c) < SCALE,
{
    let inner = (b ^ (pcg_mix_s(c) as u32)) as u32;
    let mid = (a ^ (pcg_mix_s(inner) as u32)) as u32;
    vstd::arithmetic::div_mod::lemma_mod_bound(pcg_mix_s(mid) as int, SCALE as int);
}

/// What `hash_noise_signed` returns: the unsigned noise stretched to
/// `[-SCALE, SCALE)`.
pub open spec fn hash_noise_signed_s(a: u32, b: u32, c: u32) -> int {
    2 * hash_noise_s(a, b, c) - SCALE as int
}

/// Noise in `[-SCALE, SCALE)` from three seeds.
pub fn hash_noise_signed(a: u32, b: u32, c: u32) -> (r: i64)
    ensures
        r == hash_noise_signed_s(a, b, c),
        -SCALE <= r < SCALE,
{
    2 * hash_noise(a, b, c) - SCALE
}

} // verus!

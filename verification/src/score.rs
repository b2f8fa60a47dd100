//! Scoring and game speed: the raw score grows with hits and with time
//! blobs stay alive, the hit/miss counters feed the composite display
//! score, and the game speed creeps up every frame.

use vstd::prelude::*;
use crate::fixed::{SCALE, PRODUCT_LIMIT, fp_mul_s, fp_div_s};

verus! {

/// The raw score saturates here.
pub const SCORE_LIMIT: i64 = 1_000_000_000_000_000;

/// The hit and miss counters saturate here.
pub const COUNT_LIMIT: u64 = 1_000_000_000_000;

/// The game speed saturates here.
pub const SPEED_LIMIT: i64 = 10_000_000_000;

/// Raw-score points for one hit, per unit of game speed.
pub const HIT_SCORE: i64 = 5_000_000;

/// Raw-score points per second, per blob still alive.
pub const ALIVE_SCORE_RATE: i64 = 500_000;

/// How fast the game speed creeps up, scaled down by the current speed.
pub const SPEED_GAIN: i64 = 50_000;

/// The running score: raw points, and how many clicks hit or missed.
#[derive(Clone, Copy, Debug)]
pub struct Score {
    pub raw: i64,
    pub hits: u64,
    pub misses: u64,
}

impl Score {
    /// The bounds a score keeps: nonnegative raw points and saturating
    /// counters.
    pub open spec fn wf(self) -> bool {
        &&& 0 <= self.raw <= SCORE_LIMIT
        &&& self.hits <= COUNT_LIMIT
        &&& self.misses <= COUNT_LIMIT
    }
}

impl Default for Score {
    /// A fresh score: no points, no hits, no misses.
    fn default() -> (s: Score)
        ensures
            s.raw == 0,
            s.hits == 0,
            s.misses == 0,
    {
        Score { raw: 0, hits: 0, misses: 0 }
    }
}

/// The global speed factor of the simulation.
#[derive(Clone, Copy, PartialEq, Eq, Structural, Debug)]
pub struct GameSpeed(pub i64);

impl GameSpeed {
    /// The bounds a speed keeps: positive, saturating at `SPEED_LIMIT`.
    pub open spec fn wf(self) -> bool {
        1 <= self.0 <= SPEED_LIMIT
    }
}

impl Default for GameSpeed {
    /// The speed a new game starts at: 0.8 units.
    fn default() -> (s: GameSpeed)
        ensures
            s.0 == 800_000,
    {
        GameSpeed(800_000)
    }
}

/// What one frame does to the speed: it gains `dt * SPEED_GAIN / speed`,
/// saturating at `SPEED_LIMIT`.
pub open spec fn bumped_speed(speed: int, dt: int) -> int {
    let gain = fp_div_s(fp_mul_s(dt, SPEED_GAIN as int), speed);
    if speed + gain > SPEED_LIMIT {
        SPEED_LIMIT as int
    } else {
        speed + gain
    }
}

/// Advances the game speed by one frame of `dt` seconds.
pub fn bump_game_speed(speed: &mut GameSpeed, dt: i64)
    requires
        old(speed).wf(),
        0 < dt <= SCALE,
    ensures
        final(speed).0 == bumped_speed(old(speed).0 as int, dt as int),
        final(speed).wf(),
{
    proof {
        vstd::arithmetic::div_mod::lemma_div_pos_is_pos(dt * (SPEED_GAIN as int), SCALE as int);
        vstd::arithmetic::div_mod::lemma_div_is_ordered(
            dt * (SPEED_GAIN as int),
            SCALE as int * (SPEED_GAIN as int),
            SCALE as int,
        );
    }
    let scaled: i64 = crate::fixed::fp_mul(dt, SPEED_GAIN);
    proof {
        vstd::arithmetic::div_mod::lemma_div_pos_is_pos(scaled as int * (SCALE as int), speed.0 as int);
        vstd::arithmetic::div_mod::lemma_div_is_ordered_by_denominator(
            scaled as int * (SCALE as int),
            1,
            speed.0 as int,
        );
    }
    let gain: i64 = crate::fixed::fp_div(scaled, speed.0);
    if speed.0 + gain > SPEED_LIMIT {
        speed.0 = SPEED_LIMIT;
    } else {
        speed.0 = speed.0 + gain;
    }
}

/// What a hit adds to the raw score: `HIT_SCORE * speed`, saturating.
pub open spec fn raw_after_hit(raw: int, speed: int) -> int {
    if raw + fp_mul_s(HIT_SCORE as int, speed) > SCORE_LIMIT {
        SCORE_LIMIT as int
    } else {
        raw + fp_mul_s(HIT_SCORE as int, speed)
    }
}

/// Credits one hit: raw points grow with the game speed and the hit
/// counter steps, both saturating.
pub fn add_hit(score: &mut Score, speed: GameSpeed)
    requires
        old(score).wf(),
        speed.wf(),
    ensures
        final(score).raw == raw_after_hit(old(score).raw as int, speed.0 as int),
        final(score).hits == if old(score).hits < COUNT_LIMIT {
            old(score).hits + 1
        } else {
            old(score).hits as int
        },
        final(score).misses == old(score).misses,
        final(score).wf(),
{
    proof {
        crate::fixed::lemma_fp_mul_bound(
            HIT_SCORE as int,
            speed.0 as int,
            HIT_SCORE as int,
            SPEED_LIMIT as int,
        );
    }
    let gain: i64 = crate::fixed::fp_mul(HIT_SCORE, speed.0);
    if score.raw + gain > SCORE_LIMIT {
        score.raw = SCORE_LIMIT;
    } else {
        score.raw = score.raw + gain;
    }
    if score.hits < COUNT_LIMIT {
        score.hits = score.hits + 1;
    }
}

/// Counts one miss: the miss counter steps, saturating.
pub fn add_miss(score: &mut Score)
    requires
        old(score).wf(),
    ensures
        final(score).misses == if old(score).misses < COUNT_LIMIT {
            old(score).misses + 1
        } else {
            old(score).misses as int
        },
        final(score).raw == old(score).raw,
        final(score).hits == old(score).hits,
        final(score).wf(),
{
    if score.misses < COUNT_LIMIT {
        score.misses = score.misses + 1;
    }
}

/// The composite score shown to the player: one fifth of the raw score,
/// plus four fifths weighted by the hit/miss ratio `(hits+20)/(misses+20)`,
/// saturating at the largest machine value.
pub open spec fn comp_score_s(raw: int, hits: int, misses: int) -> int {
    let ratio = ((hits + 20) * (SCALE as int)) / (misses + 20);
    let blended = (raw * 200_000) / (SCALE as int) + (((raw * ratio) / (SCALE as int)) * 800_000)
        / (SCALE as int);
    if blended > PRODUCT_LIMIT {
        PRODUCT_LIMIT as int
    } else {
        blended
    }
}

/// Computes the composite display score from a well-formed score.
pub fn comp_score(score: &Score) -> (r: i64)
    requires
        score.wf(),
    ensures
        r == comp_score_s(score.raw as int, score.hits as int, score.misses as int),
{
    let raw: u128 = score.raw as u128;
    proof {
        vstd::arithmetic::mul::lemma_mul_upper_bound(
            score.hits as int + 20,
            COUNT_LIMIT as int + 20,
            SCALE as int,
            SCALE as int,
        );
    }
    let ratio: u128 = ((score.hits as u128 + 20) * (SCALE as u128)) / (score.misses as u128 + 20);
    proof {
        let s = SCALE as int;
        let num = (score.hits as int + 20) * s;
        let cap_num = (COUNT_LIMIT as int + 20) * s;
        let den = score.misses as int + 20;
        vstd::arithmetic::div_mod::lemma_div_pos_is_pos(num, den);
        vstd::arithmetic::div_mod::lemma_div_is_ordered(num, cap_num, den);
        vstd::arithmetic::div_mod::lemma_div_is_ordered_by_denominator(cap_num, 20, den);
        vstd::arithmetic::mul::lemma_mul_upper_bound(
            raw as int,
            SCORE_LIMIT as int,
            ratio as int,
            cap_num / 20,
        );
        vstd::arithmetic::mul::lemma_mul_nonnegative(raw as int, ratio as int);
        vstd::arithmetic::div_mod::lemma_div_pos_is_pos(raw as int * ratio as int, s);
        vstd::arithmetic::div_mod::lemma_div_is_ordered(
            raw as int * ratio as int,
            SCORE_LIMIT as int * (cap_num / 20),
            s,
        );
    }
    let part_flat: u128 = (raw * 200_000) / (SCALE as u128);
    let part_ratio: u128 = (((raw * ratio) / (SCALE as u128)) * 800_000) / (SCALE as u128);
    let blended: u128 = part_flat + part_ratio;
    if blended > PRODUCT_LIMIT as u128 {
        PRODUCT_LIMIT
    } else {
        blended as i64
    }
}

} // verus!

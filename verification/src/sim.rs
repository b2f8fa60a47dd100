//! Per-frame simulation of the round blobs: growth and shrinking of the
//! radius, the clickable flag, motion with wall bounces, and the score
//! that accrues while blobs stay alive.

use vstd::prelude::*;
use crate::fixed::{
    SCALE, fp_mul, fp_mul_s, fp_div, fp_div_s, clamp_fx, clamp_s, lemma_fp_mul_bound,
};
use crate::blob::{
    Blob, BlobKind, BlobView, BlobKindView, BlobSizeRadius, BlobGrowing, BlobClickableSize,
    BlobPosition, BlobVelocity, World, RADIUS_LIMIT, POS_LIMIT, VEL_LIMIT,
};
use crate::geom::Vec2Fx;
use crate::score::{Score, GameSpeed, SCORE_LIMIT, SPEED_LIMIT, ALIVE_SCORE_RATE, bumped_speed};

verus! {

/// Units of radius a blob loses per second while not growing.
pub const SHRINK_SPEED: i64 = 20_000;

/// Units of radius a growing blob gains per second.
pub const GROW_SPEED: i64 = 950_000;

/// Numerator of the per-frame decay of the growth impulse.
pub const GROW_DECAY_NUM: i64 = 750;

/// The growth impulse decays at least this fast each frame.
pub const GROW_DECAY_CAP: i64 = 990_000;

/// The factor the growth impulse shrinks by in a frame of `dt` seconds:
/// `GROW_DECAY_NUM / dt`, capped at `GROW_DECAY_CAP`.
pub open spec fn grow_decay_factor(dt: int) -> int {
    let quick = fp_div_s(GROW_DECAY_NUM as int, dt);
    if quick < GROW_DECAY_CAP {
        quick
    } else {
        GROW_DECAY_CAP as int
    }
}

/// What one frame of `dt` seconds does to a single blob's radius and
/// growth impulse. A growing round blob swells and its impulse decays;
/// any other round blob shrinks; splashes are left alone. Radii saturate
/// at `RADIUS_LIMIT` in magnitude.
pub open spec fn shrink_grow_step(b: BlobView, dt: int) -> BlobView {
    match b.kind {
        BlobKindView::Splash { .. } => b,
        BlobKindView::Round { growing, clickable } => {
            if growing > 0 {
                (BlobView {
                    size: clamp_s(
                        b.size + fp_mul_s(dt, GROW_SPEED as int),
                        -RADIUS_LIMIT as int,
                        RADIUS_LIMIT as int,
                    ) as i64,
                    kind: BlobKindView::Round {
                        growing: fp_mul_s(growing as int, grow_decay_factor(dt)) as i64,
                        clickable,
                    },
                    ..b
                })
            } else {
                (BlobView {
                    size: clamp_s(
                        b.size - fp_mul_s(dt, SHRINK_SPEED as int),
                        -RADIUS_LIMIT as int,
                        RADIUS_LIMIT as int,
                    ) as i64,
                    ..b
                })
            }
        },
    }
}

/// `shrink_grow_step` keeps a blob well formed and does not touch its
/// identity, position, velocity, color or clickability.
pub proof fn lemma_shrink_grow_step_wf(b: BlobView, dt: int)
    requires
        b.wf(),
        0 < dt <= SCALE,
    ensures
        shrink_grow_step(b, dt).wf(),
        shrink_grow_step(b, dt).id == b.id,
        shrink_grow_step(b, dt).is_splash() == b.is_splash(),
{
    match b.kind {
        BlobKindView::Splash { .. } => {},
        BlobKindView::Round { growing, clickable } => {
            if growing > 0 {
                let factor = grow_decay_factor(dt);
                vstd::arithmetic::div_mod::lemma_div_pos_is_pos(
                    GROW_DECAY_NUM as int * (SCALE as int),
                    dt,
                );
                lemma_fp_mul_bound(growing as int, factor, SCALE as int, GROW_DECAY_CAP as int);
                vstd::arithmetic::mul::lemma_mul_nonnegative(growing as int, factor);
                vstd::arithmetic::div_mod::lemma_div_pos_is_pos(
                    growing as int * factor,
                    SCALE as int,
                );
            }
        },
    }
}

/// Advances every blob's radius and growth impulse by one frame of `dt`
/// seconds.
pub fn shrink_grow_blobs(world: &mut World, dt: i64)
    requires
        old(world)@.wf(),
        0 < dt <= SCALE,
    ensures
        final(world)@.wf(),
        final(world)@.next_id == old(world)@.next_id,
        final(world)@.blobs.len() == old(world)@.blobs.len(),
        forall|i: int|
            0 <= i < old(world)@.blobs.len() ==> #[trigger] final(world)@.blobs[i]
                == shrink_grow_step(old(world)@.blobs[i], dt as int),
{
    let ghost orig: Seq<BlobView> = world@.blobs;
    let n: usize = world.blobs.len();
    let mut i: usize = 0;
    while i < n
        invariant
            n == orig.len(),
            i <= n,
            world.blobs@.len() == orig.len(),
            world.next_id == old(world).next_id,
            0 < dt <= SCALE,
            forall|j: int| 0 <= j < orig.len() ==> #[trigger] orig[j].wf(),
            forall|j: int|
                0 <= j < i ==> (#[trigger] world.blobs@[j])@ == shrink_grow_step(
                    orig[j],
                    dt as int,
                ),
            forall|j: int| i <= j < orig.len() ==> (#[trigger] world.blobs@[j])@ == orig[j],
        decreases n - i,
    {
        let ghost pre: Seq<Blob> = world.blobs@;
        proof {
            assert(world.blobs@[i as int]@ == orig[i as int]);
            assert(orig[i as int].wf());
        }
        let round_state: Option<(i64, bool)> = match &world.blobs[i].kind {
            BlobKind::Round { growing, clickable } => Some((growing.0, *clickable)),
            BlobKind::Splash(_) => None,
        };
        if let Some((growing, clickable)) = round_state {
            if growing > 0 {
                let swell: i64 = fp_mul(dt, GROW_SPEED);
                proof {
                    lemma_fp_mul_bound(dt as int, GROW_SPEED as int, SCALE as int, GROW_SPEED as int);
                }
                let ns: i64 = clamp_fx(world.blobs[i].size.0 + swell, -RADIUS_LIMIT, RADIUS_LIMIT);
                let quick: i64 = fp_div(GROW_DECAY_NUM, dt);
                let factor: i64 = if quick < GROW_DECAY_CAP {
                    quick
                } else {
                    GROW_DECAY_CAP
                };
                proof {
                    vstd::arithmetic::div_mod::lemma_div_pos_is_pos(
                        GROW_DECAY_NUM as int * (SCALE as int),
                        dt as int,
                    );
                    lemma_fp_mul_bound(
                        growing as int,
                        factor as int,
                        SCALE as int,
                        GROW_DECAY_CAP as int,
                    );
                }
                let ng: i64 = fp_mul(growing, factor);
                world.blobs[i].size = BlobSizeRadius(ns);
                world.blobs[i].kind = BlobKind::Round {
                    growing: BlobGrowing(ng),
                    clickable,
                };
            } else {
                let fade: i64 = fp_mul(dt, SHRINK_SPEED);
                proof {
                    lemma_fp_mul_bound(
                        dt as int,
                        SHRINK_SPEED as int,
                        SCALE as int,
                        SHRINK_SPEED as int,
                    );
                }
                let ns: i64 = clamp_fx(world.blobs[i].size.0 - fade, -RADIUS_LIMIT, RADIUS_LIMIT);
                world.blobs[i].size = BlobSizeRadius(ns);
            }
        }
        proof {
            assert(world.blobs@[i as int]@ == shrink_grow_step(orig[i as int], dt as int));
            assert forall|j: int| 0 <= j < orig.len() && j != i as int implies world.blobs@[j]
                == pre[j] by {}
        }
        i += 1;
    }
    proof {
        assert forall|j: int| 0 <= j < orig.len() implies #[trigger] final(world)@.blobs[j]
            == shrink_grow_step(orig[j], dt as int) by {
            assert(final(world)@.blobs[j] == world.blobs@[j]@);
        }
        assert forall|j: int| 0 <= j < final(world)@.blobs.len() implies #[trigger] final(world)@.blobs[j].wf() && final(world)@.blobs[j].id == orig[j].id by {
            lemma_shrink_grow_step_wf(orig[j], dt as int);
        }
    }
}

/// What the clickable flag becomes: a round blob is clickable exactly when
/// it has shrunk below `threshold` and carries no growth impulse.
pub open spec fn set_state_step(b: BlobView, threshold: int) -> BlobView {
    match b.kind {
        BlobKindView::Splash { .. } => b,
        BlobKindView::Round { growing, .. } => (BlobView {
            kind: BlobKindView::Round {
                growing,
                clickable: b.size < threshold && growing == 0,
            },
            ..b
        }),
    }
}

/// `set_state_step` keeps a blob well formed and does not touch anything
/// but the clickable flag.
pub proof fn lemma_set_state_step_wf(b: BlobView, threshold: int)
    requires
        b.wf(),
    ensures
        set_state_step(b, threshold).wf(),
        set_state_step(b, threshold).id == b.id,
        set_state_step(b, threshold).is_splash() == b.is_splash(),
{
}

/// Recomputes every round blob's clickable flag against the threshold.
pub fn set_blob_state(world: &mut World, clickable_size: BlobClickableSize)
    requires
        old(world)@.wf(),
    ensures
        final(world)@.wf(),
        final(world)@.next_id == old(world)@.next_id,
        final(world)@.blobs.len() == old(world)@.blobs.len(),
        forall|i: int|
            0 <= i < old(world)@.blobs.len() ==> #[trigger] final(world)@.blobs[i]
                == set_state_step(old(world)@.blobs[i], clickable_size.0 as int),
{
    let ghost orig: Seq<BlobView> = world@.blobs;
    let n: usize = world.blobs.len();
    let mut i: usize = 0;
    while i < n
        invariant
            n == orig.len(),
            i <= n,
            world.blobs@.len() == orig.len(),
            world.next_id == old(world).next_id,
            forall|j: int| 0 <= j < orig.len() ==> #[trigger] orig[j].wf(),
            forall|j: int|
                0 <= j < i ==> (#[trigger] world.blobs@[j])@ == set_state_step(
                    orig[j],
                    clickable_size.0 as int,
                ),
            forall|j: int| i <= j < orig.len() ==> (#[trigger] world.blobs@[j])@ == orig[j],
        decreases n - i,
    {
        let ghost pre: Seq<Blob> = world.blobs@;
        proof {
            assert(world.blobs@[i as int]@ == orig[i as int]);
        }
        let round_state: Option<i64> = match &world.blobs[i].kind {
            BlobKind::Round { growing, .. } => Some(growing.0),
            BlobKind::Splash(_) => None,
        };
        if let Some(growing) = round_state {
            let clickable: bool = world.blobs[i].size.0 < clickable_size.0 && growing == 0;
            world.blobs[i].kind = BlobKind::Round {
                growing: BlobGrowing(growing),
                clickable,
            };
        }
        proof {
            assert(world.blobs@[i as int]@ == set_state_step(orig[i as int], clickable_size.0 as int));
            assert forall|j: int| 0 <= j < orig.len() && j != i as int implies world.blobs@[j]
                == pre[j] by {}
        }
        i += 1;
    }
    proof {
        assert forall|j: int| 0 <= j < orig.len() implies #[trigger] final(world)@.blobs[j]
            == set_state_step(orig[j], clickable_size.0 as int) by {
            assert(final(world)@.blobs[j] == world.blobs@[j]@);
        }
        assert forall|j: int| 0 <= j < final(world)@.blobs.len() implies #[trigger] final(world)@.blobs[j].wf() && final(world)@.blobs[j].id == orig[j].id by {
            lemma_set_state_step_wf(orig[j], clickable_size.0 as int);
        }
    }
}

/// How many round blobs still have a positive radius.
pub open spec fn alive_count(blobs: Seq<BlobView>) -> int
    decreases blobs.len(),
{
    if blobs.len() == 0 {
        0
    } else {
        alive_count(blobs.drop_last()) + if !blobs.last().is_splash() && blobs.last().size > 0 {
            1int
        } else {
            0int
        }
    }
}

/// The alive count never exceeds the number of blobs.
pub proof fn lemma_alive_count_le_len(blobs: Seq<BlobView>)
    ensures
        0 <= alive_count(blobs) <= blobs.len(),
    decreases blobs.len(),
{
    if blobs.len() > 0 {
        lemma_alive_count_le_len(blobs.drop_last());
    }
}

/// Counts the round blobs that still have a positive radius.
pub fn count_alive(world: &World) -> (alive: usize)
    ensures
        alive == alive_count(world@.blobs),
        alive <= world@.blobs.len(),
{
    let n: usize = world.blobs.len();
    let mut alive: usize = 0;
    let mut i: usize = 0;
    while i < n
        invariant
            i <= n,
            n == world@.blobs.len(),
            alive == alive_count(world@.blobs.take(i as int)),
            alive <= i,
        decreases n - i,
    {
        proof {
            lemma_alive_count_le_len(world@.blobs.take(i as int));
            assert(world@.blobs.take(i + 1 as int).drop_last() =~= world@.blobs.take(i as int));
            assert(world@.blobs.take(i + 1 as int).last() == world@.blobs[i as int]);
            assert(world@.blobs[i as int] == world.blobs@[i as int]@);
        }
        let alive_now: bool = !world.blobs[i].is_splash_blob() && world.blobs[i].size.0 > 0;
        if alive_now {
            alive += 1;
        }
        i += 1;
    }
    proof {
        assert(world@.blobs.take(n as int) =~= world@.blobs);
    }
    alive
}

/// What one frame adds to the raw score: half a point per second for each
/// round blob still alive, saturating at `SCORE_LIMIT`.
pub open spec fn raw_after_tick(raw: int, dt: int, alive: int) -> int {
    let gain = fp_mul_s(dt * alive, ALIVE_SCORE_RATE as int);
    if raw + gain > SCORE_LIMIT {
        SCORE_LIMIT as int
    } else {
        raw + gain
    }
}

/// Accrues score for the round blobs that are still alive this frame.
pub fn update_score(score: &mut Score, world: &World, dt: i64)
    requires
        old(score).wf(),
        world@.wf(),
        0 < dt <= SCALE,
    ensures
        final(score).wf(),
        final(score).raw == raw_after_tick(
            old(score).raw as int,
            dt as int,
            alive_count(world@.blobs),
        ),
        final(score).hits == old(score).hits,
        final(score).misses == old(score).misses,
{
    let alive: usize = count_alive(world);
    proof {
        lemma_alive_count_le_len(world@.blobs);
        vstd::arithmetic::mul::lemma_mul_upper_bound(
            dt as int,
            SCALE as int,
            alive as int,
            crate::blob::BLOB_LIMIT as int,
        );
        vstd::arithmetic::mul::lemma_mul_nonnegative(dt as int, alive as int);
        lemma_fp_mul_bound(
            dt as int * alive as int,
            ALIVE_SCORE_RATE as int,
            SCALE as int * crate::blob::BLOB_LIMIT as int,
            ALIVE_SCORE_RATE as int,
        );
    }
    let ticks: i64 = dt * (alive as i64);
    let gain: i64 = fp_mul(ticks, ALIVE_SCORE_RATE);
    if score.raw + gain > SCORE_LIMIT {
        score.raw = SCORE_LIMIT;
    } else {
        score.raw = score.raw + gain;
    }
}

/// Where a blob struck a wall this frame, for the ripple shader: the
/// contact point and the blob's radius.
#[derive(Clone, Copy, PartialEq, Eq, Structural, Debug)]
pub struct RippleHit {
    pub x: i64,
    pub y: i64,
    pub radius: i64,
}

/// The aspect ratio of a window, in fixed-point units: width over height.
pub open spec fn window_ratio_s(w: int, h: int) -> int {
    (w * (SCALE as int)) / h
}

/// Computes the window's aspect ratio.
pub fn window_ratio(w: u32, h: u32) -> (r: i64)
    requires
        1 <= h,
        w <= 100 * h,
    ensures
        r == window_ratio_s(w as int, h as int),
        0 <= r <= 100 * SCALE,
{
    proof {
        vstd::arithmetic::div_mod::lemma_div_pos_is_pos(w as int * (SCALE as int), h as int);
        assert((w as int * (SCALE as int)) / (h as int) <= 100 * (SCALE as int))
            by (nonlinear_arith)
            requires
                w as int <= 100 * (h as int),
                1 <= h as int,
        ;
    }
    ((w as u64 * (SCALE as u64)) / (h as u64)) as i64
}

/// Where one coordinate lands after a frame: the velocity, scaled by the
/// frame time and the game speed, is applied and the result saturates at
/// `POS_LIMIT` in magnitude.
pub open spec fn moved_coord(p: int, v: int, dt: int, speed: int) -> int {
    clamp_s(p + fp_mul_s(fp_mul_s(v, dt), speed), -POS_LIMIT as int, POS_LIMIT as int)
}

/// What one frame does to a single blob's position and velocity. Every
/// blob drifts with its velocity; a round blob additionally bounces off
/// the walls of the viewport, whose half-width is the aspect `ratio` and
/// half-height one unit: each wall it overlaps flips the matching velocity
/// component and marks a ripple contact, the top wall taking precedence
/// over the right, the right over the bottom, the bottom over the left.
pub open spec fn move_step(b: BlobView, dt: int, speed: int, ratio: int) -> (BlobView, Option<
    RippleHit,
>) {
    let px = moved_coord(b.pos.x as int, b.vel.x as int, dt, speed);
    let py = moved_coord(b.pos.y as int, b.vel.y as int, dt, speed);
    let moved = Vec2Fx { x: px as i64, y: py as i64 };
    if b.is_splash() {
        ((BlobView { pos: moved, ..b }), None::<RippleHit>)
    } else {
        let s = b.size as int;
        let c_left = px - s < -ratio;
        let c_bottom = py - s < -(SCALE as int);
        let c_right = px + s > ratio;
        let c_top = py + s > SCALE as int;
        let vx = if c_left != c_right {
            -b.vel.x as int
        } else {
            b.vel.x as int
        };
        let vy = if c_bottom != c_top {
            -b.vel.y as int
        } else {
            b.vel.y as int
        };
        let hit = if c_top {
            Some(RippleHit { x: px as i64, y: (py + s) as i64, radius: b.size })
        } else if c_right {
            Some(RippleHit { x: (px + s) as i64, y: py as i64, radius: b.size })
        } else if c_bottom {
            Some(RippleHit { x: px as i64, y: (py - s) as i64, radius: b.size })
        } else if c_left {
            Some(RippleHit { x: (px + s) as i64, y: py as i64, radius: b.size })
        } else {
            None::<RippleHit>
        };
        ((BlobView { pos: moved, vel: Vec2Fx { x: vx as i64, y: vy as i64 }, ..b }), hit)
    }
}

/// The ripple contact the whole frame reports: that of the last blob in
/// store order that struck a wall.
pub open spec fn last_hit(blobs: Seq<BlobView>, dt: int, speed: int, ratio: int) -> Option<
    RippleHit,
>
    decreases blobs.len(),
{
    if blobs.len() == 0 {
        None::<RippleHit>
    } else {
        let here = move_step(blobs.last(), dt, speed, ratio).1;
        if here is Some {
            here
        } else {
            last_hit(blobs.drop_last(), dt, speed, ratio)
        }
    }
}

/// `move_step` keeps a blob well formed and does not touch its identity,
/// kind, radius or color.
pub proof fn lemma_move_step_wf(b: BlobView, dt: int, speed: int, ratio: int)
    requires
        b.wf(),
        0 < dt <= SCALE,
        1 <= speed <= SPEED_LIMIT,
    ensures
        move_step(b, dt, speed, ratio).0.wf(),
        move_step(b, dt, speed, ratio).0.id == b.id,
        move_step(b, dt, speed, ratio).0.is_splash() == b.is_splash(),
{
    lemma_fp_mul_bound(b.vel.x as int, dt, VEL_LIMIT as int, SCALE as int);
    lemma_fp_mul_bound(b.vel.y as int, dt, VEL_LIMIT as int, SCALE as int);
}

/// Advances the game speed, then every blob's position; round blobs
/// bounce off the viewport walls. Returns the frame's ripple contact,
/// if any blob struck a wall.
#[verifier::rlimit(30)]
pub fn move_blobs(
    world: &mut World,
    dt: i64,
    window_w: u32,
    window_h: u32,
    speed: &mut GameSpeed,
) -> (hit: Option<RippleHit>)
    requires
        old(world)@.wf(),
        0 < dt <= SCALE,
        old(speed).wf(),
        1 <= window_h,
        window_w <= 100 * window_h,
    ensures
        final(speed).0 == bumped_speed(old(speed).0 as int, dt as int),
        final(speed).wf(),
        final(world)@.wf(),
        final(world)@.next_id == old(world)@.next_id,
        final(world)@.blobs.len() == old(world)@.blobs.len(),
        forall|i: int|
            0 <= i < old(world)@.blobs.len() ==> #[trigger] final(world)@.blobs[i] == move_step(
                old(world)@.blobs[i],
                dt as int,
                final(speed).0 as int,
                window_ratio_s(window_w as int, window_h as int),
            ).0,
        hit == last_hit(
            old(world)@.blobs,
            dt as int,
            final(speed).0 as int,
            window_ratio_s(window_w as int, window_h as int),
        ),
{
    crate::score::bump_game_speed(speed, dt);
    let spd: i64 = speed.0;
    let ratio: i64 = window_ratio(window_w, window_h);
    let ghost orig: Seq<BlobView> = world@.blobs;
    let n: usize = world.blobs.len();
    let mut hit: Option<RippleHit> = None;
    let mut i: usize = 0;
    while i < n
        invariant
            n == orig.len(),
            i <= n,
            world.blobs@.len() == orig.len(),
            world.next_id == old(world).next_id,
            0 < dt <= SCALE,
            1 <= spd <= SPEED_LIMIT,
            0 <= ratio <= 100 * SCALE,
            forall|j: int| 0 <= j < orig.len() ==> #[trigger] orig[j].wf(),
            forall|j: int|
                0 <= j < i ==> (#[trigger] world.blobs@[j])@ == move_step(
                    orig[j],
                    dt as int,
                    spd as int,
                    ratio as int,
                ).0,
            forall|j: int| i <= j < orig.len() ==> (#[trigger] world.blobs@[j])@ == orig[j],
            hit == last_hit(orig.take(i as int), dt as int, spd as int, ratio as int),
        decreases n - i,
    {
        let ghost pre: Seq<Blob> = world.blobs@;
        proof {
            assert(world.blobs@[i as int]@ == orig[i as int]);
            assert(orig[i as int].wf());
            lemma_fp_mul_bound(
                orig[i as int].vel.x as int,
                dt as int,
                VEL_LIMIT as int,
                SCALE as int,
            );
            lemma_fp_mul_bound(
                orig[i as int].vel.y as int,
                dt as int,
                VEL_LIMIT as int,
                SCALE as int,
            );
        }
        let vx: i64 = world.blobs[i].vel.0.x;
        let vy: i64 = world.blobs[i].vel.0.y;
        let sx: i64 = fp_mul(vx, dt);
        let sy: i64 = fp_mul(vy, dt);
        proof {
            lemma_fp_mul_bound(sx as int, spd as int, VEL_LIMIT as int, SPEED_LIMIT as int);
            lemma_fp_mul_bound(sy as int, spd as int, VEL_LIMIT as int, SPEED_LIMIT as int);
        }
        let dx: i64 = fp_mul(sx, spd);
        let dy: i64 = fp_mul(sy, spd);
        let px: i64 = clamp_fx(world.blobs[i].pos.0.x + dx, -POS_LIMIT, POS_LIMIT);
        let py: i64 = clamp_fx(world.blobs[i].pos.0.y + dy, -POS_LIMIT, POS_LIMIT);
        world.blobs[i].pos = BlobPosition(Vec2Fx { x: px, y: py });
        if !world.blobs[i].is_splash_blob() {
            let s: i64 = world.blobs[i].size.0;
            let mut nvx: i64 = vx;
            let mut nvy: i64 = vy;
            if px - s < -ratio {
                nvx = -nvx;
                hit = Some(RippleHit { x: px + s, y: py, radius: s });
            }
            if py - s < -SCALE {
                nvy = -nvy;
                hit = Some(RippleHit { x: px, y: py - s, radius: s });
            }
            if px + s > ratio {
                nvx = -nvx;
                hit = Some(RippleHit { x: px + s, y: py, radius: s });
            }
            if py + s > SCALE {
                nvy = -nvy;
                hit = Some(RippleHit { x: px, y: py + s, radius: s });
            }
            world.blobs[i].vel = BlobVelocity(Vec2Fx { x: nvx, y: nvy });
        }
        proof {
            assert(world.blobs@[i as int]@ == move_step(
                orig[i as int],
                dt as int,
                spd as int,
                ratio as int,
            ).0);
            assert forall|j: int| 0 <= j < orig.len() && j != i as int implies world.blobs@[j]
                == pre[j] by {}
            assert(orig.take(i + 1 as int).drop_last() =~= orig.take(i as int));
            assert(orig.take(i + 1 as int).last() == orig[i as int]);
        }
        i += 1;
    }
    proof {
        assert(orig.take(n as int) =~= orig);
        assert forall|j: int| 0 <= j < orig.len() implies #[trigger] final(world)@.blobs[j]
            == move_step(orig[j], dt as int, spd as int, ratio as int).0 by {
            assert(final(world)@.blobs[j] == world.blobs@[j]@);
        }
        assert forall|j: int| 0 <= j < final(world)@.blobs.len() implies #[trigger] final(world)@.blobs[j].wf() && final(world)@.blobs[j].id == orig[j].id by {
            lemma_move_step_wf(orig[j], dt as int, spd as int, ratio as int);
        }
    }
    hit
}

/// How many round blobs a new game starts with.
pub const INIT_BLOB_COUNT: u32 = 28;

/// Smallest starting radius of an initial blob.
pub const INIT_SIZE_BASE: i64 = 180_000;

/// Spread of the starting radii.
pub const INIT_SIZE_SPREAD: i64 = 300_000;

/// How far from the center the initial blobs scatter.
pub const INIT_POS_FACTOR: i64 = 500_000;

/// Base speed of an initial blob, in each axis.
pub const INIT_VEL_BASE: i64 = 200_000;

/// How much of the velocity noise is kept.
pub const INIT_VEL_SCALE: i64 = 100_000;

/// Darkest channel of an initial blob's color.
pub const INIT_COLOR_BASE: i64 = 200_000;

/// Spread of the color channels.
pub const INIT_COLOR_SPREAD: i64 = 500_000;

/// One axis of an initial blob's velocity: a base speed carrying the sign
/// of the noise sample, plus a scaled share of the sample itself.
pub open spec fn init_vel_axis(noise: int) -> int {
    (if noise >= 0 {
        INIT_VEL_BASE as int
    } else {
        -INIT_VEL_BASE as int
    }) + fp_mul_s(noise, INIT_VEL_SCALE as int)
}

/// The `i`-th blob a new game spawns: radius, position, velocity and color
/// all drawn from the noise of seeds built from `i`, not growing and not
/// yet clickable.
pub open spec fn init_blob_s(i: u32, id: u64) -> BlobView {
    let vr_x = crate::sampling::hash_noise_signed_s(0, i, 1);
    let vr_y = crate::sampling::hash_noise_signed_s(0, i, 2);
    BlobView {
        id,
        size: (INIT_SIZE_BASE + fp_mul_s(
            crate::sampling::hash_noise_s(i, 0, 0),
            INIT_SIZE_SPREAD as int,
        )) as i64,
        pos: Vec2Fx {
            x: fp_mul_s(vr_x, INIT_POS_FACTOR as int) as i64,
            y: fp_mul_s(vr_y, INIT_POS_FACTOR as int) as i64,
        },
        vel: Vec2Fx { x: init_vel_axis(vr_x) as i64, y: init_vel_axis(vr_y) as i64 },
        color: crate::geom::ColorFx {
            r: (INIT_COLOR_BASE + fp_mul_s(
                crate::sampling::hash_noise_s(i, i, 1),
                INIT_COLOR_SPREAD as int,
            )) as i64,
            g: (INIT_COLOR_BASE + fp_mul_s(
                crate::sampling::hash_noise_s(i, i, 2),
                INIT_COLOR_SPREAD as int,
            )) as i64,
            b: (INIT_COLOR_BASE + fp_mul_s(
                crate::sampling::hash_noise_s(i, i, 3),
                INIT_COLOR_SPREAD as int,
            )) as i64,
        },
        kind: BlobKindView::Round { growing: 0, clickable: false },
    }
}

/// An initial blob is well formed.
pub proof fn lemma_init_blob_wf(i: u32, id: u64)
    ensures
        init_blob_s(i, id).wf(),
        init_blob_s(i, id).id == id,
{
    let vr_x = crate::sampling::hash_noise_signed_s(0, i, 1);
    let vr_y = crate::sampling::hash_noise_signed_s(0, i, 2);
    crate::sampling::lemma_hash_noise_range(i, 0, 0);
    crate::sampling::lemma_hash_noise_range(i, i, 1);
    crate::sampling::lemma_hash_noise_range(i, i, 2);
    crate::sampling::lemma_hash_noise_range(i, i, 3);
    crate::sampling::lemma_hash_noise_range(0, i, 1);
    crate::sampling::lemma_hash_noise_range(0, i, 2);
    lemma_fp_mul_bound(
        crate::sampling::hash_noise_s(i, 0, 0),
        INIT_SIZE_SPREAD as int,
        SCALE as int,
        INIT_SIZE_SPREAD as int,
    );
    lemma_fp_mul_bound(vr_x, INIT_POS_FACTOR as int, SCALE as int, INIT_POS_FACTOR as int);
    lemma_fp_mul_bound(vr_y, INIT_POS_FACTOR as int, SCALE as int, INIT_POS_FACTOR as int);
    lemma_fp_mul_bound(vr_x, INIT_VEL_SCALE as int, SCALE as int, INIT_VEL_SCALE as int);
    lemma_fp_mul_bound(vr_y, INIT_VEL_SCALE as int, SCALE as int, INIT_VEL_SCALE as int);
    lemma_fp_mul_bound(
        crate::sampling::hash_noise_s(i, i, 1),
        INIT_COLOR_SPREAD as int,
        SCALE as int,
        INIT_COLOR_SPREAD as int,
    );
    lemma_fp_mul_bound(
        crate::sampling::hash_noise_s(i, i, 2),
        INIT_COLOR_SPREAD as int,
        SCALE as int,
        INIT_COLOR_SPREAD as int,
    );
    lemma_fp_mul_bound(
        crate::sampling::hash_noise_s(i, i, 3),
        INIT_COLOR_SPREAD as int,
        SCALE as int,
        INIT_COLOR_SPREAD as int,
    );
}

/// Starts a new game: the store is emptied and repopulated with
/// `INIT_BLOB_COUNT` fresh blobs drawn from the noise, the score and the
/// game speed reset, and the game moves to `Running`.
pub fn spawn_blobs_init_game(
    world: &mut World,
    score: &mut Score,
    game_speed: &mut GameSpeed,
) -> (next: crate::state::GameState)
    requires
        old(world)@.next_id + INIT_BLOB_COUNT <= u64::MAX,
    ensures
        final(world)@.wf(),
        final(world)@.next_id == old(world)@.next_id + INIT_BLOB_COUNT,
        final(world)@.blobs == Seq::new(
            INIT_BLOB_COUNT as nat,
            |i: int| init_blob_s(i as u32, (old(world)@.next_id + i) as u64),
        ),
        final(score).raw == 0,
        final(score).hits == 0,
        final(score).misses == 0,
        final(score).wf(),
        final(game_speed).0 == 800_000,
        final(game_speed).wf(),
        next == crate::state::GameState::Running,
{
    *score = Score::default();
    *game_speed = GameSpeed::default();
    let ghost base: u64 = world.next_id;
    world.blobs = Vec::new();
    let mut i: u32 = 0;
    while i < INIT_BLOB_COUNT
        invariant
            i <= INIT_BLOB_COUNT,
            world.next_id == base + i,
            base + INIT_BLOB_COUNT <= u64::MAX,
            world.blobs@.len() == i,
            forall|q: int|
                0 <= q < i ==> (#[trigger] world.blobs@[q])@ == init_blob_s(
                    q as u32,
                    (base + q) as u64,
                ),
        decreases INIT_BLOB_COUNT - i,
    {
        let vr_x: i64 = crate::sampling::hash_noise_signed(0, i, 1);
        let vr_y: i64 = crate::sampling::hash_noise_signed(0, i, 2);
        let size_noise: i64 = crate::sampling::hash_noise(i, 0, 0);
        let cr_noise: i64 = crate::sampling::hash_noise(i, i, 1);
        let cg_noise: i64 = crate::sampling::hash_noise(i, i, 2);
        let cb_noise: i64 = crate::sampling::hash_noise(i, i, 3);
        proof {
            lemma_fp_mul_bound(
                size_noise as int,
                INIT_SIZE_SPREAD as int,
                SCALE as int,
                INIT_SIZE_SPREAD as int,
            );
            lemma_fp_mul_bound(
                vr_x as int,
                INIT_POS_FACTOR as int,
                SCALE as int,
                INIT_POS_FACTOR as int,
            );
            lemma_fp_mul_bound(
                vr_y as int,
                INIT_POS_FACTOR as int,
                SCALE as int,
                INIT_POS_FACTOR as int,
            );
            lemma_fp_mul_bound(
                vr_x as int,
                INIT_VEL_SCALE as int,
                SCALE as int,
                INIT_VEL_SCALE as int,
            );
            lemma_fp_mul_bound(
                vr_y as int,
                INIT_VEL_SCALE as int,
                SCALE as int,
                INIT_VEL_SCALE as int,
            );
            lemma_fp_mul_bound(
                cr_noise as int,
                INIT_COLOR_SPREAD as int,
                SCALE as int,
                INIT_COLOR_SPREAD as int,
            );
            lemma_fp_mul_bound(
                cg_noise as int,
                INIT_COLOR_SPREAD as int,
                SCALE as int,
                INIT_COLOR_SPREAD as int,
            );
            lemma_fp_mul_bound(
                cb_noise as int,
                INIT_COLOR_SPREAD as int,
                SCALE as int,
                INIT_COLOR_SPREAD as int,
            );
        }
        let vx: i64 = (if vr_x >= 0 {
            INIT_VEL_BASE
        } else {
            -INIT_VEL_BASE
        }) + fp_mul(vr_x, INIT_VEL_SCALE);
        let vy: i64 = (if vr_y >= 0 {
            INIT_VEL_BASE
        } else {
            -INIT_VEL_BASE
        }) + fp_mul(vr_y, INIT_VEL_SCALE);
        let b: Blob = Blob {
            id: world.next_id,
            size: BlobSizeRadius(INIT_SIZE_BASE + fp_mul(size_noise, INIT_SIZE_SPREAD)),
            pos: BlobPosition(
                (Vec2Fx {
                    x: fp_mul(vr_x, INIT_POS_FACTOR),
                    y: fp_mul(vr_y, INIT_POS_FACTOR),
                }),
            ),
            vel: BlobVelocity(Vec2Fx { x: vx, y: vy }),
            color: crate::blob::BlobColor(
                (crate::geom::ColorFx {
                    r: INIT_COLOR_BASE + fp_mul(cr_noise, INIT_COLOR_SPREAD),
                    g: INIT_COLOR_BASE + fp_mul(cg_noise, INIT_COLOR_SPREAD),
                    b: INIT_COLOR_BASE + fp_mul(cb_noise, INIT_COLOR_SPREAD),
                }),
            ),
            kind: BlobKind::Round { growing: BlobGrowing(0), clickable: false },
        };
        world.blobs.push(b);
        world.next_id = world.next_id + 1;
        i += 1;
    }
    proof {
        let target = Seq::new(
            INIT_BLOB_COUNT as nat,
            |q: int| init_blob_s(q as u32, (base + q) as u64),
        );
        assert(final(world)@.blobs =~= target) by {
            assert forall|q: int| 0 <= q < target.len() implies final(world)@.blobs[q]
                == target[q] by {
                assert(final(world)@.blobs[q] == world.blobs@[q]@);
            }
        }
        assert forall|q: int| 0 <= q < final(world)@.blobs.len() implies #[trigger] final(world)@.blobs[q].wf() by {
            lemma_init_blob_wf(q as u32, (base + q) as u64);
        }
    }
    crate::state::GameState::Running
}

/// What the in-game text overlay shows: how many round blobs are still
/// alive, and the composite display score.
pub fn update_game_text(world: &World, score: &Score) -> (r: (usize, i64))
    requires
        world@.wf(),
        score.wf(),
    ensures
        r.0 == alive_count(world@.blobs),
        r.1 == crate::score::comp_score_s(score.raw as int, score.hits as int, score.misses as int),
{
    let alive: usize = count_alive(world);
    let comp: i64 = crate::score::comp_score(score);
    (alive, comp)
}

} // verus!

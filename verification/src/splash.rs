//! Splash blobs: the short-lived droplets spawned when a blob is hit or
//! merged into. Each frame every splash ages; one that has aged out is
//! despawned, and one that lies inside a round blob outside its spawning
//! chain merges into it, feeding that blob's radius and spawning one
//! follow-up splash while the chain stays short.

use vstd::prelude::*;
use crate::fixed::{SCALE, fp_mul, fp_mul_s, clamp_fx, clamp_s, lemma_fp_mul_bound};
use crate::geom::{Vec2Fx, ColorFx, within_circle, within_circle_s};
use crate::blob::{
    Blob, BlobKind, BlobView, BlobKindView, BlobSizeRadius, BlobPosition, BlobVelocity, BlobColor,
    SplashBlob, World, WorldView, POS_LIMIT, VEL_LIMIT, COLOR_LIMIT, RADIUS_LIMIT, BLOB_LIMIT,
    SPLASH_CHAIN_LIMIT, contains_id, clone_ids,
};
use crate::sampling::{hash_noise_signed, hash_noise_signed_s};
use crate::score::GameSpeed;

verus! {

/// Radius a splash is born with, and the unit its size-by-age is scaled by.
pub const SPLASH_START_SIZE: i64 = 30_000;

/// Fraction of its lifetime a splash loses per second, and the share of
/// the starting radius a merge adds outright.
pub const SPLASH_AGE_RATE: i64 = 100_000;

/// Fraction of the splash's current radius a merge adds to the blob.
pub const MERGE_FRACTION: i64 = 400_000;

/// Base speed a splash flies off with, in each axis.
pub const SPLASH_VEL_BASE: i64 = 300_000;

/// How much of the velocity noise is kept.
pub const SPLASH_VEL_SCALE: i64 = 300_000;

/// How much of the parent's color a splash keeps.
pub const SPLASH_COLOR_KEEP: i64 = 900_000;

/// One axis of a newborn splash's velocity: a base speed carrying the
/// sign of the noise sample, plus a scaled share of the sample itself.
pub open spec fn splash_vel_axis(noise: int) -> int {
    (if noise >= 0 {
        SPLASH_VEL_BASE as int
    } else {
        -SPLASH_VEL_BASE as int
    }) + fp_mul_s(noise, SPLASH_VEL_SCALE as int)
}

/// The `j`-th splash of a spawn burst seeded with `(i, frame)`: full age,
/// the starting radius, a dimmed copy of `color` at `pos`, a velocity
/// drawn from the noise of seeds `j + 1` and `j + 2`, and the given chain.
pub open spec fn splash_blob_s(
    pos: Vec2Fx,
    color: ColorFx,
    spawned_by: Seq<u64>,
    id: u64,
    i: u32,
    frame: u32,
    j: u32,
) -> BlobView {
    let vr_x = hash_noise_signed_s(i, frame, (j + 1) as u32);
    let vr_y = hash_noise_signed_s(i, frame, (j + 2) as u32);
    BlobView {
        id,
        size: SPLASH_START_SIZE,
        pos,
        vel: Vec2Fx { x: splash_vel_axis(vr_x) as i64, y: splash_vel_axis(vr_y) as i64 },
        color: ColorFx {
            r: fp_mul_s(color.r as int, SPLASH_COLOR_KEEP as int) as i64,
            g: fp_mul_s(color.g as int, SPLASH_COLOR_KEEP as int) as i64,
            b: fp_mul_s(color.b as int, SPLASH_COLOR_KEEP as int) as i64,
        },
        kind: BlobKindView::Splash { age: SCALE, spawned_by },
    }
}

/// A newborn splash is well formed whenever its parent attributes were.
pub proof fn lemma_splash_blob_wf(
    pos: Vec2Fx,
    color: ColorFx,
    spawned_by: Seq<u64>,
    id: u64,
    i: u32,
    frame: u32,
    j: u32,
)
    requires
        pos.bounded(POS_LIMIT as int),
        color.bounded(COLOR_LIMIT as int),
        spawned_by.len() <= SPLASH_CHAIN_LIMIT,
    ensures
        splash_blob_s(pos, color, spawned_by, id, i, frame, j).wf(),
        splash_blob_s(pos, color, spawned_by, id, i, frame, j).id == id,
        splash_blob_s(pos, color, spawned_by, id, i, frame, j).is_splash(),
{
    let vr_x = hash_noise_signed_s(i, frame, (j + 1) as u32);
    let vr_y = hash_noise_signed_s(i, frame, (j + 2) as u32);
    lemma_fp_mul_bound(vr_x, SPLASH_VEL_SCALE as int, SCALE as int, SPLASH_VEL_SCALE as int);
    lemma_fp_mul_bound(vr_y, SPLASH_VEL_SCALE as int, SCALE as int, SPLASH_VEL_SCALE as int);
    lemma_fp_mul_bound(
        color.r as int,
        SPLASH_COLOR_KEEP as int,
        COLOR_LIMIT as int,
        SPLASH_COLOR_KEEP as int,
    );
    lemma_fp_mul_bound(
        color.g as int,
        SPLASH_COLOR_KEEP as int,
        COLOR_LIMIT as int,
        SPLASH_COLOR_KEEP as int,
    );
    lemma_fp_mul_bound(
        color.b as int,
        SPLASH_COLOR_KEEP as int,
        COLOR_LIMIT as int,
        SPLASH_COLOR_KEEP as int,
    );
}

/// Builds the `j`-th splash of a spawn burst as a live blob.
fn make_splash(
    pos: Vec2Fx,
    color: ColorFx,
    spawned_by: Vec<u64>,
    id: u64,
    i: u32,
    frame: u32,
    j: u32,
) -> (b: Blob)
    requires
        j <= 1000,
        color.bounded(COLOR_LIMIT as int),
    ensures
        b@ == splash_blob_s(pos, color, spawned_by@, id, i, frame, j),
{
    let nx: i64 = hash_noise_signed(i, frame, j + 1);
    let ny: i64 = hash_noise_signed(i, frame, j + 2);
    proof {
        lemma_fp_mul_bound(nx as int, SPLASH_VEL_SCALE as int, SCALE as int, SPLASH_VEL_SCALE as int);
        lemma_fp_mul_bound(ny as int, SPLASH_VEL_SCALE as int, SCALE as int, SPLASH_VEL_SCALE as int);
        lemma_fp_mul_bound(
            color.r as int,
            SPLASH_COLOR_KEEP as int,
            COLOR_LIMIT as int,
            SPLASH_COLOR_KEEP as int,
        );
        lemma_fp_mul_bound(
            color.g as int,
            SPLASH_COLOR_KEEP as int,
            COLOR_LIMIT as int,
            SPLASH_COLOR_KEEP as int,
        );
        lemma_fp_mul_bound(
            color.b as int,
            SPLASH_COLOR_KEEP as int,
            COLOR_LIMIT as int,
            SPLASH_COLOR_KEEP as int,
        );
    }
    let vx: i64 = (if nx >= 0 {
        SPLASH_VEL_BASE
    } else {
        -SPLASH_VEL_BASE
    }) + fp_mul(nx, SPLASH_VEL_SCALE);
    let vy: i64 = (if ny >= 0 {
        SPLASH_VEL_BASE
    } else {
        -SPLASH_VEL_BASE
    }) + fp_mul(ny, SPLASH_VEL_SCALE);
    Blob {
        id,
        size: BlobSizeRadius(SPLASH_START_SIZE),
        pos: BlobPosition(pos),
        vel: BlobVelocity(Vec2Fx { x: vx, y: vy }),
        color: BlobColor(
            (ColorFx {
                r: fp_mul(color.r, SPLASH_COLOR_KEEP),
                g: fp_mul(color.g, SPLASH_COLOR_KEEP),
                b: fp_mul(color.b, SPLASH_COLOR_KEEP),
            }),
        ),
        kind: BlobKind::Splash(SplashBlob { age: SCALE, spawned_by }),
    }
}

/// Spawns a burst of `count` splashes at `pos`, colored after `color`,
/// carrying the given chain; the burst is seeded with `(i, frame)` and
/// each splash takes the next free id.
pub fn spawn_splash(
    world: &mut World,
    frame: u32,
    spawned_by: Vec<u64>,
    pos: &BlobPosition,
    color: &BlobColor,
    i: u32,
    count: u32,
)
    requires
        old(world)@.wf(),
        spawned_by@.len() <= SPLASH_CHAIN_LIMIT,
        pos.0.bounded(POS_LIMIT as int),
        color.0.bounded(COLOR_LIMIT as int),
        count <= 1000,
        old(world)@.blobs.len() + count <= BLOB_LIMIT,
        old(world)@.next_id + count <= u64::MAX,
    ensures
        final(world)@.wf(),
        final(world)@.next_id == old(world)@.next_id + count,
        final(world)@.blobs == old(world)@.blobs + Seq::new(
            count as nat,
            |j: int|
                splash_blob_s(
                    pos.0,
                    color.0,
                    spawned_by@,
                    (old(world)@.next_id + j) as u64,
                    i,
                    frame,
                    j as u32,
                ),
        ),
{
    let ghost orig: Seq<BlobView> = world@.blobs;
    let ghost base: u64 = world.next_id;
    let mut j: u32 = 0;
    while j < count
        invariant
            j <= count,
            count <= 1000,
            world.next_id == base + j,
            base + count <= u64::MAX,
            orig.len() + count <= BLOB_LIMIT,
            world.blobs@.len() == orig.len() + j,
            spawned_by@.len() <= SPLASH_CHAIN_LIMIT,
            pos.0.bounded(POS_LIMIT as int),
            color.0.bounded(COLOR_LIMIT as int),
            forall|q: int| 0 <= q < orig.len() ==> (#[trigger] world.blobs@[q])@ == orig[q],
            forall|q: int|
                orig.len() <= q < world.blobs@.len() ==> (#[trigger] world.blobs@[q])@
                    == splash_blob_s(
                    pos.0,
                    color.0,
                    spawned_by@,
                    (base + (q - orig.len())) as u64,
                    i,
                    frame,
                    (q - orig.len()) as u32,
                ),
        decreases count - j,
    {
        let chain: Vec<u64> = clone_ids(&spawned_by);
        let b: Blob = make_splash(pos.0, color.0, chain, world.next_id, i, frame, j);
        world.blobs.push(b);
        world.next_id = world.next_id + 1;
        j += 1;
    }
    proof {
        let appended = Seq::new(
            count as nat,
            |q: int|
                splash_blob_s(pos.0, color.0, spawned_by@, (base + q) as u64, i, frame, q as u32),
        );
        assert(final(world)@.blobs =~= orig + appended) by {
            assert forall|q: int| 0 <= q < final(world)@.blobs.len() implies final(world)@.blobs[q]
                == (orig + appended)[q] by {
                assert(final(world)@.blobs[q] == world.blobs@[q]@);
            }
        }
        assert forall|q: int| 0 <= q < final(world)@.blobs.len() implies #[trigger] final(world)@.blobs[q].wf() by {
            assert(final(world)@.blobs[q] == world.blobs@[q]@);
            if q >= orig.len() {
                lemma_splash_blob_wf(
                    pos.0,
                    color.0,
                    spawned_by@,
                    (base + (q - orig.len())) as u64,
                    i,
                    frame,
                    (q - orig.len()) as u32,
                );
            }
        }
    }
}

/// How many of the first `m` blobs are round: the ordinal the round blob
/// at index `m` carries in an iteration over round blobs alone.
pub open spec fn round_count(blobs: Seq<BlobView>, m: int) -> int
    decreases m,
{
    if m <= 0 {
        0
    } else {
        round_count(blobs, m - 1) + if 0 <= m - 1 < blobs.len() && !blobs[m - 1].is_splash() {
            1int
        } else {
            0int
        }
    }
}

/// The round ordinal never exceeds the index.
pub proof fn lemma_round_count_le(blobs: Seq<BlobView>, m: int)
    requires
        m >= 0,
    ensures
        0 <= round_count(blobs, m) <= m,
    decreases m,
{
    if m > 0 {
        lemma_round_count_le(blobs, m - 1);
    }
}

/// The first blob at or after `m` a splash with the given chain and
/// center merges into: a round blob outside the chain whose circle the
/// center lies in.
pub open spec fn find_merge(blobs: Seq<BlobView>, chain: Seq<u64>, center: Vec2Fx, m: int) -> Option<
    int,
>
    decreases blobs.len() - m when 0 <= m <= blobs.len()
{
    if m >= blobs.len() {
        None::<int>
    } else if !blobs[m].is_splash() && !chain.contains(blobs[m].id) && within_circle_s(
        blobs[m].pos,
        center,
        blobs[m].size as int,
    ) {
        Some(m)
    } else {
        find_merge(blobs, chain, center, m + 1)
    }
}

/// A found merge target is in range, round, and outside the chain.
pub proof fn lemma_find_merge_props(blobs: Seq<BlobView>, chain: Seq<u64>, center: Vec2Fx, m: int)
    requires
        0 <= m <= blobs.len(),
    ensures
        match find_merge(blobs, chain, center, m) {
            Some(t) => {
                &&& m <= t < blobs.len()
                &&& !blobs[t].is_splash()
                &&& !chain.contains(blobs[t].id)
                &&& within_circle_s(blobs[t].pos, center, blobs[t].size as int)
            },
            None => true,
        },
    decreases blobs.len() - m,
{
    if m < blobs.len() {
        lemma_find_merge_props(blobs, chain, center, m + 1);
    }
}

/// What a merge adds to the target blob's radius: a share of the splash's
/// current radius plus a flat share of the starting radius.
pub open spec fn merge_gain(ssize: int) -> int {
    fp_mul_s(ssize, MERGE_FRACTION as int) + fp_mul_s(
        SPLASH_START_SIZE as int,
        SPLASH_AGE_RATE as int,
    )
}

/// The state of a splash pass over the store: the blobs so far (updates in
/// place, spawns appended), which of the blobs present at the start are
/// marked for despawn, and the next free id.
pub struct SplashFrame {
    pub blobs: Seq<BlobView>,
    pub gone: Seq<bool>,
    pub next_id: u64,
}

/// What processing the blob at `k` does to the pass. A round blob is left
/// alone. A splash ages by `dt` and its radius tracks its age; one that
/// has aged out is marked for despawn. Otherwise the first round blob
/// whose circle holds the splash's center, outside the splash's chain,
/// absorbs it: the blob gains radius, the splash is marked for despawn,
/// and — while the chain is short — one follow-up splash is spawned at the
/// blob, seeded with the blob's round ordinal and the frame counter.
pub open spec fn splash_step(st: SplashFrame, dt: int, frame: u32, k: int) -> SplashFrame {
    let b = st.blobs[k];
    match b.kind {
        BlobKindView::Round { .. } => st,
        BlobKindView::Splash { age, spawned_by } => {
            let age2 = age - fp_mul_s(dt, SPLASH_AGE_RATE as int);
            let ssize = fp_mul_s(age2, SPLASH_START_SIZE as int);
            let b2 = BlobView {
                size: ssize as i64,
                kind: BlobKindView::Splash { age: age2 as i64, spawned_by },
                ..b
            };
            let blobs2 = st.blobs.update(k, b2);
            if age2 <= 0 {
                SplashFrame { blobs: blobs2, gone: st.gone.update(k, true), next_id: st.next_id }
            } else {
                match find_merge(blobs2, spawned_by, b.pos, 0) {
                    None => SplashFrame { blobs: blobs2, gone: st.gone, next_id: st.next_id },
                    Some(m) => {
                        let t = blobs2[m];
                        let t2 = BlobView {
                            size: clamp_s(
                                t.size + merge_gain(ssize),
                                -RADIUS_LIMIT as int,
                                RADIUS_LIMIT as int,
                            ) as i64,
                            ..t
                        };
                        let blobs3 = blobs2.update(m, t2);
                        let gone2 = st.gone.update(k, true);
                        if spawned_by.len() < SPLASH_CHAIN_LIMIT {
                            let nb = splash_blob_s(
                                t.pos,
                                t.color,
                                spawned_by.push(t.id),
                                st.next_id,
                                round_count(blobs2, m) as u32,
                                frame,
                                0,
                            );
                            SplashFrame {
                                blobs: blobs3.push(nb),
                                gone: gone2,
                                next_id: (st.next_id + 1) as u64,
                            }
                        } else {
                            SplashFrame { blobs: blobs3, gone: gone2, next_id: st.next_id }
                        }
                    },
                }
            }
        },
    }
}

/// The pass after the first `k` blobs have been processed.
pub open spec fn splash_pass(init: SplashFrame, dt: int, frame: u32, k: int) -> SplashFrame
    decreases k,
{
    if k <= 0 {
        init
    } else {
        splash_step(splash_pass(init, dt, frame, k - 1), dt, frame, k - 1)
    }
}

/// How many entries of `gone` are set.
pub open spec fn gone_count(gone: Seq<bool>) -> int
    decreases gone.len(),
{
    if gone.len() == 0 {
        0
    } else {
        gone_count(gone.drop_last()) + if gone.last() {
            1int
        } else {
            0int
        }
    }
}

/// With nothing set at or after `p`, at most `p` entries are set.
pub proof fn lemma_gone_count_prefix(gone: Seq<bool>, p: int)
    requires
        0 <= p,
        forall|j: int| p <= j < gone.len() ==> (#[trigger] gone[j]) == false,
    ensures
        gone_count(gone) <= p,
    decreases gone.len(),
{
    if gone.len() == 0 {
    } else if gone.len() <= p {
        lemma_gone_count_le(gone);
    } else {
        lemma_gone_count_prefix(gone.drop_last(), p);
    }
}

/// The count of set entries is between zero and the length.
pub proof fn lemma_gone_count_le(gone: Seq<bool>)
    ensures
        0 <= gone_count(gone) <= gone.len(),
    decreases gone.len(),
{
    if gone.len() > 0 {
        lemma_gone_count_le(gone.drop_last());
    }
}

/// Setting one unset entry raises the count by one; setting a set entry
/// keeps it.
pub proof fn lemma_gone_count_update(gone: Seq<bool>, k: int)
    requires
        0 <= k < gone.len(),
    ensures
        gone_count(gone.update(k, true)) == gone_count(gone) + if gone[k] {
            0int
        } else {
            1int
        },
    decreases gone.len(),
{
    let up = gone.update(k, true);
    if k == gone.len() - 1 {
        assert(up.drop_last() =~= gone.drop_last());
    } else {
        assert(up.drop_last() =~= gone.drop_last().update(k, true));
        lemma_gone_count_update(gone.drop_last(), k);
    }
}

/// A blob's bounds during a splash pass: as `BlobView::wf`, except that a
/// splash processed this frame may have aged past zero.
pub open spec fn wf_aged(b: BlobView) -> bool {
    &&& -RADIUS_LIMIT <= b.size <= RADIUS_LIMIT
    &&& b.pos.bounded(POS_LIMIT as int)
    &&& b.vel.bounded(VEL_LIMIT as int)
    &&& b.color.bounded(COLOR_LIMIT as int)
    &&& match b.kind {
        BlobKindView::Round { growing, .. } => 0 <= growing <= SCALE,
        BlobKindView::Splash { age, spawned_by } => {
            &&& -SCALE <= age <= SCALE
            &&& spawned_by.len() <= SPLASH_CHAIN_LIMIT
        },
    }
}

/// Everything a splash pass keeps true after `k` of `n` blobs are
/// processed, starting from a well-formed store.
pub open spec fn frame_ok(init: SplashFrame, st: SplashFrame, k: int) -> bool {
    let n = init.blobs.len() as int;
    &&& st.gone.len() == n
    &&& n <= st.blobs.len()
    &&& init.next_id <= st.next_id
    &&& st.blobs.len() == n + st.next_id - init.next_id
    &&& st.next_id - init.next_id <= gone_count(st.gone)
    &&& forall|j: int| 0 <= j < n ==> #[trigger] st.blobs[j].id == init.blobs[j].id
    &&& forall|j: int|
        n <= j < st.blobs.len() ==> #[trigger] st.blobs[j].id == init.next_id + (j - n)
    &&& forall|j: int| 0 <= j < st.blobs.len() ==> wf_aged(#[trigger] st.blobs[j])
    &&& forall|j: int| n <= j < st.blobs.len() ==> (#[trigger] st.blobs[j]).wf()
    &&& forall|j: int|
        n <= j < st.blobs.len() ==> (#[trigger] st.blobs[j]).is_splash()
    &&& forall|j: int|
        0 <= j < n ==> (#[trigger] st.blobs[j]).is_splash() == init.blobs[j].is_splash()
    &&& forall|j: int| k <= j < n ==> (#[trigger] st.gone[j]) == false
    &&& forall|j: int|
        k <= j < n && init.blobs[j].is_splash() ==> #[trigger] st.blobs[j] == init.blobs[j]
    &&& forall|j: int|
        0 <= j < n && !st.gone[j] && (#[trigger] st.blobs[j]).is_splash() ==> st.blobs[j].age() > 0
}

/// The conditions the store meets when a splash pass starts.
pub open spec fn pass_init_ok(init: SplashFrame) -> bool {
    &&& init.gone.len() == init.blobs.len()
    &&& init.blobs.len() <= BLOB_LIMIT
    &&& init.next_id + BLOB_LIMIT <= u64::MAX
    &&& forall|j: int| 0 <= j < init.gone.len() ==> (#[trigger] init.gone[j]) == false
    &&& forall|j: int| 0 <= j < init.blobs.len() ==> (#[trigger] init.blobs[j]).wf()
    &&& forall|j: int|
        0 <= j < init.blobs.len() ==> (#[trigger] init.blobs[j]).id < init.next_id
    &&& forall|i: int, j: int|
        0 <= i < j < init.blobs.len() ==> (#[trigger] init.blobs[i]).id < (
        #[trigger] init.blobs[j]).id
}

/// A splash pass keeps `frame_ok` at every prefix.
pub proof fn lemma_splash_pass_ok(init: SplashFrame, dt: int, frame: u32, k: int)
    requires
        pass_init_ok(init),
        0 < dt <= SCALE,
        0 <= k <= init.blobs.len(),
    ensures
        frame_ok(init, splash_pass(init, dt, frame, k), k),
    decreases k,
{
    let n = init.blobs.len() as int;
    if k == 0 {
        assert(splash_pass(init, dt, frame, 0) == init);
        lemma_gone_count_le(init.gone);
        assert(gone_count(init.gone) >= 0);
    } else {
        lemma_splash_pass_ok(init, dt, frame, k - 1);
        let st = splash_pass(init, dt, frame, k - 1);
        let st2 = splash_step(st, dt, frame, k - 1);
        assert(splash_pass(init, dt, frame, k) == st2);
        let b = st.blobs[k - 1];
        match b.kind {
            BlobKindView::Round { .. } => {
                assert(frame_ok(init, st2, k));
            },
            BlobKindView::Splash { age, spawned_by } => {
                assert(b == init.blobs[k - 1]);
                let age2 = age - fp_mul_s(dt, SPLASH_AGE_RATE as int);
                let ssize = fp_mul_s(age2, SPLASH_START_SIZE as int);
                lemma_fp_mul_bound(dt, SPLASH_AGE_RATE as int, SCALE as int, SPLASH_AGE_RATE as int);
                vstd::arithmetic::mul::lemma_mul_nonnegative(dt, SPLASH_AGE_RATE as int);
                vstd::arithmetic::div_mod::lemma_div_pos_is_pos(
                    dt * (SPLASH_AGE_RATE as int),
                    SCALE as int,
                );
                lemma_fp_mul_bound(
                    age2,
                    SPLASH_START_SIZE as int,
                    2 * SCALE as int,
                    SPLASH_START_SIZE as int,
                );
                let b2 = BlobView {
                    size: ssize as i64,
                    kind: BlobKindView::Splash { age: age2 as i64, spawned_by },
                    ..b
                };
                let blobs2 = st.blobs.update(k - 1, b2);
                assert(wf_aged(b2));
                if age2 <= 0 {
                    lemma_gone_count_update(st.gone, k - 1);
                    assert(frame_ok(init, st2, k));
                } else {
                    lemma_find_merge_props(blobs2, spawned_by, b.pos, 0);
                    match find_merge(blobs2, spawned_by, b.pos, 0) {
                        None => {
                            assert(frame_ok(init, st2, k));
                        },
                        Some(m) => {
                            let t = blobs2[m];
                            assert(m != k - 1);
                            assert(t == st.blobs[m]);
                            assert(wf_aged(t));
                            lemma_fp_mul_bound(
                                ssize,
                                MERGE_FRACTION as int,
                                2 * SPLASH_START_SIZE as int,
                                MERGE_FRACTION as int,
                            );
                            let t2 = BlobView {
                                size: clamp_s(
                                    t.size + merge_gain(ssize),
                                    -RADIUS_LIMIT as int,
                                    RADIUS_LIMIT as int,
                                ) as i64,
                                ..t
                            };
                            assert(wf_aged(t2));
                            let blobs3 = blobs2.update(m, t2);
                            lemma_gone_count_update(st.gone, k - 1);
                            lemma_gone_count_prefix(st.gone, k - 1);
                            lemma_round_count_le(blobs2, m);
                            assert(st.next_id + 1 <= u64::MAX);
                            if spawned_by.len() < SPLASH_CHAIN_LIMIT {
                                let nb = splash_blob_s(
                                    t.pos,
                                    t.color,
                                    spawned_by.push(t.id),
                                    st.next_id,
                                    round_count(blobs2, m) as u32,
                                    frame,
                                    0,
                                );
                                lemma_splash_blob_wf(
                                    t.pos,
                                    t.color,
                                    spawned_by.push(t.id),
                                    st.next_id,
                                    round_count(blobs2, m) as u32,
                                    frame,
                                    0,
                                );
                                assert(st2.blobs == blobs3.push(nb));
                                assert forall|j: int| 0 <= j < st2.blobs.len() implies wf_aged(
                                    #[trigger] st2.blobs[j],
                                ) by {
                                    if j == st.blobs.len() as int {
                                        assert(st2.blobs[j] == nb);
                                    } else if j == m {
                                        assert(st2.blobs[j] == t2);
                                    } else if j == k - 1 {
                                        assert(st2.blobs[j] == b2);
                                    } else {
                                        assert(st2.blobs[j] == st.blobs[j]);
                                    }
                                }
                                assert forall|j: int| 0 <= j < st2.blobs.len() && j != st.blobs.len()
                                    && j != m && j != k - 1 implies #[trigger] st2.blobs[j]
                                    == st.blobs[j] by {}
                                assert(frame_ok(init, st2, k));
                            } else {
                                assert forall|j: int| 0 <= j < st2.blobs.len() implies wf_aged(
                                    #[trigger] st2.blobs[j],
                                ) by {
                                    if j == m {
                                        assert(st2.blobs[j] == t2);
                                    } else if j == k - 1 {
                                        assert(st2.blobs[j] == b2);
                                    } else {
                                        assert(st2.blobs[j] == st.blobs[j]);
                                    }
                                }
                                assert(frame_ok(init, st2, k));
                            }
                        },
                    }
                }
            },
        }
    }
}

/// The blobs a flush keeps: of the first `gone.len()` blobs those not
/// marked, and every blob appended after them.
pub open spec fn surviving(blobs: Seq<BlobView>, gone: Seq<bool>) -> Seq<BlobView>
    decreases blobs.len(),
{
    if blobs.len() == 0 {
        Seq::empty()
    } else if blobs.len() > gone.len() {
        surviving(blobs.drop_last(), gone).push(blobs.last())
    } else {
        let rest = surviving(blobs.drop_last(), gone.drop_last());
        if gone.last() {
            rest
        } else {
            rest.push(blobs.last())
        }
    }
}

/// A flush keeps exactly the blobs not marked gone.
pub proof fn lemma_surviving_len(blobs: Seq<BlobView>, gone: Seq<bool>)
    requires
        gone.len() <= blobs.len(),
    ensures
        surviving(blobs, gone).len() == blobs.len() - gone_count(gone),
    decreases blobs.len(),
{
    if blobs.len() > 0 {
        if blobs.len() > gone.len() {
            lemma_surviving_len(blobs.drop_last(), gone);
        } else {
            lemma_surviving_len(blobs.drop_last(), gone.drop_last());
        }
    }
}

/// What the whole splash system does to the store: every blob is processed
/// in order, then the marked splashes are dropped, the spawned follow-ups
/// staying at the tail.
pub open spec fn splash_outcome(w: WorldView, dt: int, frame: u32) -> WorldView {
    let init = SplashFrame {
        blobs: w.blobs,
        gone: Seq::new(w.blobs.len(), |k: int| false),
        next_id: w.next_id,
    };
    let st = splash_pass(init, dt, frame, w.blobs.len() as int);
    WorldView { blobs: surviving(st.blobs, st.gone), next_id: st.next_id }
}

/// The splash system never grows the store: every splash it spawns is
/// paired with a splash it despawned, so a frame leaves at most as many
/// blobs as it found.
pub proof fn lemma_splash_outcome_never_grows(w: WorldView, dt: int, frame: u32)
    requires
        w.wf(),
        0 < dt <= SCALE,
        w.next_id + BLOB_LIMIT <= u64::MAX,
    ensures
        splash_outcome(w, dt, frame).blobs.len() <= w.blobs.len(),
{
    let init = SplashFrame {
        blobs: w.blobs,
        gone: Seq::new(w.blobs.len(), |k: int| false),
        next_id: w.next_id,
    };
    let st = splash_pass(init, dt, frame, w.blobs.len() as int);
    lemma_splash_pass_ok(init, dt, frame, w.blobs.len() as int);
    lemma_gone_count_le(st.gone);
    lemma_surviving_len(st.blobs, st.gone);
}

/// A flush of a pass that kept `frame_ok` leaves well-formed blobs with
/// strictly rising ids below `nid`.
pub proof fn lemma_surviving_props(blobs: Seq<BlobView>, gone: Seq<bool>, nid: u64)
    requires
        gone.len() <= blobs.len(),
        forall|i: int, j: int|
            0 <= i < j < blobs.len() ==> (#[trigger] blobs[i]).id < (#[trigger] blobs[j]).id,
        forall|j: int| 0 <= j < blobs.len() ==> wf_aged(#[trigger] blobs[j]),
        forall|j: int|
            0 <= j < gone.len() && !gone[j] && (#[trigger] blobs[j]).is_splash() ==> blobs[j].age()
                > 0,
        forall|j: int| gone.len() <= j < blobs.len() ==> (#[trigger] blobs[j]).wf(),
        forall|j: int| 0 <= j < blobs.len() ==> (#[trigger] blobs[j]).id < nid,
    ensures
        forall|i: int, j: int|
            0 <= i < j < surviving(blobs, gone).len() ==> (#[trigger] surviving(blobs, gone)[i]).id
                < (#[trigger] surviving(blobs, gone)[j]).id,
        forall|j: int|
            0 <= j < surviving(blobs, gone).len() ==> (#[trigger] surviving(blobs, gone)[j]).wf(),
        forall|j: int|
            0 <= j < surviving(blobs, gone).len() ==> (#[trigger] surviving(blobs, gone)[j]).id
                < nid,
    decreases blobs.len(),
{
    if blobs.len() > 0 {
        if blobs.len() > gone.len() {
            lemma_surviving_props(blobs.drop_last(), gone, nid);
        } else {
            lemma_surviving_props(blobs.drop_last(), gone.drop_last(), nid);
        }
        let s = surviving(blobs, gone);
        let rest = if blobs.len() > gone.len() {
            surviving(blobs.drop_last(), gone)
        } else {
            surviving(blobs.drop_last(), gone.drop_last())
        };
        if s.len() > rest.len() {
            assert(s.last() == blobs.last());
            assert forall|i: int| 0 <= i < rest.len() implies (#[trigger] rest[i]).id
                < blobs.last().id by {
                lemma_surviving_member(
                    blobs.drop_last(),
                    if blobs.len() > gone.len() {
                        gone
                    } else {
                        gone.drop_last()
                    },
                    i,
                );
            }
        }
    }
}

/// Every kept blob is one of the blobs flushed over.
pub proof fn lemma_surviving_member(blobs: Seq<BlobView>, gone: Seq<bool>, p: int)
    requires
        gone.len() <= blobs.len(),
        0 <= p < surviving(blobs, gone).len(),
    ensures
        exists|j: int| 0 <= j < blobs.len() && surviving(blobs, gone)[p] == #[trigger] blobs[j],
    decreases blobs.len(),
{
    let s = surviving(blobs, gone);
    let rest = if blobs.len() > gone.len() {
        surviving(blobs.drop_last(), gone)
    } else {
        surviving(blobs.drop_last(), gone.drop_last())
    };
    if p < rest.len() {
        lemma_surviving_member(
            blobs.drop_last(),
            if blobs.len() > gone.len() {
                gone
            } else {
                gone.drop_last()
            },
            p,
        );
        let j = choose|j: int|
            0 <= j < blobs.drop_last().len() && rest[p] == #[trigger] blobs.drop_last()[j];
        assert(s[p] == blobs[j]);
    } else {
        assert(s[p] == blobs.last());
        assert(s[p] == blobs[blobs.len() - 1]);
    }
}

/// A copy of a blob.
fn clone_blob(b: &Blob) -> (r: Blob)
    ensures
        r@ == b@,
{
    Blob {
        id: b.id,
        size: b.size,
        pos: b.pos,
        vel: b.vel,
        color: b.color,
        kind: match &b.kind {
            BlobKind::Round { growing, clickable } => BlobKind::Round {
                growing: *growing,
                clickable: *clickable,
            },
            BlobKind::Splash(sp) => BlobKind::Splash(
                SplashBlob { age: sp.age, spawned_by: clone_ids(&sp.spawned_by) },
            ),
        },
    }
}

/// Ages every splash by one frame of `dt` seconds, despawning those that
/// aged out, merging the rest into the first round blob that holds them
/// (outside their chain), and spawning the follow-up splashes; the game
/// speed advances as in `move_blobs`.
pub fn splash_blobs(world: &mut World, dt: i64, frame: u32, speed: &mut GameSpeed)
    requires
        old(world)@.wf(),
        0 < dt <= SCALE,
        old(speed).wf(),
        old(world)@.next_id + BLOB_LIMIT <= u64::MAX,
    ensures
        final(speed).0 == crate::score::bumped_speed(old(speed).0 as int, dt as int),
        final(speed).wf(),
        final(world)@ == splash_outcome(old(world)@, dt as int, frame),
        final(world)@.wf(),
{
    crate::score::bump_game_speed(speed, dt);
    let ghost w0: WorldView = world@;
    let n: usize = world.blobs.len();
    let mut gone: Vec<bool> = Vec::new();
    while gone.len() < n
        invariant
            gone@.len() <= n,
            forall|j: int| 0 <= j < gone@.len() ==> (#[trigger] gone@[j]) == false,
        decreases n - gone@.len(),
    {
        gone.push(false);
    }
    let ghost init = SplashFrame { blobs: w0.blobs, gone: gone@, next_id: w0.next_id };
    proof {
        assert(init.gone =~= Seq::new(w0.blobs.len(), |k: int| false));
        assert(pass_init_ok(init));
    }
    let mut k: usize = 0;
    while k < n
        invariant
            n == init.blobs.len(),
            k <= n,
            pass_init_ok(init),
            0 < dt <= SCALE,
            world@.blobs == splash_pass(init, dt as int, frame, k as int).blobs,
            gone@ == splash_pass(init, dt as int, frame, k as int).gone,
            world.next_id == splash_pass(init, dt as int, frame, k as int).next_id,
        decreases n - k,
    {
        let ghost stk = splash_pass(init, dt as int, frame, k as int);
        let ghost stk1 = splash_step(stk, dt as int, frame, k as int);
        proof {
            lemma_splash_pass_ok(init, dt as int, frame, k as int);
            assert(splash_pass(init, dt as int, frame, k + 1 as int) == stk1);
            assert(world@.blobs[k as int] == world.blobs@[k as int]@);
        }
        let splash_info: Option<(i64, Vec<u64>)> = match &world.blobs[k].kind {
            BlobKind::Splash(sp) => Some((sp.age, clone_ids(&sp.spawned_by))),
            BlobKind::Round { .. } => None,
        };
        if let Some((age, chain)) = splash_info {
            proof {
                assert(stk.blobs[k as int] == init.blobs[k as int]);
                assert(init.blobs[k as int].wf());
                lemma_fp_mul_bound(
                    dt as int,
                    SPLASH_AGE_RATE as int,
                    SCALE as int,
                    SPLASH_AGE_RATE as int,
                );
            }
            let decay: i64 = fp_mul(dt, SPLASH_AGE_RATE);
            let age2: i64 = age - decay;
            proof {
                lemma_fp_mul_bound(
                    age2 as int,
                    SPLASH_START_SIZE as int,
                    2 * SCALE as int,
                    SPLASH_START_SIZE as int,
                );
            }
            let ssize: i64 = fp_mul(age2, SPLASH_START_SIZE);
            let b_id: u64 = world.blobs[k].id;
            let b_pos: BlobPosition = world.blobs[k].pos;
            let b_vel: BlobVelocity = world.blobs[k].vel;
            let b_color: BlobColor = world.blobs[k].color;
            let chain_store: Vec<u64> = clone_ids(&chain);
            world.blobs[k] = Blob {
                id: b_id,
                size: BlobSizeRadius(ssize),
                pos: b_pos,
                vel: b_vel,
                color: b_color,
                kind: BlobKind::Splash(SplashBlob { age: age2, spawned_by: chain_store }),
            };
            if age2 <= 0 {
                gone[k] = true;
                proof {
                    assert(world@.blobs =~= stk1.blobs);
                    assert(gone@ =~= stk1.gone);
                }
            } else {
                let center: Vec2Fx = b_pos.0;
                let cur_len: usize = world.blobs.len();
                let ghost blobs2: Seq<BlobView> = world@.blobs;
                proof {
                    assert(blobs2 =~= stk.blobs.update(
                        k as int,
                        (BlobView {
                            size: ssize,
                            kind: BlobKindView::Splash {
                                age: age2,
                                spawned_by: init.blobs[k as int].chain(),
                            },
                            ..init.blobs[k as int]
                        }),
                    ));
                    assert forall|j: int| 0 <= j < blobs2.len() implies wf_aged(
                        #[trigger] blobs2[j],
                    ) by {
                        if j != k as int {
                            assert(blobs2[j] == stk.blobs[j]);
                        }
                    }
                }
                proof {
                    lemma_gone_count_le(stk.gone);
                    assert(round_count(blobs2, 0) == 0);
                }
                let mut m: usize = 0;
                let mut ri: u32 = 0;
                let mut found: Option<(usize, u32)> = None;
                while m < cur_len
                    invariant_except_break
                        m <= cur_len,
                        cur_len == blobs2.len(),
                        cur_len <= 2 * BLOB_LIMIT,
                        blobs2 == world@.blobs,
                        found is None,
                        center.bounded(POS_LIMIT as int),
                        forall|j: int| 0 <= j < blobs2.len() ==> wf_aged(#[trigger] blobs2[j]),
                        ri == round_count(blobs2, m as int),
                        find_merge(blobs2, chain@, center, 0) == find_merge(
                            blobs2,
                            chain@,
                            center,
                            m as int,
                        ),
                    ensures
                        blobs2 == world@.blobs,
                        match found {
                            None => find_merge(blobs2, chain@, center, 0) is None,
                            Some(p) => {
                                &&& find_merge(blobs2, chain@, center, 0) == Some(p.0 as int)
                                &&& p.0 < cur_len
                                &&& p.1 == round_count(blobs2, p.0 as int)
                            },
                        },
                    decreases cur_len - m,
                {
                    proof {
                        assert(world@.blobs[m as int] == world.blobs@[m as int]@);
                        lemma_round_count_le(blobs2, m as int);
                    }
                    let is_round: bool = !world.blobs[m].is_splash_blob();
                    if is_round && !contains_id(&chain, world.blobs[m].id) && within_circle(
                        world.blobs[m].pos.0,
                        center,
                        world.blobs[m].size.0,
                    ) {
                        found = Some((m, ri));
                        break ;
                    }
                    if is_round {
                        ri = ri + 1;
                    }
                    proof {
                        assert(round_count(blobs2, m + 1 as int) == round_count(blobs2, m as int)
                            + if !blobs2[m as int].is_splash() {
                            1int
                        } else {
                            0int
                        });
                    }
                    m += 1;
                }
                match found {
                    None => {
                        proof {
                            assert(world@.blobs =~= stk1.blobs);
                            assert(gone@ =~= stk1.gone);
                        }
                    },
                    Some((mt, ri_t)) => {
                        proof {
                            assert(world@.blobs[mt as int] == world.blobs@[mt as int]@);
                            lemma_find_merge_props(blobs2, chain@, center, 0);
                            lemma_fp_mul_bound(
                                ssize as int,
                                MERGE_FRACTION as int,
                                2 * SPLASH_START_SIZE as int,
                                MERGE_FRACTION as int,
                            );
                        }
                        let t_size: i64 = world.blobs[mt].size.0;
                        let t_pos: BlobPosition = world.blobs[mt].pos;
                        let t_color: BlobColor = world.blobs[mt].color;
                        let t_id: u64 = world.blobs[mt].id;
                        let base_gain: i64 = fp_mul(SPLASH_START_SIZE, SPLASH_AGE_RATE);
                        let gain: i64 = fp_mul(ssize, MERGE_FRACTION) + base_gain;
                        let nsize: i64 = clamp_fx(t_size + gain, -RADIUS_LIMIT, RADIUS_LIMIT);
                        world.blobs[mt].size = BlobSizeRadius(nsize);
                        gone[k] = true;
                        if chain.len() < SPLASH_CHAIN_LIMIT {
                            proof {
                                lemma_gone_count_prefix(stk.gone, k as int);
                                lemma_round_count_le(blobs2, mt as int);
                            }
                            let mut chain2: Vec<u64> = chain;
                            chain2.push(t_id);
                            let nb: Blob = make_splash(
                                t_pos.0,
                                t_color.0,
                                chain2,
                                world.next_id,
                                ri_t,
                                frame,
                                0,
                            );
                            world.blobs.push(nb);
                            world.next_id = world.next_id + 1;
                            proof {
                                assert(world@.blobs =~= stk1.blobs);
                                assert(gone@ =~= stk1.gone);
                            }
                        } else {
                            proof {
                                assert(world@.blobs =~= stk1.blobs);
                                assert(gone@ =~= stk1.gone);
                            }
                        }
                    },
                }
            }
        } else {
            proof {
                assert(stk1 == stk);
            }
        }
        k += 1;
    }
    let ghost st_n = splash_pass(init, dt as int, frame, n as int);
    proof {
        lemma_splash_pass_ok(init, dt as int, frame, n as int);
        lemma_gone_count_le(st_n.gone);
        lemma_surviving_len(st_n.blobs, st_n.gone);
        lemma_surviving_props(st_n.blobs, st_n.gone, st_n.next_id);
    }
    let total: usize = world.blobs.len();
    let mut out: Vec<Blob> = Vec::new();
    let mut q: usize = 0;
    while q < total
        invariant
            q <= total,
            total == st_n.blobs.len(),
            n == st_n.gone.len(),
            n <= total,
            world@.blobs == st_n.blobs,
            gone@ == st_n.gone,
            out@.map_values(|b: Blob| b@) == surviving(
                st_n.blobs.take(q as int),
                if q < n {
                    st_n.gone.take(q as int)
                } else {
                    st_n.gone
                },
            ),
        decreases total - q,
    {
        let ghost pre_out = out@.map_values(|b: Blob| b@);
        proof {
            assert(world@.blobs[q as int] == world.blobs@[q as int]@);
            if q < n {
                assert(st_n.blobs.take(q + 1 as int).drop_last() =~= st_n.blobs.take(q as int));
                assert(st_n.gone.take(q + 1 as int).drop_last() =~= st_n.gone.take(q as int));
            } else {
                assert(st_n.blobs.take(q + 1 as int).drop_last() =~= st_n.blobs.take(q as int));
            }
        }
        let keep: bool = if q < n {
            !gone[q]
        } else {
            true
        };
        if keep {
            let b: Blob = clone_blob(&world.blobs[q]);
            out.push(b);
            proof {
                assert(out@.map_values(|b: Blob| b@) =~= pre_out.push(st_n.blobs[q as int]));
            }
        }
        q += 1;
    }
    world.blobs = out;
    proof {
        assert(st_n.blobs.take(total as int) =~= st_n.blobs);
        if n < total {
        } else {
            assert(st_n.gone.take(n as int) =~= st_n.gone);
        }
        assert(final(world)@.blobs == surviving(st_n.blobs, st_n.gone));
        assert(final(world)@ == splash_outcome(old(world)@, dt as int, frame)) by {
            assert(init.gone =~= Seq::new(w0.blobs.len(), |k: int| false));
        }
    }
}

} // verus!

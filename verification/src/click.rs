//! Mouse input and click handling: the cursor's place in normalized device
//! coordinates, and the hit pass a left click runs over the clickable
//! blobs — scoring each hit, starting the blob's growth, and spawning a
//! burst of splashes.

use vstd::prelude::*;
use crate::fixed::{SCALE, fp_mul, fp_mul_s};
use crate::geom::{Vec2Fx, within_circle, within_circle_s};
use crate::blob::{
    Blob, BlobKind, BlobView, BlobKindView, BlobGrowing, BlobPosition, BlobColor, World, WorldView,
    BLOB_LIMIT,
};
use crate::score::{Score, GameSpeed, COUNT_LIMIT, raw_after_hit};
use crate::splash::{splash_blob_s, spawn_splash, round_count};

verus! {

/// Splashes spawned for each blob a click hits.
pub const CLICK_SPLASH_COUNT: u32 = 3;

/// Where the mouse is: in normalized device coordinates, and the same
/// point with the x axis stretched by the window's aspect ratio, which is
/// the space blobs live in.
#[derive(Clone, Copy, PartialEq, Eq, Structural, Debug)]
pub struct MousePosition {
    pub window_rel: Vec2Fx,
    pub ndc: Vec2Fx,
}

impl MousePosition {
    /// The bounds a cursor inside the window keeps.
    pub open spec fn wf(self) -> bool {
        &&& self.ndc.bounded(SCALE as int)
        &&& self.window_rel.bounded(100 * SCALE as int)
    }
}

impl Default for MousePosition {
    /// The mouse starts at the center of the window.
    fn default() -> (m: MousePosition)
        ensures
            m.ndc == (Vec2Fx { x: 0, y: 0 }),
            m.window_rel == (Vec2Fx { x: 0, y: 0 }),
            m.wf(),
    {
        MousePosition { window_rel: Vec2Fx { x: 0, y: 0 }, ndc: Vec2Fx { x: 0, y: 0 } }
    }
}

/// One axis of the cursor in normalized device coordinates: the pixel
/// position scaled to `[-SCALE, SCALE]`.
pub open spec fn ndc_axis_s(cursor: int, size: int) -> int {
    (cursor * 2 * (SCALE as int)) / size - SCALE as int
}

/// Turns a cursor position in window pixels into the mouse state: the
/// normalized coordinates, and the blob-space point with x stretched by
/// the aspect ratio.
pub fn handle_mouse_move(
    mouse: &mut MousePosition,
    cursor_x: u32,
    cursor_y: u32,
    window_w: u32,
    window_h: u32,
)
    requires
        1 <= window_w,
        1 <= window_h,
        cursor_x <= window_w,
        cursor_y <= window_h,
        window_w <= 100 * window_h,
    ensures
        final(mouse).ndc.x == ndc_axis_s(cursor_x as int, window_w as int),
        final(mouse).ndc.y == ndc_axis_s(cursor_y as int, window_h as int),
        final(mouse).window_rel.x == fp_mul_s(
            final(mouse).ndc.x as int,
            crate::sim::window_ratio_s(window_w as int, window_h as int),
        ),
        final(mouse).window_rel.y == final(mouse).ndc.y,
        final(mouse).wf(),
{
    let nx: i64 = ndc_axis(cursor_x, window_w);
    let ny: i64 = ndc_axis(cursor_y, window_h);
    let ratio: i64 = crate::sim::window_ratio(window_w, window_h);
    proof {
        crate::fixed::lemma_fp_mul_bound(nx as int, ratio as int, SCALE as int, 100 * SCALE as int);
    }
    let rx: i64 = fp_mul(nx, ratio);
    mouse.ndc = Vec2Fx { x: nx, y: ny };
    mouse.window_rel = Vec2Fx { x: rx, y: ny };
}

/// One axis of the normalized device coordinates.
fn ndc_axis(cursor: u32, size: u32) -> (r: i64)
    requires
        1 <= size,
        cursor <= size,
    ensures
        r == ndc_axis_s(cursor as int, size as int),
        -SCALE <= r <= SCALE,
{
    proof {
        vstd::arithmetic::div_mod::lemma_div_pos_is_pos(
            cursor as int * 2 * (SCALE as int),
            size as int,
        );
        assert((cursor as int * 2 * (SCALE as int)) / (size as int) <= 2 * (SCALE as int))
            by (nonlinear_arith)
            requires
                cursor as int <= size as int,
                1 <= size as int,
        ;
    }
    ((cursor as u64 * 2 * (SCALE as u64)) / (size as u64)) as i64 - SCALE
}

/// The state of a click pass: the blobs (growth started in place, splash
/// bursts appended), the next free id, the score so far, and whether any
/// blob was hit.
pub struct ClickFrame {
    pub blobs: Seq<BlobView>,
    pub next_id: u64,
    pub raw: i64,
    pub hits: u64,
    pub hit_any: bool,
}

/// What the click does to the blob at `k`. A clickable round blob whose
/// circle holds the cursor is hit: the raw score gains `HIT_SCORE` scaled
/// by the game speed, the hit counter steps, the blob's growth impulse is
/// set to one unit, and a burst of `CLICK_SPLASH_COUNT` splashes seeded
/// with the blob's round ordinal is appended. Any other blob is passed
/// over.
pub open spec fn click_step(st: ClickFrame, mouse: Vec2Fx, speed: int, frame: u32, k: int) -> ClickFrame {
    let b = st.blobs[k];
    if !b.is_splash() && b.clickable() && within_circle_s(b.pos, mouse, b.size as int) {
        let b2 = BlobView { kind: BlobKindView::Round { growing: SCALE, clickable: true }, ..b };
        let burst = Seq::new(
            CLICK_SPLASH_COUNT as nat,
            |q: int|
                splash_blob_s(
                    b.pos,
                    b.color,
                    seq![b.id],
                    (st.next_id + q) as u64,
                    round_count(st.blobs, k) as u32,
                    frame,
                    q as u32,
                ),
        );
        ClickFrame {
            blobs: st.blobs.update(k, b2) + burst,
            next_id: (st.next_id + CLICK_SPLASH_COUNT) as u64,
            raw: raw_after_hit(st.raw as int, speed) as i64,
            hits: if st.hits < COUNT_LIMIT {
                (st.hits + 1) as u64
            } else {
                st.hits
            },
            hit_any: true,
        }
    } else {
        st
    }
}

/// The click pass after the first `k` blobs have been examined.
pub open spec fn click_pass(
    init: ClickFrame,
    mouse: Vec2Fx,
    speed: int,
    frame: u32,
    k: int,
) -> ClickFrame
    decreases k,
{
    if k <= 0 {
        init
    } else {
        click_step(click_pass(init, mouse, speed, frame, k - 1), mouse, speed, frame, k - 1)
    }
}

/// The click pass a world and score start.
pub open spec fn click_init(w: WorldView, score: Score) -> ClickFrame {
    ClickFrame {
        blobs: w.blobs,
        next_id: w.next_id,
        raw: score.raw,
        hits: score.hits,
        hit_any: false,
    }
}

/// Runs a left click against every blob that was in the store when the
/// click landed: each clickable round blob holding the cursor is hit and
/// scored, and a miss is counted when no blob was. With `clicked` false
/// nothing changes. Returns whether any blob was hit.
pub fn click_blobs(
    world: &mut World,
    score: &mut Score,
    speed: &GameSpeed,
    mouse: &MousePosition,
    frame: u32,
    clicked: bool,
) -> (hit: bool)
    requires
        old(world)@.wf(),
        old(score).wf(),
        speed.wf(),
        mouse.wf(),
        4 * old(world)@.blobs.len() <= BLOB_LIMIT,
        old(world)@.next_id + BLOB_LIMIT <= u64::MAX,
    ensures
        final(world)@.wf(),
        final(score).wf(),
        !clicked ==> {
            &&& final(world)@ == old(world)@
            &&& *final(score) == *old(score)
            &&& hit == false
        },
        clicked ==> {
            let cf = click_pass(
                click_init(old(world)@, *old(score)),
                mouse.window_rel,
                speed.0 as int,
                frame,
                old(world)@.blobs.len() as int,
            );
            &&& final(world)@.blobs == cf.blobs
            &&& final(world)@.next_id == cf.next_id
            &&& final(score).raw == cf.raw
            &&& final(score).hits == cf.hits
            &&& hit == cf.hit_any
            &&& final(score).misses == if cf.hit_any {
                old(score).misses as int
            } else if old(score).misses < COUNT_LIMIT {
                old(score).misses + 1
            } else {
                old(score).misses as int
            }
        },
{
    if !clicked {
        return false;
    }
    let ghost init = click_init(old(world)@, *old(score));
    let ghost mrel = mouse.window_rel;
    let ghost spd = speed.0 as int;
    let n: usize = world.blobs.len();
    let mut hit_any: bool = false;
    let mut ri: u32 = 0;
    let mut k: usize = 0;
    while k < n
        invariant
            n == init.blobs.len(),
            k <= n,
            4 * n <= BLOB_LIMIT,
            init.next_id + BLOB_LIMIT <= u64::MAX,
            mrel == mouse.window_rel,
            spd == speed.0 as int,
            speed.wf(),
            mouse.wf(),
            score.wf(),
            world@.wf(),
            n <= world@.blobs.len(),
            world@.blobs.len() <= n + 3 * k,
            forall|j: int|
                0 <= j < n ==> (#[trigger] world@.blobs[j]).is_splash()
                    == init.blobs[j].is_splash(),
            world@.next_id <= init.next_id + 3 * k,
            world@.blobs == click_pass(init, mrel, spd, frame, k as int).blobs,
            world@.next_id == click_pass(init, mrel, spd, frame, k as int).next_id,
            score.raw == click_pass(init, mrel, spd, frame, k as int).raw,
            score.hits == click_pass(init, mrel, spd, frame, k as int).hits,
            score.misses == old(score).misses,
            hit_any == click_pass(init, mrel, spd, frame, k as int).hit_any,
            ri == round_count(init.blobs, k as int),
        decreases n - k,
    {
        let ghost stk = click_pass(init, mrel, spd, frame, k as int);
        let ghost stk1 = click_step(stk, mrel, spd, frame, k as int);
        proof {
            assert(click_pass(init, mrel, spd, frame, k + 1 as int) == stk1);
            assert(world@.blobs[k as int] == world.blobs@[k as int]@);
            assert(world@.blobs[k as int].wf());
            assert(round_count(init.blobs, k + 1 as int) == round_count(init.blobs, k as int)
                + if !init.blobs[k as int].is_splash() {
                1int
            } else {
                0int
            });
            assert(round_count(stk.blobs, k as int) == round_count(init.blobs, k as int)) by {
                lemma_round_count_prefix_eq(stk.blobs, init.blobs, k as int);
            }
            crate::splash::lemma_round_count_le(init.blobs, k as int);
        }
        let clickable: bool = match &world.blobs[k].kind {
            BlobKind::Round { clickable, .. } => *clickable,
            BlobKind::Splash(_) => false,
        };
        let is_round: bool = !world.blobs[k].is_splash_blob();
        if clickable && within_circle(world.blobs[k].pos.0, mouse.window_rel, world.blobs[k].size.0)
        {
            let ghost pre: Seq<Blob> = world.blobs@;
            let b_id: u64 = world.blobs[k].id;
            let b_pos: BlobPosition = world.blobs[k].pos;
            let b_color: BlobColor = world.blobs[k].color;
            crate::score::add_hit(score, *speed);
            hit_any = true;
            world.blobs[k].kind = BlobKind::Round { growing: BlobGrowing(SCALE), clickable: true };
            proof {
                assert forall|j: int| 0 <= j < world.blobs@.len() && j != k as int implies
                    world.blobs@[j] == pre[j] by {}
                assert(world@.blobs =~= stk.blobs.update(
                    k as int,
                    (BlobView {
                        kind: BlobKindView::Round { growing: SCALE, clickable: true },
                        ..stk.blobs[k as int]
                    }),
                ));
                assert forall|i: int, j: int| 0 <= i < j < world@.blobs.len() implies (
                #[trigger] world@.blobs[i]).id < (#[trigger] world@.blobs[j]).id by {
                    assert(world@.blobs[i].id == stk.blobs[i].id);
                    assert(world@.blobs[j].id == stk.blobs[j].id);
                }
                assert forall|j: int| 0 <= j < world@.blobs.len() implies #[trigger] world@.blobs[j].wf() by {
                    if j != k as int {
                        assert(world@.blobs[j] == stk.blobs[j]);
                        assert(stk.blobs[j].wf());
                    } else {
                        assert(stk.blobs[k as int].wf());
                    }
                }
            }
            let mut sb: Vec<u64> = Vec::new();
            sb.push(b_id);
            proof {
                assert(sb@ =~= seq![b_id]);
            }
            spawn_splash(world, frame, sb, &b_pos, &b_color, ri, CLICK_SPLASH_COUNT);
            proof {
                assert(world@.blobs =~= stk1.blobs);
                assert forall|j: int| 0 <= j < n implies (#[trigger] world@.blobs[j]).is_splash()
                    == init.blobs[j].is_splash() by {
                    if j != k as int {
                        assert(world@.blobs[j] == stk.blobs[j]);
                    }
                }
            }
        }
        if is_round {
            ri = ri + 1;
        }
        k += 1;
    }
    if !hit_any {
        crate::score::add_miss(score);
    }
    hit_any
}

/// Two stores whose first `k` blobs agree blob for blob in kind have the
/// same round ordinal at `k`.
pub proof fn lemma_round_count_prefix_eq(a: Seq<BlobView>, b: Seq<BlobView>, k: int)
    requires
        0 <= k <= a.len(),
        k <= b.len(),
        forall|j: int| 0 <= j < k ==> (#[trigger] a[j]).is_splash() == b[j].is_splash(),
    ensures
        round_count(a, k) == round_count(b, k),
    decreases k,
{
    if k > 0 {
        lemma_round_count_prefix_eq(a, b, k - 1);
    }
}

} // verus!

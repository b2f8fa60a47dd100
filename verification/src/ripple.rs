//! The ripple feedback loop's bookkeeping: two offscreen render targets
//! are swapped every frame, reallocated when the window size changes, and
//! the frame's mouse-and-click signal is packed for the feedback shader.

use vstd::prelude::*;
use crate::fixed::SCALE;
use crate::geom::Vec2Fx;

verus! {

/// The raw score below which the feedback buffer is still being seeded.
pub const INIT_SCORE_THRESHOLD: i64 = 10_000_000;

/// The signal value of a frame with a click.
pub const SIGNAL_CLICK: i64 = 1_000_000;

/// The signal value of a seeding frame.
pub const SIGNAL_INIT: i64 = -1_000_000;

/// A physical window size in pixels.
#[derive(Clone, Copy, PartialEq, Eq, Structural, Debug)]
pub struct Resolution {
    pub w: u32,
    pub h: u32,
}

/// Hands out identities for offscreen images, one at a time.
#[derive(Clone, Copy, PartialEq, Eq, Structural, Debug)]
pub struct ImageAlloc {
    pub next: u64,
}

impl ImageAlloc {
    /// An allocator that has handed out nothing.
    pub fn new() -> (a: ImageAlloc)
        ensures
            a.next == 0,
    {
        ImageAlloc { next: 0 }
    }
}

/// The two offscreen render targets of the ripple effect and the size
/// they were made for: the feedback shader renders into `a` while reading
/// the previous frame from `b`.
#[derive(Clone, Copy, PartialEq, Eq, Structural, Debug)]
pub struct RippleImages {
    pub a: u64,
    pub b: u64,
    pub res: Resolution,
}

/// `swap` exchanges the two targets.
pub open spec fn swapped(r: RippleImages) -> RippleImages {
    RippleImages { a: r.b, b: r.a, res: r.res }
}

/// Swapping twice returns to the start.
pub proof fn lemma_swap_involution(r: RippleImages)
    ensures
        swapped(swapped(r)) == r,
{
}

impl RippleImages {
    /// Two fresh render targets of size `res`.
    pub fn new(res: Resolution, images: &mut ImageAlloc) -> (r: RippleImages)
        requires
            old(images).next + 2 <= u64::MAX,
        ensures
            r.a == old(images).next,
            r.b == old(images).next + 1,
            r.res == res,
            final(images).next == old(images).next + 2,
    {
        let a: u64 = images.next;
        let b: u64 = images.next + 1;
        images.next = images.next + 2;
        RippleImages { a, b, res }
    }

    /// Exchanges the two targets, so that last frame's output becomes
    /// this frame's input.
    pub fn swap(&mut self)
        ensures
            *final(self) == swapped(*old(self)),
    {
        let a: u64 = self.a;
        self.a = self.b;
        self.b = a;
    }
}

/// What the feedback shader is handed for one frame: the target to render
/// into, the previous frame's texture to read, the cursor in normalized
/// device coordinates, the frame's signal, and the frame time.
#[derive(Clone, Copy, PartialEq, Eq, Structural, Debug)]
pub struct RippleFrame {
    pub target: u64,
    pub prev: u64,
    pub mouse_x: i64,
    pub mouse_y: i64,
    pub signal: i64,
    pub dt: i64,
}

/// The signal of a frame: a click beats everything, a seeding frame (low
/// score, or targets just reallocated) signals a reset, any other frame
/// is quiet.
pub open spec fn ripple_signal(clicked: bool, seeding: bool) -> int {
    if clicked {
        SIGNAL_CLICK as int
    } else if seeding {
        SIGNAL_INIT as int
    } else {
        0
    }
}

/// Advances the ripple loop by one frame: the targets swap, are rebuilt
/// when the window size changed, and the shader inputs for the frame are
/// assembled. The frame renders into `a` and reads `b`; seeding holds
/// while the raw score is below the threshold or the targets were just
/// rebuilt.
pub fn ripple_swap(
    images: &mut RippleImages,
    alloc: &mut ImageAlloc,
    res: Resolution,
    clicked: bool,
    score_raw: i64,
    mouse_ndc: Vec2Fx,
    dt: i64,
) -> (frame: RippleFrame)
    requires
        old(alloc).next + 2 <= u64::MAX,
    ensures
        *final(images) == if swapped(*old(images)).res == res {
            swapped(*old(images))
        } else {
            (RippleImages { a: old(alloc).next, b: (old(alloc).next + 1) as u64, res })
        },
        final(alloc).next == if swapped(*old(images)).res == res {
            old(alloc).next as int
        } else {
            old(alloc).next + 2
        },
        frame.target == final(images).a,
        frame.prev == final(images).b,
        frame.mouse_x == mouse_ndc.x,
        frame.mouse_y == mouse_ndc.y,
        frame.signal == ripple_signal(
            clicked,
            score_raw < INIT_SCORE_THRESHOLD || old(images).res != res,
        ),
        frame.dt == dt,
{
    let mut seeding: bool = score_raw < INIT_SCORE_THRESHOLD;
    images.swap();
    if images.res.w != res.w || images.res.h != res.h {
        *images = RippleImages::new(res, alloc);
        seeding = true;
    }
    let signal: i64 = if clicked {
        SIGNAL_CLICK
    } else if seeding {
        SIGNAL_INIT
    } else {
        0
    };
    RippleFrame {
        target: images.a,
        prev: images.b,
        mouse_x: mouse_ndc.x,
        mouse_y: mouse_ndc.y,
        signal,
        dt,
    }
}

} // verus!

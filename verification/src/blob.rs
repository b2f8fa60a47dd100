//! The blob store: per-entity attributes of every live blob — round blobs
//! that shrink, grow and take clicks, and short-lived splash blobs that
//! age out or merge into a round blob — and the world that holds them.
//! Contracts speak of blobs through `BlobView` and of the store through
//! `WorldView`.

use vstd::prelude::*;
use crate::fixed::SCALE;
use crate::geom::{Vec2Fx, ColorFx};

verus! {

/// Positions stay within this magnitude.
pub const POS_LIMIT: i64 = 1_000_000_000;

/// Velocities stay within this magnitude.
pub const VEL_LIMIT: i64 = 100_000_000;

/// Radii stay within this magnitude (negative radii mean a blob has shrunk
/// away; it stays in the store but can no longer be hit).
pub const RADIUS_LIMIT: i64 = 2_000_000_000;

/// Color channels stay within this magnitude.
pub const COLOR_LIMIT: i64 = 1_000_000_000;

/// The store never holds more than this many blobs.
pub const BLOB_LIMIT: usize = 100_000;

/// A splash records at most this many blobs in its spawning chain; a merge
/// with a chain already this long spawns no further splash.
pub const SPLASH_CHAIN_LIMIT: usize = 4;

/// Radius below which a fully shrunk round blob becomes clickable.
#[derive(Clone, Copy, Debug)]
pub struct BlobClickableSize(pub i64);

impl Default for BlobClickableSize {
    /// The threshold the game plays with: a tenth of a unit.
    fn default() -> (s: BlobClickableSize)
        ensures
            s.0 == 100_000,
    {
        BlobClickableSize(100_000)
    }
}

/// A blob's radius.
#[derive(Clone, Copy, PartialEq, Eq, Structural, Debug)]
pub struct BlobSizeRadius(pub i64);

/// A blob's center.
#[derive(Clone, Copy, PartialEq, Eq, Structural, Debug)]
pub struct BlobPosition(pub Vec2Fx);

/// A blob's velocity, in game units per second.
#[derive(Clone, Copy, PartialEq, Eq, Structural, Debug)]
pub struct BlobVelocity(pub Vec2Fx);

/// A blob's color.
#[derive(Clone, Copy, PartialEq, Eq, Structural, Debug)]
pub struct BlobColor(pub ColorFx);

/// Marks a round blob that a click may hit.
#[derive(Clone, Copy, Debug)]
pub struct BlobCanBeClicked;

/// Remaining growth impulse of a round blob; positive while the blob is
/// swelling after a hit, decaying toward zero.
#[derive(Clone, Copy, PartialEq, Eq, Structural, Debug)]
pub struct BlobGrowing(pub i64);

/// The splash-specific attributes: a remaining lifetime in `(0, SCALE]`
/// and the blobs in whose chain this splash was spawned, which it may not
/// merge back into.
#[derive(Debug)]
pub struct SplashBlob {
    pub age: i64,
    pub spawned_by: Vec<u64>,
}

/// What kind of blob an entity is, with the attributes only that kind has.
#[derive(Debug)]
pub enum BlobKind {
    Round { growing: BlobGrowing, clickable: bool },
    Splash(SplashBlob),
}

/// One live blob.
#[derive(Debug)]
pub struct Blob {
    pub id: u64,
    pub size: BlobSizeRadius,
    pub pos: BlobPosition,
    pub vel: BlobVelocity,
    pub color: BlobColor,
    pub kind: BlobKind,
}

/// All live blobs, in spawn order, with the id the next spawn takes.
pub struct World {
    pub blobs: Vec<Blob>,
    pub next_id: u64,
}

/// The mathematical model of a blob's kind.
pub enum BlobKindView {
    Round { growing: i64, clickable: bool },
    Splash { age: i64, spawned_by: Seq<u64> },
}

/// The mathematical model of one blob.
pub struct BlobView {
    pub id: u64,
    pub size: i64,
    pub pos: Vec2Fx,
    pub vel: Vec2Fx,
    pub color: ColorFx,
    pub kind: BlobKindView,
}

/// The mathematical model of the store.
pub struct WorldView {
    pub blobs: Seq<BlobView>,
    pub next_id: u64,
}

impl View for Blob {
    type V = BlobView;

    open spec fn view(&self) -> BlobView {
        BlobView {
            id: self.id,
            size: self.size.0,
            pos: self.pos.0,
            vel: self.vel.0,
            color: self.color.0,
            kind: match self.kind {
                BlobKind::Round { growing, clickable } => BlobKindView::Round {
                    growing: growing.0,
                    clickable,
                },
                BlobKind::Splash(s) => BlobKindView::Splash {
                    age: s.age,
                    spawned_by: s.spawned_by@,
                },
            },
        }
    }
}

impl View for World {
    type V = WorldView;

    open spec fn view(&self) -> WorldView {
        WorldView { blobs: self.blobs@.map_values(|b: Blob| b@), next_id: self.next_id }
    }
}

impl BlobView {
    /// Whether this blob is a splash.
    pub open spec fn is_splash(self) -> bool {
        self.kind is Splash
    }

    /// A round blob's growth impulse; zero for splashes.
    pub open spec fn growing(self) -> int {
        match self.kind {
            BlobKindView::Round { growing, .. } => growing as int,
            BlobKindView::Splash { .. } => 0,
        }
    }

    /// Whether a click may hit this blob.
    pub open spec fn clickable(self) -> bool {
        match self.kind {
            BlobKindView::Round { clickable, .. } => clickable,
            BlobKindView::Splash { .. } => false,
        }
    }

    /// A splash's remaining lifetime; zero for round blobs.
    pub open spec fn age(self) -> int {
        match self.kind {
            BlobKindView::Round { .. } => 0,
            BlobKindView::Splash { age, .. } => age as int,
        }
    }

    /// The chain of blobs a splash was spawned by; empty for round blobs.
    pub open spec fn chain(self) -> Seq<u64> {
        match self.kind {
            BlobKindView::Round { .. } => Seq::empty(),
            BlobKindView::Splash { spawned_by, .. } => spawned_by,
        }
    }

    /// The attribute bounds every blob in a well-formed world keeps.
    pub open spec fn wf(self) -> bool {
        &&& -RADIUS_LIMIT <= self.size <= RADIUS_LIMIT
        &&& self.pos.bounded(POS_LIMIT as int)
        &&& self.vel.bounded(VEL_LIMIT as int)
        &&& self.color.bounded(COLOR_LIMIT as int)
        &&& match self.kind {
            BlobKindView::Round { growing, .. } => 0 <= growing <= SCALE,
            BlobKindView::Splash { age, spawned_by } => {
                &&& 0 < age <= SCALE
                &&& spawned_by.len() <= SPLASH_CHAIN_LIMIT
            },
        }
    }
}

impl WorldView {
    /// Every blob is well formed, the store is not over capacity, and ids
    /// rise strictly with spawn order, all below the next free one.
    pub open spec fn wf(self) -> bool {
        &&& self.blobs.len() <= BLOB_LIMIT
        &&& forall|i: int| 0 <= i < self.blobs.len() ==> #[trigger] self.blobs[i].wf()
        &&& forall|i: int| 0 <= i < self.blobs.len() ==> #[trigger] self.blobs[i].id < self.next_id
        &&& forall|i: int, j: int|
            0 <= i < j < self.blobs.len() ==> (#[trigger] self.blobs[i]).id < (
            #[trigger] self.blobs[j]).id
    }
}

impl Blob {
    /// Whether this blob is a splash, as runnable code.
    pub fn is_splash_blob(&self) -> (r: bool)
        ensures
            r == self@.is_splash(),
    {
        match self.kind {
            BlobKind::Splash(_) => true,
            BlobKind::Round { .. } => false,
        }
    }
}

impl World {
    /// An empty world.
    pub fn new() -> (w: World)
        ensures
            w@.wf(),
            w@.blobs.len() == 0,
            w@.next_id == 0,
    {
        World { blobs: Vec::new(), next_id: 0 }
    }

    /// How many blobs the store holds.
    pub fn blob_count(&self) -> (n: usize)
        ensures
            n == self@.blobs.len(),
    {
        self.blobs.len()
    }
}

/// Whether `ids` holds `id`.
pub fn contains_id(ids: &Vec<u64>, id: u64) -> (r: bool)
    ensures
        r == ids@.contains(id),
{
    let mut k: usize = 0;
    while k < ids.len()
        invariant
            k <= ids@.len(),
            forall|j: int| 0 <= j < k ==> ids@[j] != id,
        decreases ids@.len() - k,
    {
        if ids[k] == id {
            return true;
        }
        k += 1;
    }
    false
}

/// A copy of `ids`.
pub fn clone_ids(ids: &Vec<u64>) -> (r: Vec<u64>)
    ensures
        r@ == ids@,
{
    let mut out: Vec<u64> = Vec::new();
    let mut k: usize = 0;
    while k < ids.len()
        invariant
            k <= ids@.len(),
            out@ == ids@.take(k as int),
        decreases ids@.len() - k,
    {
        out.push(ids[k]);
        proof {
            assert(out@ == ids@.take(k + 1 as int));
        }
        k += 1;
    }
    proof {
        assert(ids@.take(ids@.len() as int) == ids@);
    }
    out
}

} // verus!

//! The packing stage: every live blob is serialized into two parallel
//! dense arrays — position-and-radius, and color — that are uploaded as
//! one-row float textures for the circle-drawing fragment shader.
//! Non-clickable blobs come first, then the clickable ones with a bright
//! highlight color; an empty store still yields one zeroed entry.

use vstd::prelude::*;
use crate::blob::{BlobView, World};
use crate::geom::Vec2Fx;

verus! {

/// The color every clickable blob is drawn with, in each channel.
pub const CLICK_RENDER_COLOR: i64 = 2_000_000;

/// One texture entry: four fixed-point lanes.
#[derive(Clone, Copy, PartialEq, Eq, Structural, Debug)]
pub struct Texel {
    pub x: i64,
    pub y: i64,
    pub z: i64,
    pub w: i64,
}

/// The two parallel arrays the shader reads, and how many circles they
/// hold.
pub struct RenderData {
    pub pos_radius: Vec<Texel>,
    pub color: Vec<Texel>,
    pub circle_count: u32,
}

/// A one-row texture of the given entries.
pub struct TextureData {
    pub width: u32,
    pub height: u32,
    pub texels: Vec<Texel>,
}

/// A blob's position-and-radius entry.
pub open spec fn texel_pos(b: BlobView) -> Texel {
    Texel { x: b.pos.x, y: b.pos.y, z: b.size, w: 0 }
}

/// A blob's color entry: its own color, or the highlight when it is
/// drawn as clickable.
pub open spec fn texel_color(b: BlobView, highlight: bool) -> Texel {
    if highlight {
        Texel { x: CLICK_RENDER_COLOR, y: CLICK_RENDER_COLOR, z: CLICK_RENDER_COLOR, w: 0 }
    } else {
        Texel { x: b.color.r, y: b.color.g, z: b.color.b, w: 0 }
    }
}

/// The position entries of the blobs whose clickability is `want`, in
/// store order.
pub open spec fn select_pos(blobs: Seq<BlobView>, want: bool) -> Seq<Texel>
    decreases blobs.len(),
{
    if blobs.len() == 0 {
        Seq::empty()
    } else if blobs.last().clickable() == want {
        select_pos(blobs.drop_last(), want).push(texel_pos(blobs.last()))
    } else {
        select_pos(blobs.drop_last(), want)
    }
}

/// The color entries of the blobs whose clickability is `want`.
pub open spec fn select_color(blobs: Seq<BlobView>, want: bool) -> Seq<Texel>
    decreases blobs.len(),
{
    if blobs.len() == 0 {
        Seq::empty()
    } else if blobs.last().clickable() == want {
        select_color(blobs.drop_last(), want).push(texel_color(blobs.last(), want))
    } else {
        select_color(blobs.drop_last(), want)
    }
}

/// Both passes together visit every blob once.
pub proof fn lemma_select_pos_total(blobs: Seq<BlobView>)
    ensures
        select_pos(blobs, false).len() + select_pos(blobs, true).len() == blobs.len(),
    decreases blobs.len(),
{
    if blobs.len() > 0 {
        lemma_select_pos_total(blobs.drop_last());
    }
}

/// The packed position-and-radius array: the non-clickable blobs, then
/// the clickable ones; one zeroed entry when the store is empty.
pub open spec fn packed_pos(blobs: Seq<BlobView>) -> Seq<Texel> {
    if blobs.len() == 0 {
        seq![(Texel { x: 0, y: 0, z: 0, w: 0 })]
    } else {
        select_pos(blobs, false) + select_pos(blobs, true)
    }
}

/// The packed color array, aligned with `packed_pos`: the clickable
/// blobs' entries all carry the highlight color.
pub open spec fn packed_color(blobs: Seq<BlobView>) -> Seq<Texel> {
    if blobs.len() == 0 {
        seq![(Texel { x: 0, y: 0, z: 0, w: 0 })]
    } else {
        select_color(blobs, false) + select_color(blobs, true)
    }
}

/// Serializes the store for the shader: two parallel arrays, non-clickable
/// blobs first, clickable ones after with the highlight color, and one
/// zeroed entry if the store is empty.
pub fn render_blobs(world: &World) -> (r: RenderData)
    requires
        world@.wf(),
    ensures
        r.pos_radius@ == packed_pos(world@.blobs),
        r.color@ == packed_color(world@.blobs),
        r.circle_count == packed_pos(world@.blobs).len(),
        r.pos_radius@.len() == r.color@.len(),
        r.circle_count >= 1,
{
    let n: usize = world.blobs.len();
    let mut pos_radius: Vec<Texel> = Vec::new();
    let mut color: Vec<Texel> = Vec::new();
    let mut pass: usize = 0;
    while pass < 2
        invariant
            pass <= 2,
            n == world@.blobs.len(),
            pass == 0 ==> pos_radius@ =~= Seq::<Texel>::empty() && color@ =~= Seq::<
                Texel,
            >::empty(),
            pass == 1 ==> pos_radius@ == select_pos(world@.blobs, false) && color@ == select_color(
                world@.blobs,
                false,
            ),
            pass == 2 ==> pos_radius@ == select_pos(world@.blobs, false) + select_pos(
                world@.blobs,
                true,
            ) && color@ == select_color(world@.blobs, false) + select_color(world@.blobs, true),
        decreases 2 - pass,
    {
        let want: bool = pass == 1;
        let ghost base_pos = pos_radius@;
        let ghost base_color = color@;
        let mut k: usize = 0;
        while k < n
            invariant
                k <= n,
                n == world@.blobs.len(),
                pos_radius@ == base_pos + select_pos(world@.blobs.take(k as int), want),
                color@ == base_color + select_color(world@.blobs.take(k as int), want),
                want == (pass == 1),
            decreases n - k,
        {
            proof {
                assert(world@.blobs[k as int] == world.blobs@[k as int]@);
                assert(world@.blobs.take(k + 1 as int).drop_last() =~= world@.blobs.take(k as int));
                assert(world@.blobs.take(k + 1 as int).last() == world@.blobs[k as int]);
            }
            let clickable: bool = match &world.blobs[k].kind {
                crate::blob::BlobKind::Round { clickable, .. } => *clickable,
                crate::blob::BlobKind::Splash(_) => false,
            };
            if clickable == want {
                let b = &world.blobs[k];
                pos_radius.push(Texel { x: b.pos.0.x, y: b.pos.0.y, z: b.size.0, w: 0 });
                if want {
                    color.push(
                        Texel {
                            x: CLICK_RENDER_COLOR,
                            y: CLICK_RENDER_COLOR,
                            z: CLICK_RENDER_COLOR,
                            w: 0,
                        },
                    );
                } else {
                    color.push(Texel { x: b.color.0.r, y: b.color.0.g, z: b.color.0.b, w: 0 });
                }
                proof {
                    assert(pos_radius@ =~= base_pos + select_pos(
                        world@.blobs.take(k + 1 as int),
                        want,
                    ));
                    assert(color@ =~= base_color + select_color(
                        world@.blobs.take(k + 1 as int),
                        want,
                    ));
                }
            } else {
                proof {
                    assert(pos_radius@ =~= base_pos + select_pos(
                        world@.blobs.take(k + 1 as int),
                        want,
                    ));
                    assert(color@ =~= base_color + select_color(
                        world@.blobs.take(k + 1 as int),
                        want,
                    ));
                }
            }
            k += 1;
        }
        proof {
            assert(world@.blobs.take(n as int) =~= world@.blobs);
        }
        pass += 1;
    }
    if pos_radius.len() == 0 {
        proof {
            lemma_select_pos_total(world@.blobs);
        }
        pos_radius.push(Texel { x: 0, y: 0, z: 0, w: 0 });
        color.push(Texel { x: 0, y: 0, z: 0, w: 0 });
        proof {
            assert(pos_radius@ =~= packed_pos(world@.blobs));
            assert(color@ =~= packed_color(world@.blobs));
        }
    }
    proof {
        lemma_select_pos_total(world@.blobs);
        lemma_select_color_total(world@.blobs);
    }
    let count: usize = pos_radius.len();
    RenderData { pos_radius, color, circle_count: count as u32 }
}

/// Both color passes together visit every blob once.
pub proof fn lemma_select_color_total(blobs: Seq<BlobView>)
    ensures
        select_color(blobs, false).len() + select_color(blobs, true).len() == blobs.len(),
    decreases blobs.len(),
{
    if blobs.len() > 0 {
        lemma_select_color_total(blobs.drop_last());
    }
}

/// Wraps packed entries as a one-row texture: as wide as the data is
/// long, one texel high.
pub fn data_image(texels: Vec<Texel>) -> (r: TextureData)
    requires
        texels@.len() <= u32::MAX,
    ensures
        r.width == texels@.len(),
        r.height == 1,
        r.texels@ == texels@,
{
    let width: usize = texels.len();
    TextureData { width: width as u32, height: 1, texels }
}

/// A triangle large enough to cover any viewport, for the fullscreen
/// passes.
#[derive(Clone, Copy, PartialEq, Eq, Structural, Debug)]
pub struct Triangle2 {
    pub a: Vec2Fx,
    pub b: Vec2Fx,
    pub c: Vec2Fx,
}

/// The fullscreen triangle.
pub fn fullscreen_tri() -> (t: Triangle2)
    ensures
        t.a == (Vec2Fx { x: -10_000_000_000i64, y: -100_000_000_000i64 }),
        t.b == (Vec2Fx { x: -10_000_000_000i64, y: 10_000_000_000i64 }),
        t.c == (Vec2Fx { x: 100_000_000_000i64, y: 10_000_000_000i64 }),
{
    Triangle2 {
        a: Vec2Fx { x: -10_000_000_000, y: -100_000_000_000 },
        b: Vec2Fx { x: -10_000_000_000, y: 10_000_000_000 },
        c: Vec2Fx { x: 100_000_000_000, y: 10_000_000_000 },
    }
}

} // verus!

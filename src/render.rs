use vstd::prelude::*;
use crate::geometry::{Point, SUBUNITS};
use crate::world::World;

verus! {

/// Radius of each disc: ten world units.
pub const DISC_RADIUS: i64 = 10 * SUBUNITS;

/// Opacity of the fading overlay, in thousandths of full opacity.
pub const FADE_ALPHA_PER_MILLE: u32 = 5;

/// One drawing command for the display surface.
#[derive(Clone, Copy, Debug, PartialEq, Eq, Structural)]
pub enum DrawOp {
    /// Clear the whole surface to opaque black.
    Clear,
    /// Cover the whole surface, `width` by `height` world units, with black
    /// at `alpha_per_mille` thousandths of full opacity.
    Fade { width: u32, height: u32, alpha_per_mille: u32 },
    /// A filled disc, in the colour of the frame.
    Disc { center: Point, radius: i64 },
}

/// The overlay that fades earlier frames.
pub open spec fn fade_op(width: u32, height: u32) -> DrawOp {
    DrawOp::Fade { width, height, alpha_per_mille: FADE_ALPHA_PER_MILLE }
}

/// The disc drawn for an element at `p`.
pub open spec fn disc_op(p: Point) -> DrawOp {
    DrawOp::Disc { center: p, radius: DISC_RADIUS }
}

/// The commands of one frame: a clear on the first frame only, then the
/// fading overlay, then one disc per element in order.
pub open spec fn frame_ops(first: bool, width: u32, height: u32, ps: Seq<Point>) -> Seq<DrawOp> {
    let head = if first {
        seq![DrawOp::Clear, fade_op(width, height)]
    } else {
        seq![fade_op(width, height)]
    };
    head + ps.map_values(|p: Point| disc_op(p))
}

/// Turns the world into drawing commands, frame after frame, over a surface
/// of a fixed size; it remembers only whether the first frame is still to
/// come.
pub struct Renderer {
    first_frame: bool,
    width: u32,
    height: u32,
}

impl Renderer {
    /// The next frame is the first, and opens with a clear.
    pub closed spec fn clear_pending(&self) -> bool {
        self.first_frame
    }

    /// Width and height of the surface, in world units.
    pub closed spec fn surface(&self) -> (u32, u32) {
        (self.width, self.height)
    }

    pub fn new(width: u32, height: u32) -> (r: Renderer)
        ensures
            r.clear_pending(),
            r.surface() == (width, height),
    {
        Renderer { first_frame: true, width, height }
    }

    pub fn is_first_frame(&self) -> (r: bool)
        ensures
            r == self.clear_pending(),
    {
        self.first_frame
    }

    /// The commands that draw `world` in the next frame.
    pub fn frame(&mut self, world: &World) -> (ops: Vec<DrawOp>)
        ensures
            ops@ == frame_ops(old(self).clear_pending(), old(self).surface().0, old(self).surface().1, world@),
            !final(self).clear_pending(),
            final(self).surface() == old(self).surface(),
    {
        let mut ops: Vec<DrawOp> = Vec::new();
        if self.first_frame {
            ops.push(DrawOp::Clear);
        }
        ops.push(DrawOp::Fade { width: self.width, height: self.height, alpha_per_mille: FADE_ALPHA_PER_MILLE });
        let ghost head = ops@;
        let ghost discs = world@.map_values(|p: Point| disc_op(p));
        let n = world.len();
        let mut i: usize = 0;
        while i < n
            invariant
                i <= n,
                n == world@.len(),
                discs == world@.map_values(|p: Point| disc_op(p)),
                ops@ == head + discs.take(i as int),
            decreases n - i,
        {
            ops.push(DrawOp::Disc { center: world.position(i), radius: DISC_RADIUS });
            i = i + 1;
            assert(ops@ =~= head + discs.take(i as int));
        }
        assert(discs.take(n as int) =~= discs);
        assert(head + discs =~= frame_ops(self.first_frame, self.width, self.height, world@));
        self.first_frame = false;
        ops
    }
}

} // verus!

//! Whole-number parts of the hydraulic erosion: where the droplets start,
//! and which four cells a droplet samples.

use vstd::prelude::*;
use crate::rotation::Rotation;

verus! {

/// Erosion samples the four cells of a two by two block around a droplet.
/// The block hangs on the droplet's own cell by one of its corners; which
/// one changes when the droplet crosses a seam that turns the grid.
#[derive(Debug, Clone, Copy, PartialEq, Eq, Structural)]
pub enum ErosionKernelOrigin {
    /// the droplet's cell is the upper left cell of the block
    NW,
    /// the droplet's cell is the upper right cell of the block
    NE,
    /// the droplet's cell is the lower left cell of the block
    SW,
    /// the droplet's cell is the lower right cell of the block
    SE,
}

impl ErosionKernelOrigin {
    /// The direction from the droplet's cell to the opposite cell of the
    /// block.
    pub open spec fn diagonal(self) -> (int, int) {
        match self {
            ErosionKernelOrigin::NW => (1, 1),
            ErosionKernelOrigin::NE => (-1, 1),
            ErosionKernelOrigin::SW => (1, -1),
            ErosionKernelOrigin::SE => (-1, -1),
        }
    }

    /// The origin whose block points along `(dx, dy)`.
    pub open spec fn along(dx: int, dy: int) -> ErosionKernelOrigin {
        if dx > 0 {
            if dy > 0 {
                ErosionKernelOrigin::NW
            } else {
                ErosionKernelOrigin::SW
            }
        } else {
            if dy > 0 {
                ErosionKernelOrigin::NE
            } else {
                ErosionKernelOrigin::SE
            }
        }
    }

    /// The origin after the block was turned about the droplet's cell.
    pub open spec fn turned_by(self, turn: Rotation) -> ErosionKernelOrigin {
        let (dx, dy) = self.diagonal();
        let (tx, ty) = turn.turn(dx, dy);
        ErosionKernelOrigin::along(tx, ty)
    }

    /// The offsets from the droplet's cell to the upper left, upper right,
    /// lower left and lower right cell of the block, in this order.
    pub open spec fn block(self) -> Seq<(int, int)> {
        let (dx, dy) = self.diagonal();
        let west = if dx > 0 {
            0int
        } else {
            -1int
        };
        let north = if dy > 0 {
            0int
        } else {
            -1int
        };
        seq![(west, north), (west + 1, north), (west, north + 1), (west + 1, north + 1)]
    }

    pub fn rotate_cw(&mut self)
        ensures
            *final(self) == old(self).turned_by(Rotation::Clockwise),
    {
        *self =
        match *self {
            ErosionKernelOrigin::NW => ErosionKernelOrigin::NE,
            ErosionKernelOrigin::NE => ErosionKernelOrigin::SE,
            ErosionKernelOrigin::SW => ErosionKernelOrigin::NW,
            ErosionKernelOrigin::SE => ErosionKernelOrigin::SW,
        };
    }

    pub fn rotate_ccw(&mut self)
        ensures
            *final(self) == old(self).turned_by(Rotation::CounterClockwise),
    {
        *self =
        match *self {
            ErosionKernelOrigin::NW => ErosionKernelOrigin::SW,
            ErosionKernelOrigin::NE => ErosionKernelOrigin::NW,
            ErosionKernelOrigin::SW => ErosionKernelOrigin::SE,
            ErosionKernelOrigin::SE => ErosionKernelOrigin::NE,
        };
    }

    pub fn rotate_180(&mut self)
        ensures
            *final(self) == old(self).turned_by(Rotation::Half),
    {
        self.rotate_cw();
        self.rotate_cw();
    }

    /// Turns the block as a seam with the given rotation turns the grid.
    pub fn rotate(&mut self, turn: Rotation)
        ensures
            *final(self) == old(self).turned_by(turn),
    {
        match turn {
            Rotation::Identity => {},
            Rotation::Clockwise => self.rotate_cw(),
            Rotation::Half => self.rotate_180(),
            Rotation::CounterClockwise => self.rotate_ccw(),
        }
    }

    /// The offsets from the droplet's cell to the upper left, upper right,
    /// lower left and lower right cell of the block.
    pub fn sample_offsets(self) -> (offsets: [(isize, isize); 4])
        ensures
            forall|i: int|
                0 <= i < 4 ==> (#[trigger] offsets[i]).0 == self.block()[i].0 && offsets[i].1
                    == self.block()[i].1,
    {
        match self {
            ErosionKernelOrigin::NW => [(0, 0), (1, 0), (0, 1), (1, 1)],
            ErosionKernelOrigin::NE => [(-1, 0), (0, 0), (-1, 1), (0, 1)],
            ErosionKernelOrigin::SW => [(0, -1), (1, -1), (0, 0), (1, 0)],
            ErosionKernelOrigin::SE => [(-1, -1), (0, -1), (-1, 0), (0, 0)],
        }
    }
}

impl Default for ErosionKernelOrigin {
    fn default() -> (origin: ErosionKernelOrigin)
        ensures
            origin == ErosionKernelOrigin::NW,
    {
        ErosionKernelOrigin::NW
    }
}

/// Turning the block twice is turning it by the composed rotation, so a
/// droplet that crosses a seam and comes back has its block as before.
pub proof fn lemma_block_turns_compose(origin: ErosionKernelOrigin, a: Rotation, b: Rotation)
    ensures
        origin.turned_by(a).turned_by(b) == origin.turned_by(a.followed_by(b)),
        origin.turned_by(a).turned_by(a.reversed()) == origin,
        origin.turned_by(Rotation::Identity) == origin,
{
}

} // verus!

//! The lattices of the fractal noise.
//!
//! Each octave lays a coarse lattice of `grid_width` by `grid_width` squares
//! over every face and puts a pseudo-random gradient on every lattice point.
//! For the noise to be continuous over the whole cube, two faces must see the
//! same gradient on a lattice point they share. So every lattice point gets
//! an index in one plane that all faces share, and a basis that tells how
//! the gradient stored under that index is turned into the face's own grid.

use vstd::prelude::*;
use vstd::arithmetic::power2::pow2;
use crate::rng::Seed;
use crate::rotation::Rotation;
use crate::side::Side;
use crate::topology::{seam, unfold, Edge};

verus! {

/// How a face sees the gradient of a lattice point.
#[derive(Debug, Clone, Copy, PartialEq, Eq, Structural)]
pub enum Basis {
    /// The gradient counts as zero. Lattice points at the corners of a face
    /// are shared by three faces, whose grids cannot all agree there.
    Zero,
    /// The gradient is turned by the rotation.
    Turned(Rotation),
}

/// A lattice point as the noise sees it.
#[derive(Debug, Clone, Copy, PartialEq, Eq, Structural)]
pub struct LatticePoint {
    /// first coordinate of the index under which the gradient of the point is
    /// stored
    pub x: i32,
    /// second coordinate of that index
    pub y: i32,
    /// how the stored gradient is turned into the grid of the face
    pub basis: Basis,
}

/// Mathematical value of a [`LatticePoint`].
pub ghost struct LatticeSpot {
    pub x: int,
    pub y: int,
    pub basis: Basis,
}

impl View for LatticePoint {
    type V = LatticeSpot;

    open spec fn view(&self) -> LatticeSpot {
        LatticeSpot { x: self.x as int, y: self.y as int, basis: self.basis }
    }
}

impl Basis {
    /// The images of the unit vectors `(1, 0)` and `(0, 1)`: the columns of
    /// the basis as a matrix.
    pub open spec fn axes(self) -> ((int, int), (int, int)) {
        match self {
            Basis::Zero => ((0, 0), (0, 0)),
            Basis::Turned(turn) => (turn.turn(1, 0), turn.turn(0, 1)),
        }
    }

    /// The columns of the basis as a matrix: the images of the unit vectors
    /// `(1, 0)` and `(0, 1)`.
    pub fn columns(self) -> (c: ((i8, i8), (i8, i8)))
        ensures
            (((c.0).0 as int, (c.0).1 as int), ((c.1).0 as int, (c.1).1 as int)) == self.axes(),
    {
        match self {
            Basis::Zero => ((0, 0), (0, 0)),
            Basis::Turned(Rotation::Identity) => ((1, 0), (0, 1)),
            Basis::Turned(Rotation::Clockwise) => ((0, 1), (-1, 0)),
            Basis::Turned(Rotation::Half) => ((-1, 0), (0, -1)),
            Basis::Turned(Rotation::CounterClockwise) => ((0, -1), (1, 0)),
        }
    }
}

/// Where the lattice of a face lies in the shared plane, in units of the
/// grid width: the faces L, B, R, F side by side, U above B and D below it.
pub open spec fn plane_offset(side: Side) -> (int, int) {
    match side {
        Side::L => (0, 0),
        Side::B => (1, 0),
        Side::R => (2, 0),
        Side::F => (3, 0),
        Side::U => (1, -1),
        Side::D => (1, 1),
    }
}

/// The lattice point `(ix, iy)` of `side` as the noise sees it.
///
/// A point inside the face, or on an edge where the face lies next to its
/// neighbour in the shared plane, has its own place in the plane. A point on
/// one of the other edges takes the index of the same point on the
/// neighbouring face, and turns the gradient stored there into its own grid.
/// The four corners of a face count as zero.
pub open spec fn lattice_spot(side: Side, ix: int, iy: int, grid_width: int) -> LatticeSpot {
    let g = grid_width;
    let (ox, oy) = plane_offset(side);
    let own = LatticeSpot {
        x: ix + ox * g,
        y: iy + oy * g,
        basis: Basis::Turned(Rotation::Identity),
    };
    if (ix == 0 || ix == g) && (iy == 0 || iy == g) {
        LatticeSpot { x: own.x, y: own.y, basis: Basis::Zero }
    } else if ix == 0 {
        match side {
            Side::U => LatticeSpot { x: iy, y: 0, basis: Basis::Turned(Rotation::Clockwise) },
            Side::D => LatticeSpot {
                x: g - iy,
                y: g,
                basis: Basis::Turned(Rotation::CounterClockwise),
            },
            _ => own,
        }
    } else if ix == g {
        match side {
            Side::F => LatticeSpot { x: 0, y: iy, basis: Basis::Turned(Rotation::Identity) },
            Side::U => LatticeSpot {
                x: g - iy + 2 * g,
                y: 0,
                basis: Basis::Turned(Rotation::CounterClockwise),
            },
            Side::D => LatticeSpot {
                x: iy + 2 * g,
                y: g,
                basis: Basis::Turned(Rotation::Clockwise),
            },
            _ => own,
        }
    } else if iy == 0 {
        match side {
            Side::U => LatticeSpot { x: g - ix + 3 * g, y: 0, basis: Basis::Turned(Rotation::Half) },
            _ => own,
        }
    } else if iy == g {
        match side {
            Side::D => LatticeSpot { x: g - ix + 3 * g, y: g, basis: Basis::Turned(Rotation::Half) },
            _ => own,
        }
    } else {
        own
    }
}

/// The 32 bits that the lattice index `(ix, iy)` is mixed to under `seed`:
/// each coordinate is xor-ed with one 32 bit word of the seed, and the two
/// are then stirred into each other by three rounds of multiplying and
/// rotating by half a word.
pub open spec fn gradient_bits(ix: i32, iy: i32, seed: u128) -> u32 {
    let seed_a = (seed & 0xFFFF_FFFF) as u32;
    let seed_b = ((seed >> 32) & 0xFFFF_FFFF) as u32;
    let a0 = (ix as u32) ^ seed_a;
    let b0 = (iy as u32) ^ seed_b;
    let a1 = a0.wrapping_mul(3284157443);
    let b1 = b0 ^ ((a1 << 16) | (a1 >> 16));
    let b2 = b1.wrapping_mul(1911520717);
    let a2 = a1 ^ ((b2 << 16) | (b2 >> 16));
    a2.wrapping_mul(2048419325)
}

/// The direction of the pseudo-random unit gradient of the lattice index
/// `(ix, iy)`, as a fraction of the full turn: the result `r` stands for the
/// angle `r / 2^32` of a turn, and the gradient is the unit vector at that
/// angle.
pub fn random_gradient(ix: i32, iy: i32, seed: Seed) -> (turn: u32)
    ensures
        turn == gradient_bits(ix, iy, seed.0),
{
    let seed_a: u32 = (seed.0 & 0xFFFF_FFFF) as u32;
    let seed_b: u32 = ((seed.0 >> 32) & 0xFFFF_FFFF) as u32;
    let a: u32 = (ix as u32) ^ seed_a;
    let b: u32 = (iy as u32) ^ seed_b;
    let a: u32 = a.wrapping_mul(3284157443);
    let b: u32 = b ^ ((a << 16) | (a >> 16));
    let b: u32 = b.wrapping_mul(1911520717);
    let a: u32 = a ^ ((b << 16) | (b >> 16));
    a.wrapping_mul(2048419325)
}

/// The lattice point `(ix, iy)` of `side` as the noise sees it: the index
/// under which its gradient is stored, and how the face turns that gradient.
pub fn apply_net(side: Side, ix: i32, iy: i32, grid_width: i32) -> (point: LatticePoint)
    requires
        0 < grid_width,
        4 * grid_width <= i32::MAX,
        0 <= ix <= grid_width,
        0 <= iy <= grid_width,
    ensures
        point@ == lattice_spot(side, ix as int, iy as int, grid_width as int),
{
    let g = grid_width;
    let (ox, oy): (i32, i32) = match side {
        Side::L => (0, 0),
        Side::B => (1, 0),
        Side::R => (2, 0),
        Side::F => (3, 0),
        Side::U => (1, -1),
        Side::D => (1, 1),
    };
    let own = LatticePoint {
        x: ix + ox * g, y: iy + oy * g,
        basis: Basis::Turned(Rotation::Identity),
    };
    if (ix == 0 || ix == g) && (iy == 0 || iy == g) {
        LatticePoint { x: own.x, y: own.y, basis: Basis::Zero }
    } else if ix == 0 {
        match side {
            Side::U => LatticePoint { x: iy, y: 0, basis: Basis::Turned(Rotation::Clockwise) },
            Side::D => LatticePoint {
                x: g - iy, y: g,
                basis: Basis::Turned(Rotation::CounterClockwise),
            },
            _ => own,
        }
    } else if ix == g {
        match side {
            Side::F => LatticePoint { x: 0, y: iy, basis: Basis::Turned(Rotation::Identity) },
            Side::U => LatticePoint {
                x: g - iy + 2 * g, y: 0,
                basis: Basis::Turned(Rotation::CounterClockwise),
            },
            Side::D => LatticePoint {
                x: iy + 2 * g, y: g,
                basis: Basis::Turned(Rotation::Clockwise),
            },
            _ => own,
        }
    } else if iy == 0 {
        match side {
            Side::U => LatticePoint {
                x: g - ix + 3 * g, y: 0,
                basis: Basis::Turned(Rotation::Half),
            },
            _ => own,
        }
    } else if iy == g {
        match side {
            Side::D => LatticePoint {
                x: g - ix + 3 * g, y: g,
                basis: Basis::Turned(Rotation::Half),
            },
            _ => own,
        }
    } else {
        own
    }
}

/// `widths` holds the grid widths of the octaves of a face that is `width`
/// cells wide: the powers of two from 2 on that are smaller than `width`, in
/// rising order, and all of them.
pub open spec fn are_octaves(widths: Seq<usize>, width: int) -> bool {
    &&& forall|layer: int|
        0 <= layer < widths.len() ==> #[trigger] widths[layer] == pow2((layer + 1) as nat)
            && widths[layer] < width
    &&& pow2((widths.len() + 1) as nat) >= width
}

/// A face has one list of octaves.
pub proof fn lemma_octaves_unique(a: Seq<usize>, b: Seq<usize>, width: int)
    requires
        are_octaves(a, width),
        are_octaves(b, width),
    ensures
        a == b,
{
    if a.len() < b.len() {
        assert(b[a.len() as int] == pow2((a.len() + 1) as nat));
    }
    if b.len() < a.len() {
        assert(a[b.len() as int] == pow2((b.len() + 1) as nat));
    }
    assert(a =~= b);
}

/// The grid widths of the octaves of a face that is `width` cells wide: the
/// powers of two from 2 on that are smaller than `width`, in rising order.
pub fn octave_widths(width: usize) -> (widths: Vec<usize>)
    ensures
        are_octaves(widths@, width as int),
{
    let mut widths: Vec<usize> = Vec::new();
    let mut grid_width: usize = 2;
    proof {
        vstd::arithmetic::power2::lemma2_to64();
    }
    while grid_width < width
        invariant
            grid_width >= 2,
            grid_width == pow2((widths@.len() + 1) as nat),
            forall|layer: int|
                0 <= layer < widths@.len() ==> #[trigger] widths@[layer] == pow2(
                    (layer + 1) as nat,
                ) && widths@[layer] < width,
        decreases width - grid_width,
    {
        widths.push(grid_width);
        proof {
            vstd::arithmetic::power2::lemma_pow2_unfold((widths@.len() + 1) as nat);
        }
        if grid_width >= width - grid_width {
            return widths;
        }
        grid_width = grid_width * 2;
    }
    widths
}

/// The number that the weight of an octave is divided by: one more than the
/// distance of its layer from the main layer.
pub fn octave_divisor(layer: usize, main_layer: usize) -> (divisor: usize)
    requires
        layer < usize::MAX,
        main_layer < usize::MAX,
    ensures
        divisor == vstd::math::abs(layer - main_layer) + 1,
{
    if layer >= main_layer {
        layer - main_layer + 1
    } else {
        main_layer - layer + 1
    }
}

/// The square of the coarse lattice in which the centre of cell `i` lies,
/// along one axis: the whole part of `(i + 1/2) * grid_width / width`.
pub fn lattice_square(i: usize, width: usize, grid_width: usize) -> (m: usize)
    requires
        i < width,
        0 < grid_width <= width,
        width * width <= usize::MAX,
    ensures
        m == ((2 * i + 1) * grid_width) / (2 * width),
        m < grid_width,
{
    proof {
        assert(0 <= (2 * i + 1) * grid_width < grid_width * (2 * width) && grid_width * (2
            * width) <= 2 * (width * width)) by (nonlinear_arith)
            requires
                0 <= 2 * i + 1 < 2 * width,
                0 < grid_width <= width,
        ;
    }
    let top: u128 = (2 * (i as u128) + 1) * (grid_width as u128);
    let bottom: u128 = 2 * (width as u128);
    let m = top / bottom;
    proof {
        vstd::arithmetic::div_mod::lemma_div_by_multiple_is_strongly_ordered(
            top as int,
            grid_width * (2 * width),
            grid_width as int,
            2 * width,
        );
        vstd::arithmetic::div_mod::lemma_div_by_multiple(grid_width as int, 2 * width);
        assert(grid_width * (2 * width) == (2 * width) * grid_width) by (nonlinear_arith);
    }
    m as usize
}

/// Seam continuity of the indices: a lattice point on an edge of a face,
/// corners apart, is stored under the same index as the point of the
/// neighbouring face that it coincides with. The two bases differ by the
/// rotation of the seam, so that both faces see the same gradient, each in
/// its own grid.
pub proof fn lemma_seam_shares_gradient(side: Side, edge: Edge, along: int, grid_width: int)
    requires
        0 < along < grid_width,
    ensures
        ({
            let g = grid_width;
            let (ix, iy) = match edge {
                Edge::Left => (0, along),
                Edge::Right => (g, along),
                Edge::Up => (along, 0),
                Edge::Down => (along, g),
            };
            let beyond = seam(side, edge);
            let (p, q) = unfold(side, edge, 2 * ix - g, 2 * iy - g, g);
            let here = lattice_spot(side, ix, iy, g);
            let there = lattice_spot(beyond.side, (p + g) / 2, (q + g) / 2, g);
            &&& here.x == there.x
            &&& here.y == there.y
            &&& here.basis matches Basis::Turned(mine)
            &&& there.basis matches Basis::Turned(theirs)
            &&& mine.followed_by(beyond.turn) == theirs
        }),
{
}

} // verus!

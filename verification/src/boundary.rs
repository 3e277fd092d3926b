//! Finding, for a cell, the nearest cell of another continent.

use vstd::prelude::*;
use crate::grid::{ContinentPixel, Cube};
use crate::kernel::{entries_sound, lemma_smaller_square, within_radius, KernelEntry};
use crate::topology::{at_corner, cross_edge, landing, within_reach};

verus! {

/// What lies at one offset from a cell.
#[derive(Debug, Clone, Copy, PartialEq, Eq, Structural)]
pub enum Probe {
    /// Nothing to look at: the offset is zero, or it leads diagonally across
    /// a corner of the cube, where no cell is.
    Skipped,
    /// A cell of the same continent.
    Same,
    /// A cell of another continent.
    Foreign(ContinentPixel),
    /// The offset leads more than a face width beyond the edge of the face,
    /// where the seams say nothing.
    Unreachable,
}

/// The nearest cell of another continent.
#[derive(Debug, Clone, Copy, PartialEq, Eq, Structural)]
pub struct Boundary {
    /// position in the kernel of the offset that led to the cell
    pub kernel_index: usize,
    /// that offset
    pub entry: KernelEntry,
    /// the cell found
    pub pixel: ContinentPixel,
    /// the continent the cell belongs to
    pub continent_index: usize,
}

/// An offset of the kernel that leads nowhere.
#[derive(Debug, Clone, Copy, PartialEq, Eq, Structural)]
pub struct Unreachable {
    /// position of the offset in the kernel
    pub kernel_index: usize,
    /// the offset
    pub entry: KernelEntry,
}

/// What lies at the offset `entry` from `pixel`.
pub open spec fn probe<H: Copy>(cube: Cube<H>, pixel: ContinentPixel, entry: KernelEntry) -> Probe {
    let width = cube.width();
    let x = pixel.ix + entry.dx;
    let y = pixel.iy + entry.dy;
    if entry.dx == 0 && entry.dy == 0 {
        Probe::Skipped
    } else if at_corner(x, y, width) {
        Probe::Skipped
    } else if !within_reach(x, y, width) {
        Probe::Unreachable
    } else {
        let to = landing(pixel.side, x, y, width);
        let found = ContinentPixel { side: to.side, ix: to.x as usize, iy: to.y as usize };
        if cube.at(found).continent_index == cube.at(pixel).continent_index {
            Probe::Same
        } else {
            Probe::Foreign(found)
        }
    }
}

/// Nothing to find at this offset: the search goes on.
pub open spec fn passes(probe: Probe) -> bool {
    probe == Probe::Skipped || probe == Probe::Same
}

/// Looks at the cell at the offset `entry` from `pixel`.
pub fn probe_entry<H: Copy>(cube: &Cube<H>, pixel: ContinentPixel, entry: KernelEntry) -> (found:
    Probe)
    requires
        cube.wf(),
        pixel.valid(cube.width()),
    ensures
        found == probe(*cube, pixel, entry),
        found matches Probe::Foreign(other) ==> other.valid(cube.width()),
{
    let width = cube.side_width();
    if entry.dx == 0 && entry.dy == 0 {
        return Probe::Skipped;
    }
    let wide = width as i128;
    let x: i128 = pixel.ix as i128 + entry.dx as i128;
    let y: i128 = pixel.iy as i128 + entry.dy as i128;
    let x_in = 0 <= x && x < wide;
    let y_in = 0 <= y && y < wide;
    if !x_in && !y_in {
        return Probe::Skipped;
    }
    if x < -wide || x >= 2 * wide || y < -wide || y >= 2 * wide {
        return Probe::Unreachable;
    }
    proof {
        assert(cube.face(crate::side::Side::L).wf());
        assert(2 * width <= isize::MAX) by (nonlinear_arith)
            requires
                width * width <= usize::MAX,
                usize::MAX <= 2 * isize::MAX + 1,
                isize::MAX >= 7,
        ;
    }
    let here = cube.get(pixel.side, pixel.ix, pixel.iy);
    match cross_edge(pixel.side, x as isize, y as isize, width) {
        Ok(to) => {
            let there = cube.get(to.side, to.x, to.y);
            if there.continent_index == here.continent_index {
                Probe::Same
            } else {
                Probe::Foreign(ContinentPixel { side: to.side, ix: to.x, iy: to.y })
            }
        },
        Err(_) => {
            proof {
                assert(false);
            }
            Probe::Unreachable
        },
    }
}

/// Searches the kernel, in its order, for the first offset from `pixel` that
/// leads to a cell of another continent.
///
/// Zero offsets, offsets across a corner of the cube, and offsets to cells
/// of the same continent are passed over. The search ends at the first
/// offset that finds a foreign cell, which is returned, or that leads beyond
/// the reach of the seams, which is the error. If the kernel holds neither,
/// the result is `None`.
pub fn find_boundary<H: Copy>(cube: &Cube<H>, kernel: &Vec<KernelEntry>, pixel: ContinentPixel) -> (r:
    Result<Option<Boundary>, Unreachable>)
    requires
        cube.wf(),
        pixel.valid(cube.width()),
    ensures
        match r {
            Ok(None) => forall|i: int|
                0 <= i < kernel@.len() ==> passes(#[trigger] probe(*cube, pixel, kernel@[i])),
            Ok(Some(b)) => {
                &&& b.kernel_index < kernel@.len()
                &&& b.entry == kernel@[b.kernel_index as int]
                &&& probe(*cube, pixel, b.entry) == Probe::Foreign(b.pixel)
                &&& b.pixel.valid(cube.width())
                &&& b.continent_index == cube.at(b.pixel).continent_index
                &&& forall|i: int|
                    0 <= i < b.kernel_index ==> passes(#[trigger] probe(*cube, pixel, kernel@[i]))
            },
            Err(e) => {
                &&& e.kernel_index < kernel@.len()
                &&& e.entry == kernel@[e.kernel_index as int]
                &&& probe(*cube, pixel, e.entry) == Probe::Unreachable
                &&& forall|i: int|
                    0 <= i < e.kernel_index ==> passes(#[trigger] probe(*cube, pixel, kernel@[i]))
            },
        },
{
    let mut i: usize = 0;
    while i < kernel.len()
        invariant
            cube.wf(),
            pixel.valid(cube.width()),
            i <= kernel@.len(),
            forall|k: int| 0 <= k < i ==> passes(#[trigger] probe(*cube, pixel, kernel@[k])),
        decreases kernel@.len() - i,
    {
        let entry = kernel[i];
        match probe_entry(cube, pixel, entry) {
            Probe::Skipped => {},
            Probe::Same => {},
            Probe::Foreign(other) => {
                let there = cube.get(other.side, other.ix, other.iy);
                return Ok(
                    Some(
                        Boundary {
                            kernel_index: i,
                            entry,
                            pixel: other,
                            continent_index: there.continent_index,
                        },
                    ),
                );
            },
            Probe::Unreachable => {
                return Err(Unreachable { kernel_index: i, entry });
            },
        }
        i += 1;
    }
    Ok(None)
}

/// A kernel whose radius is not larger than the faces are wide never leads
/// beyond the reach of the seams: the search with it cannot fail.
pub proof fn lemma_kernel_within_reach<H: Copy>(
    cube: Cube<H>,
    kernel: Seq<KernelEntry>,
    radius: int,
    pixel: ContinentPixel,
)
    requires
        entries_sound(kernel, radius),
        0 <= radius <= cube.width(),
        pixel.valid(cube.width()),
    ensures
        forall|i: int|
            0 <= i < kernel.len() ==> #[trigger] probe(cube, pixel, kernel[i]) != Probe::Unreachable,
{
    assert forall|i: int| 0 <= i < kernel.len() implies #[trigger] probe(cube, pixel, kernel[i])
        != Probe::Unreachable by {
        let e = kernel[i];
        assert(within_radius(e.dx as int, e.dy as int, radius));
        assert(e.dx * e.dx >= 0 && e.dy * e.dy >= 0) by (nonlinear_arith);
        lemma_smaller_square(e.dx as int, radius);
        lemma_smaller_square(e.dy as int, radius);
    }
}

} // verus!

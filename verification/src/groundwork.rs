//! Everything about a planet that is settled before the first height is
//! computed: the plates, the kernel for the search of their boundaries, the
//! octaves of the noise, and the order in which the droplets fall.

use vstd::prelude::*;
use crate::boundary::{lemma_kernel_within_reach, probe, Probe};
use crate::config::{lemma_fits, ConfigError, Layout};
use crate::grid::{cell_count, ContinentPixel};
use crate::growth::{covered, growth_of};
use crate::kernel::{generate_kernel, is_kernel, lemma_kernel_unique, KernelEntry};
use crate::noise::{are_octaves, lemma_octaves_unique, octave_widths};
use crate::plates::{form_plates, lemma_plates_are_determined, made_from, plates_from, Plates};
use crate::region::contiguous;
use crate::rng::{Rng, RngState};
use crate::stride::{
    coprime,
    erosion_stride,
    golden_multiple,
    lemma_golden_multiple_unique,
    lemma_nearest_coprime_unique,
    nearest_coprime,
};
use vstd::arithmetic::mul::lemma_mul_upper_bound;

verus! {

/// What is settled before the first height is computed.
pub struct Groundwork<H> {
    /// the cube, divided among the continents
    pub plates: Plates<H>,
    /// the offsets at which the boundary of a plate is looked for, nearest
    /// first
    pub kernel: Vec<KernelEntry>,
    /// the grid widths of the octaves of the noise
    pub octaves: Vec<usize>,
    /// the cell, in the order of all cells of the cube, before the one on
    /// which the first droplet falls
    pub first_drop: usize,
    /// how many cells further each droplet falls than the one before it
    pub stride: usize,
}

/// The state in which making the plates leaves a generator.
pub open spec fn state_after_plates(before: RngState, width: usize, count: nat) -> RngState {
    plates_from(before, width, count).2.state
}

/// `work` is the groundwork for the planet of `layout`, as a generator in
/// the state `before` lays it.
pub open spec fn laid_from<H: Copy>(
    work: Groundwork<H>,
    before: RngState,
    layout: Layout,
    height: H,
) -> bool {
    let width = layout.width;
    let cells = cell_count(width as int);
    let count = layout.continent_count as nat;
    let drawn = state_after_plates(before, width, count);
    &&& made_from(work.plates, drawn, before, width, count)
    &&& work.plates.cube.wf()
    &&& forall|pixel: ContinentPixel|
        pixel.valid(width as int) ==> (#[trigger] work.plates.cube.at(pixel)).height == height
    &&& covered(work.plates.cube, count as int)
    &&& contiguous(work.plates.cube, work.plates.continents@)
    &&& is_kernel(work.kernel@, layout.kernel_radius as int)
    &&& are_octaves(work.octaves@, width as int)
    &&& work.first_drop == drawn.output_u64() % (cells as u64)
    &&& coprime(work.stride as int, cells)
    &&& exists|ideal: int|
        #[trigger] golden_multiple(ideal, cells) && nearest_coprime(work.stride as int, ideal, cells)
}

/// Checks the configuration and, if it can be made, lays the groundwork of
/// the planet.
///
/// A configuration that cannot be made is turned down before anything is
/// drawn from the generator. Otherwise the plates are formed; the kernel,
/// the octaves and the stride are computed; and the place of the first
/// droplet is drawn. This is all that is ever drawn: the generator is left
/// two draws behind the state in which the plates left it.
pub fn lay_groundwork<H: Copy>(layout: &Layout, rng: &mut Rng, height: H) -> (r: Result<
    Groundwork<H>,
    ConfigError,
>)
    ensures
        match r {
            Ok(work) => {
                &&& layout.acceptable()
                &&& laid_from(work, old(rng)@, *layout, height)
                &&& final(rng)@ == state_after_plates(
                    old(rng)@,
                    layout.width,
                    layout.continent_count as nat,
                ).advanced_by(2)
            },
            Err(e) => layout.verdict() == Err::<(), ConfigError>(e) && final(rng)@ == old(rng)@,
        },
{
    match layout.validate() {
        Err(e) => {
            return Err(e);
        },
        Ok(_) => {},
    }
    let width = layout.width;
    proof {
        lemma_fits(width as int);
        lemma_mul_upper_bound(
            layout.kernel_radius as int,
            width as int,
            layout.kernel_radius as int,
            width as int,
        );
    }
    let cells = 6 * (width * width);
    let plates = form_plates(rng, width, layout.continent_count, height);
    let ghost drawn = rng@;
    proof {
        let count = layout.continent_count as nat;
        assert(growth_of(plates.cube, plates.continents@, drawn).state == drawn);
        assert(drawn == state_after_plates(old(rng)@, width, count));
    }
    let kernel = generate_kernel(layout.kernel_radius);
    let octaves = octave_widths(width);
    let stride = erosion_stride(cells);
    let first_drop = rng.next_index(cells);
    Ok(Groundwork { plates, kernel, octaves, first_drop, stride })
}

/// On the groundwork of a planet the search for the boundary of a plate
/// cannot fail: no offset of the kernel leads beyond the reach of the
/// seams.
pub proof fn lemma_search_stays_in_reach<H: Copy>(
    work: Groundwork<H>,
    before: RngState,
    layout: Layout,
    height: H,
    pixel: ContinentPixel,
)
    requires
        layout.acceptable(),
        laid_from(work, before, layout, height),
        pixel.valid(layout.width as int),
    ensures
        forall|i: int|
            0 <= i < work.kernel@.len() ==> #[trigger] probe(work.plates.cube, pixel, work.kernel@[i])
                != Probe::Unreachable,
{
    lemma_kernel_within_reach(
        work.plates.cube,
        work.kernel@,
        layout.kernel_radius as int,
        pixel,
    );
}

/// The groundwork is determined by the state of the generator, the layout
/// and the height: two groundworks laid from the same three are alike. They
/// hold the same kernel, the same octaves, the same first droplet and the
/// same stride; the same pairs of numbers for the axes; continents that
/// start from the same cells; and in every cell of the cube the same height
/// and the same continent.
pub proof fn lemma_groundwork_is_determined<H: Copy>(
    before: RngState,
    layout: Layout,
    height: H,
    first: Groundwork<H>,
    second: Groundwork<H>,
)
    requires
        laid_from(first, before, layout, height),
        laid_from(second, before, layout, height),
    ensures
        first.kernel@ == second.kernel@,
        first.octaves@ == second.octaves@,
        first.first_drop == second.first_drop,
        first.stride == second.stride,
        first.plates.axis_draws@ == second.plates.axis_draws@,
        first.plates.continents@.len() == second.plates.continents@.len(),
        forall|i: int|
            0 <= i < layout.continent_count ==> (#[trigger] first.plates.continents@[i]).origin
                == second.plates.continents@[i].origin,
        forall|pixel: ContinentPixel|
            pixel.valid(layout.width as int) ==> (#[trigger] first.plates.cube.at(pixel)).height
                == second.plates.cube.at(pixel).height && first.plates.cube.at(
                pixel,
            ).continent_index == second.plates.cube.at(pixel).continent_index,
{
    let width = layout.width;
    let cells = cell_count(width as int);
    let count = layout.continent_count as nat;
    let drawn = state_after_plates(before, width, count);
    lemma_plates_are_determined(before, width, count, first.plates, drawn, second.plates, drawn);
    lemma_kernel_unique(first.kernel@, second.kernel@, layout.kernel_radius as int);
    lemma_octaves_unique(first.octaves@, second.octaves@, width as int);
    let ideal = choose|ideal: int|
        #[trigger] golden_multiple(ideal, cells) && nearest_coprime(
            first.stride as int,
            ideal,
            cells,
        );
    let other = choose|other: int|
        #[trigger] golden_multiple(other, cells) && nearest_coprime(
            second.stride as int,
            other,
            cells,
        );
    lemma_golden_multiple_unique(ideal, other, cells);
    lemma_nearest_coprime_unique(first.stride as int, second.stride as int, ideal, cells);
}

} // verus!

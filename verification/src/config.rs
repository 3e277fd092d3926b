//! Which planets can be made: the checks on a configuration that come
//! before any work is done.

use vstd::prelude::*;
use vstd::arithmetic::mul::{lemma_mul_inequality, lemma_mul_is_commutative, lemma_mul_upper_bound};
use crate::grid::cell_count;
use crate::sphere::MAX_SPHERE_WIDTH;

verus! {

/// The whole-number part of a configuration.
#[derive(Debug, Clone, Copy, PartialEq, Eq, Structural)]
pub struct Layout {
    /// number of cells along the edge of a face
    pub width: usize,
    /// number of continents
    pub continent_count: usize,
    /// how far, in cells, the search for a plate boundary reaches
    pub kernel_radius: usize,
    /// the octave of the noise that counts most
    pub fractal_main_layer: usize,
}

/// Why a configuration is turned down.
#[derive(Debug, Clone, Copy, PartialEq, Eq, Structural)]
pub enum ConfigError {
    /// a face must be at least two cells wide
    WidthTooSmall,
    /// the cube has more cells than can be counted, or than the projection
    /// onto the sphere can be computed for
    WidthTooLarge,
    /// there must be at least one continent
    NoContinents,
    /// there are more continents than cells
    TooManyContinents,
    /// the search for a boundary would reach beyond the neighbouring faces
    KernelTooWide,
    /// the main octave is beyond every number of octaves
    MainLayerTooHigh,
}

/// The cube is small enough: the projection can be computed for its cells,
/// and three times the number of its cells can be counted.
pub open spec fn fits(width: int) -> bool {
    width <= MAX_SPHERE_WIDTH && 3 * cell_count(width) <= usize::MAX
}

impl Layout {
    /// What keeps the planet from being made, if anything; of several
    /// reasons the first in the order of [`ConfigError`].
    pub open spec fn verdict(self) -> Result<(), ConfigError> {
        if self.width < 2 {
            Err(ConfigError::WidthTooSmall)
        } else if !fits(self.width as int) {
            Err(ConfigError::WidthTooLarge)
        } else if self.continent_count == 0 {
            Err(ConfigError::NoContinents)
        } else if self.continent_count > cell_count(self.width as int) {
            Err(ConfigError::TooManyContinents)
        } else if self.kernel_radius > self.width {
            Err(ConfigError::KernelTooWide)
        } else if self.fractal_main_layer == usize::MAX {
            Err(ConfigError::MainLayerTooHigh)
        } else {
            Ok(())
        }
    }

    /// The planet can be made.
    pub open spec fn acceptable(self) -> bool {
        &&& 2 <= self.width
        &&& fits(self.width as int)
        &&& 1 <= self.continent_count <= cell_count(self.width as int)
        &&& self.kernel_radius <= self.width
        &&& self.fractal_main_layer < usize::MAX
    }

    /// Tells whether the planet can be made, and if not, why not.
    pub fn validate(&self) -> (r: Result<(), ConfigError>)
        ensures
            r == self.verdict(),
            r.is_ok() <==> self.acceptable(),
    {
        if self.width < 2 {
            return Err(ConfigError::WidthTooSmall);
        }
        if self.width > MAX_SPHERE_WIDTH {
            return Err(ConfigError::WidthTooLarge);
        }
        proof {
            lemma_mul_upper_bound(self.width as int, 1048576, self.width as int, 1048576);
        }
        let wide = self.width as u128;
        let cells: u128 = 6 * (wide * wide);
        if 3 * cells > usize::MAX as u128 {
            return Err(ConfigError::WidthTooLarge);
        }
        if self.continent_count == 0 {
            return Err(ConfigError::NoContinents);
        }
        if self.continent_count as u128 > cells {
            return Err(ConfigError::TooManyContinents);
        }
        if self.kernel_radius > self.width {
            return Err(ConfigError::KernelTooWide);
        }
        if self.fractal_main_layer == usize::MAX {
            return Err(ConfigError::MainLayerTooHigh);
        }
        Ok(())
    }
}

/// On a cube that is small enough every count stays within the limits of
/// the machine: the cells can be counted, a face width fits a signed
/// number, its square an unsigned one, and five times the square of the
/// number of cells fits into 128 bits.
pub proof fn lemma_fits(width: int)
    requires
        0 <= width,
        fits(width),
    ensures
        cell_count(width) <= usize::MAX,
        width * width <= usize::MAX,
        2 * width <= isize::MAX,
        5 * (cell_count(width) * cell_count(width)) <= u128::MAX,
{
    let cells = cell_count(width);
    lemma_mul_upper_bound(width, 1048576, width, 1048576);
    lemma_mul_upper_bound(cells, 6 * 0x100_0000_0000int, cells, 6 * 0x100_0000_0000int);
    if width > 0 {
        lemma_mul_inequality(1, width, width);
        lemma_mul_is_commutative(1, width);
    }
}

} // verus!

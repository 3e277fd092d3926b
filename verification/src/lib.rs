//! Integer core of a cube-sphere terrain generator.
//!
//! A planet is stored as six square grids, one per face of a cube. This crate
//! holds everything about such a planet that can be said in whole numbers:
//! how the faces join, how continents are seeded and grown, where plate
//! boundaries lie, which lattice points the noise layers share across seams,
//! and in which order erosion droplets are dropped.

pub mod boundary;
pub mod config;
pub mod continent;
pub mod erosion;
pub mod grid;
pub mod groundwork;
pub mod growth;
pub mod kernel;
pub mod noise;
pub mod plates;
pub mod region;
pub mod rng;
pub mod rotation;
pub mod side;
pub mod sphere;
pub mod stride;
pub mod topology;

pub use rotation::Rotation;
pub use side::Side;

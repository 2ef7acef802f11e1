//! Turn engine of a two-player artillery duel on a disk-shaped map.
//!
//! All lengths are fixed-point integers in hundredths of a map unit, and all
//! resource amounts are in billionths of a resource unit, so every rule of the
//! game is decided by exact integer arithmetic.

pub mod error;
pub mod game;
pub mod geometry;
pub mod turn;

pub use error::{ArtilleryError, DistanceLimit};
pub use game::Game;
pub use geometry::Coordinate;

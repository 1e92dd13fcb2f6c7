//! Deterministic procedural planet generator: the verified core.
//!
//! This crate holds the discrete decision logic of a five-stage planet
//! generation pipeline: tectonic regime and crust classification, terrain and
//! glacial class derivation, the glaciation mask, the orographic correction
//! plan, D8 flow fields, stream-network extraction with Strahler orders,
//! drainage-basin partition, geomorphon landform tables, and the realism-score
//! weight tables. Every function here carries a contract checked by Verus.
//!
//! The floating-point stages that surround this logic (spherical geometry,
//! gradient-noise synthesis, erosion arithmetic, metric estimators) live in
//! an ordinary Rust layer on top of this crate.

pub mod basins;
pub mod crust;
pub mod grid;
pub mod flow;
pub mod geomorphons;
pub mod glaciation;
pub mod orographic;
pub mod regime;
pub mod score;
pub mod stream_network;
pub mod terrain;

use vstd::prelude::*;

verus! {

/// Row-major cell index of `(row, col)` in a grid `width` cells wide.
pub open spec fn cell_index(row: int, col: int, width: int) -> int {
    row * width + col
}

} // verus!


//! Tectonic regime classification.
//!
//! Every grid cell is classified into one of five tectonic regimes from its
//! proximity to ridges, subduction arcs and hotspots, and from its crust type.
//! The proximity tests themselves are spherical floating-point geometry and are
//! carried out by the caller; this module holds the verified classification
//! rules and the regime raster.

use vstd::prelude::*;
use crate::crust::CrustType;

verus! {

/// Tectonic regime at a point on the planet surface.
#[derive(Debug, Clone, Copy, PartialEq, Eq, Hash, Structural)]
pub enum TectonicRegime {
    PassiveMargin,
    CratonicShield,
    ActiveCompressional,
    ActiveExtensional,
    VolcanicHotspot,
}

/// A 2D field of tectonic regime classifications, row-major.
pub struct RegimeField {
    pub data: Vec<TectonicRegime>,
    pub width: usize,
    pub height: usize,
}

impl RegimeField {
    /// The raster invariant: one regime tag per cell, full coverage.
    pub open spec fn wf(self) -> bool {
        &&& self.data@.len() == self.width * self.height
        &&& self.width * self.height <= usize::MAX
    }

    /// A fresh field, every cell `CratonicShield`.
    pub fn new(width: usize, height: usize) -> (field: Self)
        requires
            width * height <= usize::MAX,
        ensures
            field.wf(),
            field.width == width,
            field.height == height,
            forall|i: int| 0 <= i < field.data@.len()
                ==> field.data@[i] == TectonicRegime::CratonicShield,
    {
        let n = width * height;
        let mut data: Vec<TectonicRegime> = Vec::new();
        let mut i: usize = 0;
        while i < n
            invariant
                i <= n,
                data@.len() == i,
                forall|k: int| 0 <= k < i ==> data@[k] == TectonicRegime::CratonicShield,
            decreases n - i,
        {
            data.push(TectonicRegime::CratonicShield);
            i = i + 1;
        }
        Self { data, width, height }
    }

    pub fn get(&self, row: usize, col: usize) -> (regime: TectonicRegime)
        requires
            self.wf(),
            row < self.height,
            col < self.width,
        ensures
            regime == self.data@[crate::cell_index(row as int, col as int, self.width as int)],
    {
        proof {
            lemma_cell_index_in_range(row as int, col as int, self.width as int, self.height as int);
        }
        self.data[row * self.width + col]
    }

    pub fn set(&mut self, row: usize, col: usize, regime: TectonicRegime)
        requires
            old(self).wf(),
            row < old(self).height,
            col < old(self).width,
        ensures
            final(self).wf(),
            final(self).width == old(self).width,
            final(self).height == old(self).height,
            final(self).data@ == old(self).data@.update(
                crate::cell_index(row as int, col as int, old(self).width as int),
                regime,
            ),
    {
        proof {
            lemma_cell_index_in_range(row as int, col as int, self.width as int, self.height as int);
        }
        let i = row * self.width + col;
        self.data.set(i, regime);
    }
}

/// A cell index `row * width + col` is within a `width × height` raster.
pub proof fn lemma_cell_index_in_range(row: int, col: int, width: int, height: int)
    requires
        0 <= row < height,
        0 <= col < width,
    ensures
        0 <= crate::cell_index(row, col, width) < width * height,
{
    assert(row * width + col < width * height) by (nonlinear_arith)
        requires 0 <= row < height, 0 <= col < width;
}

/// The regime a cell receives, by priority order (first match wins):
/// near a ridge, near a subduction arc, near a hotspot, then by crust type.
pub open spec fn regime_of(
    near_ridge: bool,
    near_subduction: bool,
    near_hotspot: bool,
    crust: CrustType,
) -> TectonicRegime {
    if near_ridge {
        TectonicRegime::ActiveExtensional
    } else if near_subduction {
        TectonicRegime::ActiveCompressional
    } else if near_hotspot {
        TectonicRegime::VolcanicHotspot
    } else {
        match crust {
            CrustType::Continental => TectonicRegime::CratonicShield,
            CrustType::ActiveMargin => TectonicRegime::ActiveCompressional,
            CrustType::PassiveMargin => TectonicRegime::PassiveMargin,
            CrustType::Oceanic => TectonicRegime::PassiveMargin,
        }
    }
}

/// Classify a single cell from its proximity flags and crust type.
pub fn classify_regime_cell(
    near_ridge: bool,
    near_subduction: bool,
    near_hotspot: bool,
    crust: CrustType,
) -> (regime: TectonicRegime)
    ensures
        regime == regime_of(near_ridge, near_subduction, near_hotspot, crust),
{
    if near_ridge {
        TectonicRegime::ActiveExtensional
    } else if near_subduction {
        TectonicRegime::ActiveCompressional
    } else if near_hotspot {
        TectonicRegime::VolcanicHotspot
    } else {
        match crust {
            CrustType::Continental => TectonicRegime::CratonicShield,
            CrustType::ActiveMargin => TectonicRegime::ActiveCompressional,
            CrustType::PassiveMargin => TectonicRegime::PassiveMargin,
            CrustType::Oceanic => TectonicRegime::PassiveMargin,
        }
    }
}

/// Generate the regime field from per-cell proximity flags and crust types.
///
/// `near_ridge[i]` / `near_subduction[i]` / `near_hotspot[i]` say whether cell
/// `i` lies within the ridge (2°), subduction (3°) and hotspot (2°) influence
/// radii; the caller computes them from the boundary geometry.
pub fn generate_regime_field(
    near_ridge: &Vec<bool>,
    near_subduction: &Vec<bool>,
    near_hotspot: &Vec<bool>,
    crust_field: &Vec<CrustType>,
    width: usize,
    height: usize,
) -> (field: RegimeField)
    requires
        width * height <= usize::MAX,
        near_ridge@.len() == width * height,
        near_subduction@.len() == width * height,
        near_hotspot@.len() == width * height,
        crust_field@.len() == width * height,
    ensures
        field.wf(),
        field.width == width,
        field.height == height,
        forall|i: int| 0 <= i < field.data@.len()
            ==> field.data@[i] == regime_of(
                near_ridge@[i],
                near_subduction@[i],
                near_hotspot@[i],
                crust_field@[i],
            ),
{
    let n = width * height;
    let mut data: Vec<TectonicRegime> = Vec::new();
    let mut i: usize = 0;
    while i < n
        invariant
            i <= n,
            n == width * height,
            near_ridge@.len() == n,
            near_subduction@.len() == n,
            near_hotspot@.len() == n,
            crust_field@.len() == n,
            data@.len() == i,
            forall|k: int| 0 <= k < i ==> data@[k] == regime_of(
                near_ridge@[k],
                near_subduction@[k],
                near_hotspot@[k],
                crust_field@[k],
            ),
        decreases n - i,
    {
        let regime = classify_regime_cell(
            near_ridge[i],
            near_subduction[i],
            near_hotspot[i],
            crust_field[i],
        );
        data.push(regime);
        i = i + 1;
    }
    RegimeField { data, width, height }
}

/// The wire encoding of a regime tag used by the result record.
pub fn regime_to_u8(regime: TectonicRegime) -> (code: u8)
    ensures
        code == (match regime {
            TectonicRegime::PassiveMargin => 0u8,
            TectonicRegime::CratonicShield => 1u8,
            TectonicRegime::ActiveCompressional => 2u8,
            TectonicRegime::ActiveExtensional => 3u8,
            TectonicRegime::VolcanicHotspot => 4u8,
        }),
{
    match regime {
        TectonicRegime::PassiveMargin => 0,
        TectonicRegime::CratonicShield => 1,
        TectonicRegime::ActiveCompressional => 2,
        TectonicRegime::ActiveExtensional => 3,
        TectonicRegime::VolcanicHotspot => 4,
    }
}

} // verus!

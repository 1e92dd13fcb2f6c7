//! Terrain and glacial classes, and the per-class parameter tables.
//!
//! Slider values live in [0, 1]; this module carries them in thousandths
//! (0..=1000), which states every threshold exactly. The caller converts its
//! floating-point sliders once on entry.

use vstd::prelude::*;

verus! {

/// Terrain classification used to select per-class reference distributions.
#[derive(Debug, Clone, Copy, PartialEq, Eq, Hash, Structural)]
pub enum TerrainClass {
    Alpine,
    FluvialHumid,
    FluvialArid,
    Cratonic,
    Coastal,
}

/// Glacial overprint classification.
#[derive(Debug, Clone, Copy, PartialEq, Eq, Structural)]
pub enum GlacialClass {
    Unglaciated,
    Former,
    Active,
}

/// The terrain class the sliders select, by priority order: high mountain
/// prevalence is alpine; low prevalence with low tectonic activity is
/// cratonic; low water abundance is arid fluvial; the rest is humid fluvial.
/// (`Coastal` is reserved for scoring-only reference bands.)
pub open spec fn terrain_class_of(
    mountain_prevalence_milli: u32,
    tectonic_activity_milli: u32,
    water_abundance_milli: u32,
) -> TerrainClass {
    if mountain_prevalence_milli > 650 {
        TerrainClass::Alpine
    } else if mountain_prevalence_milli < 200 && tectonic_activity_milli < 300 {
        TerrainClass::Cratonic
    } else if water_abundance_milli < 300 {
        TerrainClass::FluvialArid
    } else {
        TerrainClass::FluvialHumid
    }
}

/// Derive a representative terrain class from the global sliders
/// (each in thousandths of the unit interval).
pub fn classify_terrain(
    mountain_prevalence_milli: u32,
    tectonic_activity_milli: u32,
    water_abundance_milli: u32,
) -> (class: TerrainClass)
    requires
        mountain_prevalence_milli <= 1000,
        tectonic_activity_milli <= 1000,
        water_abundance_milli <= 1000,
    ensures
        class == terrain_class_of(
            mountain_prevalence_milli,
            tectonic_activity_milli,
            water_abundance_milli,
        ),
{
    if mountain_prevalence_milli > 650 {
        TerrainClass::Alpine
    } else if mountain_prevalence_milli < 200 && tectonic_activity_milli < 300 {
        TerrainClass::Cratonic
    } else if water_abundance_milli < 300 {
        TerrainClass::FluvialArid
    } else {
        TerrainClass::FluvialHumid
    }
}

/// Glacial class straight from the glaciation slider (thousandths):
/// above 0.65 the overprint is active, above 0.25 former, else none.
pub open spec fn glacial_class_of(glaciation_milli: u32) -> GlacialClass {
    if glaciation_milli > 650 {
        GlacialClass::Active
    } else if glaciation_milli > 250 {
        GlacialClass::Former
    } else {
        GlacialClass::Unglaciated
    }
}

/// Slider → glacial class, used both for audit and for generation.
pub fn direct_glacial_class(glaciation_milli: u32) -> (class: GlacialClass)
    requires
        glaciation_milli <= 1000,
    ensures
        class == glacial_class_of(glaciation_milli),
{
    if glaciation_milli > 650 {
        GlacialClass::Active
    } else if glaciation_milli > 250 {
        GlacialClass::Former
    } else {
        GlacialClass::Unglaciated
    }
}

/// Number of mid-ocean ridges for a fragmentation slider (thousandths):
/// `round(2 + 8 · fragmentation)`, which ranges over 2..=10.
pub fn n_ridges_from_fragmentation(fragmentation_milli: u32) -> (n: usize)
    requires
        fragmentation_milli <= 1000,
    ensures
        n == (2000 + 8 * fragmentation_milli + 500) / 1000,
        2 <= n <= 10,
{
    ((2000 + 8 * fragmentation_milli + 500) / 1000) as usize
}

/// Erodibility range (hundredths) the regime maps its noise value into:
/// cratons are hard, passive margins soft, active belts in between.
pub open spec fn erodibility_range_centi_of(regime: crate::regime::TectonicRegime) -> (u32, u32) {
    match regime {
        crate::regime::TectonicRegime::CratonicShield => (5u32, 30u32),
        crate::regime::TectonicRegime::ActiveCompressional => (25u32, 55u32),
        crate::regime::TectonicRegime::ActiveExtensional => (30u32, 60u32),
        crate::regime::TectonicRegime::VolcanicHotspot => (30u32, 60u32),
        crate::regime::TectonicRegime::PassiveMargin => (55u32, 90u32),
    }
}

/// Erodibility range table, as executable values.
pub fn erodibility_range_centi(regime: crate::regime::TectonicRegime) -> (range: (u32, u32))
    ensures
        range == erodibility_range_centi_of(regime),
        range.0 <= range.1,
{
    match regime {
        crate::regime::TectonicRegime::CratonicShield => (5, 30),
        crate::regime::TectonicRegime::ActiveCompressional => (25, 55),
        crate::regime::TectonicRegime::ActiveExtensional => (30, 60),
        crate::regime::TectonicRegime::VolcanicHotspot => (30, 60),
        crate::regime::TectonicRegime::PassiveMargin => (55, 90),
    }
}

/// Before smoothing, every erodibility value an `ActiveCompressional` cell can
/// take is at most every value a `PassiveMargin` cell can take: the
/// compressional range ends where the passive-margin range begins.
pub proof fn lemma_compressional_range_below_passive_margin()
    ensures
        erodibility_range_centi_of(crate::regime::TectonicRegime::ActiveCompressional).1
            <= erodibility_range_centi_of(crate::regime::TectonicRegime::PassiveMargin).0,
{
}

/// Minimum upstream cell count for a stream cell, per terrain class.
pub fn a_min_for_class(class: TerrainClass) -> (a_min: u32)
    ensures
        a_min == (match class {
            TerrainClass::Alpine => 200u32,
            TerrainClass::FluvialHumid => 100u32,
            TerrainClass::FluvialArid => 300u32,
            TerrainClass::Cratonic => 500u32,
            TerrainClass::Coastal => 400u32,
        }),
{
    match class {
        TerrainClass::Alpine => 200,
        TerrainClass::FluvialHumid => 100,
        TerrainClass::FluvialArid => 300,
        TerrainClass::Cratonic => 500,
        TerrainClass::Coastal => 400,
    }
}

/// Stream-power erosion iteration count, per terrain class.
pub fn erosion_iterations_for_class(class: TerrainClass) -> (iters: u32)
    ensures
        iters == (match class {
            TerrainClass::Alpine => 30u32,
            TerrainClass::FluvialHumid => 50u32,
            TerrainClass::FluvialArid => 20u32,
            TerrainClass::Cratonic => 10u32,
            TerrainClass::Coastal => 25u32,
        }),
{
    match class {
        TerrainClass::Alpine => 30,
        TerrainClass::FluvialHumid => 50,
        TerrainClass::FluvialArid => 20,
        TerrainClass::Cratonic => 10,
        TerrainClass::Coastal => 25,
    }
}

/// Mass-wasting angle of repose in whole degrees, per terrain class.
pub fn angle_of_repose_deg_for_class(class: TerrainClass) -> (deg: u32)
    ensures
        deg == (match class {
            TerrainClass::Alpine => 35u32,
            TerrainClass::FluvialHumid => 30u32,
            TerrainClass::FluvialArid => 35u32,
            TerrainClass::Cratonic => 25u32,
            TerrainClass::Coastal => 20u32,
        }),
{
    match class {
        TerrainClass::Alpine => 35,
        TerrainClass::FluvialHumid => 30,
        TerrainClass::FluvialArid => 35,
        TerrainClass::Cratonic => 25,
        TerrainClass::Coastal => 20,
    }
}

/// Elevation envelope in metres the synthesised tile is rescaled to.
pub fn elevation_range_m(class: TerrainClass) -> (metres: u32)
    ensures
        metres == (match class {
            TerrainClass::Alpine => 4000u32,
            TerrainClass::FluvialHumid => 500u32,
            TerrainClass::FluvialArid => 2000u32,
            TerrainClass::Cratonic => 1000u32,
            TerrainClass::Coastal => 200u32,
        }),
{
    match class {
        TerrainClass::Alpine => 4000,
        TerrainClass::FluvialHumid => 500,
        TerrainClass::FluvialArid => 2000,
        TerrainClass::Cratonic => 1000,
        TerrainClass::Coastal => 200,
    }
}

/// Target hypsometric integral (thousandths) for hypsometric shaping.
pub fn target_hi_permille(class: TerrainClass) -> (hi: u32)
    ensures
        hi == (match class {
            TerrainClass::Alpine => 335u32,
            TerrainClass::FluvialHumid => 361u32,
            TerrainClass::FluvialArid => 348u32,
            TerrainClass::Cratonic => 278u32,
            TerrainClass::Coastal => 467u32,
        }),
        0 < hi < 1000,
{
    match class {
        TerrainClass::Alpine => 335,
        TerrainClass::FluvialHumid => 361,
        TerrainClass::FluvialArid => 348,
        TerrainClass::Cratonic => 278,
        TerrainClass::Coastal => 467,
    }
}

} // verus!

//! Realism score structure: the ten metrics, their weights, their subsystem
//! attribution, and the per-terrain-class reference bands.
//!
//! Each metric estimator is floating-point work done by the caller; this
//! module fixes the verified structure of the score: which metrics exist,
//! that their weights sum to one, how they attribute to the two subsystems,
//! and the empirical `[p10, p90]` band every raw value is compared against.
//! Bands are carried in thousandths.

use vstd::prelude::*;
use crate::terrain::TerrainClass;

verus! {

/// The ten realism metrics, in the order the result record reports them.
#[derive(Debug, Clone, Copy, PartialEq, Eq, Structural)]
pub enum MetricKind {
    Hurst,
    RoughnessElev,
    Multifractal,
    SlopeMode,
    AspectCircularVariance,
    TpiRatio,
    Hypsometric,
    GeomorphonL1,
    Drainage,
    MoransI,
}

/// The pipeline stage a metric scores.
#[derive(Debug, Clone, Copy, PartialEq, Eq, Structural)]
pub enum Subsystem {
    NoiseSynth,
    Hydraulic,
}

/// Geomorphon L1 distance at which the score starts to degrade (thousandths).
pub const GEOMORPHON_L1_PASS_PERMILLE: u32 = 150;

/// Neutral score (thousandths) for metrics that cannot be compared against
/// their 90 m reference at planetary cell size.
pub const SCALE_NEUTRAL_PERMILLE: u32 = 650;

/// Weight of each metric in the total score, in thousandths.
pub open spec fn weight_permille_of(m: MetricKind) -> int {
    match m {
        MetricKind::Hurst => 100,
        MetricKind::RoughnessElev => 100,
        MetricKind::Multifractal => 80,
        MetricKind::SlopeMode => 80,
        MetricKind::AspectCircularVariance => 80,
        MetricKind::TpiRatio => 80,
        MetricKind::Hypsometric => 120,
        MetricKind::GeomorphonL1 => 140,
        MetricKind::Drainage => 120,
        MetricKind::MoransI => 100,
    }
}

/// Weight table, as executable values.
pub fn metric_weight_permille(m: MetricKind) -> (weight: u32)
    ensures
        weight == weight_permille_of(m),
{
    match m {
        MetricKind::Hurst => 100,
        MetricKind::RoughnessElev => 100,
        MetricKind::Multifractal => 80,
        MetricKind::SlopeMode => 80,
        MetricKind::AspectCircularVariance => 80,
        MetricKind::TpiRatio => 80,
        MetricKind::Hypsometric => 120,
        MetricKind::GeomorphonL1 => 140,
        MetricKind::Drainage => 120,
        MetricKind::MoransI => 100,
    }
}

/// Which subsystem a metric attributes to: the three texture metrics score
/// noise synthesis, the remaining seven score hydraulic shaping.
pub open spec fn subsystem_of(m: MetricKind) -> Subsystem {
    match m {
        MetricKind::Hurst => Subsystem::NoiseSynth,
        MetricKind::RoughnessElev => Subsystem::NoiseSynth,
        MetricKind::Multifractal => Subsystem::NoiseSynth,
        MetricKind::SlopeMode => Subsystem::Hydraulic,
        MetricKind::AspectCircularVariance => Subsystem::Hydraulic,
        MetricKind::TpiRatio => Subsystem::Hydraulic,
        MetricKind::Hypsometric => Subsystem::Hydraulic,
        MetricKind::GeomorphonL1 => Subsystem::Hydraulic,
        MetricKind::Drainage => Subsystem::Hydraulic,
        MetricKind::MoransI => Subsystem::Hydraulic,
    }
}

/// Subsystem table, as executable values.
pub fn metric_subsystem(m: MetricKind) -> (subsystem: Subsystem)
    ensures
        subsystem == subsystem_of(m),
{
    match m {
        MetricKind::Hurst => Subsystem::NoiseSynth,
        MetricKind::RoughnessElev => Subsystem::NoiseSynth,
        MetricKind::Multifractal => Subsystem::NoiseSynth,
        _ => Subsystem::Hydraulic,
    }
}

/// The ten metrics in report order.
pub open spec fn metric_order() -> Seq<MetricKind> {
    seq![
        MetricKind::Hurst,
        MetricKind::RoughnessElev,
        MetricKind::Multifractal,
        MetricKind::SlopeMode,
        MetricKind::AspectCircularVariance,
        MetricKind::TpiRatio,
        MetricKind::Hypsometric,
        MetricKind::GeomorphonL1,
        MetricKind::Drainage,
        MetricKind::MoransI,
    ]
}

/// The ten metrics in report order, as a vector.
pub fn all_metrics() -> (metrics: Vec<MetricKind>)
    ensures
        metrics@ == metric_order(),
        metrics@.len() == 10,
{
    let mut metrics: Vec<MetricKind> = Vec::new();
    metrics.push(MetricKind::Hurst);
    metrics.push(MetricKind::RoughnessElev);
    metrics.push(MetricKind::Multifractal);
    metrics.push(MetricKind::SlopeMode);
    metrics.push(MetricKind::AspectCircularVariance);
    metrics.push(MetricKind::TpiRatio);
    metrics.push(MetricKind::Hypsometric);
    metrics.push(MetricKind::GeomorphonL1);
    metrics.push(MetricKind::Drainage);
    metrics.push(MetricKind::MoransI);
    proof {
        assert(metrics@ =~= metric_order());
    }
    metrics
}

/// How many of the first `n` metrics in `s` attribute to `sub`.
pub open spec fn count_subsystem(s: Seq<MetricKind>, sub: Subsystem, n: int) -> int
    decreases n,
{
    if n <= 0 {
        0
    } else {
        count_subsystem(s, sub, n - 1) + if subsystem_of(s[n - 1]) == sub { 1int } else { 0int }
    }
}

/// The metric weights sum to one: the total score is a weighted mean.
pub proof fn lemma_weights_sum_to_one()
    ensures
        weight_permille_of(MetricKind::Hurst) + weight_permille_of(MetricKind::RoughnessElev)
            + weight_permille_of(MetricKind::Multifractal)
            + weight_permille_of(MetricKind::SlopeMode)
            + weight_permille_of(MetricKind::AspectCircularVariance)
            + weight_permille_of(MetricKind::TpiRatio)
            + weight_permille_of(MetricKind::Hypsometric)
            + weight_permille_of(MetricKind::GeomorphonL1)
            + weight_permille_of(MetricKind::Drainage)
            + weight_permille_of(MetricKind::MoransI) == 1000,
{
}

/// Subsystem attribution: three metrics score noise synthesis and seven score
/// hydraulic shaping.
pub proof fn lemma_subsystem_attribution()
    ensures
        count_subsystem(metric_order(), Subsystem::NoiseSynth, 10) == 3,
        count_subsystem(metric_order(), Subsystem::Hydraulic, 10) == 7,
{
    reveal_with_fuel(count_subsystem, 11);
}

/// Empirical `[p10, p90]` reference band (thousandths) for a scalar metric.
/// The geomorphon metric uses the L1 pass threshold instead of a band.
pub fn scalar_band_permille(m: MetricKind, tc: TerrainClass) -> (band: Option<(i32, i32)>)
    ensures
        ({
            match band {
                Some((lo, hi)) => lo <= hi && m != MetricKind::GeomorphonL1,
                None => m == MetricKind::GeomorphonL1,
            }
        }),
        band == band_table(m, tc),
{
    match m {
        MetricKind::Hurst => Some(match tc {
            TerrainClass::Alpine => (683, 819),
            TerrainClass::Coastal => (416, 572),
            TerrainClass::Cratonic => (482, 662),
            TerrainClass::FluvialArid => (551, 782),
            TerrainClass::FluvialHumid => (357, 629),
        }),
        MetricKind::RoughnessElev => Some(match tc {
            TerrainClass::Alpine => (23, 712),
            TerrainClass::Coastal => (-156, 240),
            TerrainClass::Cratonic => (53, 632),
            TerrainClass::FluvialArid => (-87, 629),
            TerrainClass::FluvialHumid => (-184, 560),
        }),
        MetricKind::Multifractal => Some(match tc {
            TerrainClass::Alpine => (204, 1123),
            TerrainClass::Coastal => (149, 740),
            TerrainClass::Cratonic => (123, 648),
            TerrainClass::FluvialArid => (258, 907),
            TerrainClass::FluvialHumid => (170, 888),
        }),
        MetricKind::SlopeMode => Some(match tc {
            TerrainClass::Alpine => (500, 20500),
            TerrainClass::Coastal => (500, 1500),
            TerrainClass::Cratonic => (500, 500),
            TerrainClass::FluvialArid => (500, 2500),
            TerrainClass::FluvialHumid => (500, 2500),
        }),
        MetricKind::AspectCircularVariance => Some((400, 850)),
        MetricKind::TpiRatio => Some(match tc {
            TerrainClass::Alpine => (74, 130),
            TerrainClass::Coastal => (224, 347),
            TerrainClass::Cratonic => (132, 334),
            TerrainClass::FluvialArid => (88, 198),
            TerrainClass::FluvialHumid => (167, 393),
        }),
        MetricKind::Hypsometric => Some(match tc {
            TerrainClass::Alpine => (196, 513),
            TerrainClass::Coastal => (334, 606),
            TerrainClass::Cratonic => (137, 435),
            TerrainClass::FluvialArid => (217, 521),
            TerrainClass::FluvialHumid => (218, 509),
        }),
        MetricKind::GeomorphonL1 => None,
        MetricKind::Drainage => Some(match tc {
            TerrainClass::Alpine => (1407, 3187),
            TerrainClass::Coastal => (24, 1886),
            TerrainClass::Cratonic => (84, 972),
            TerrainClass::FluvialArid => (1351, 2793),
            TerrainClass::FluvialHumid => (60, 2662),
        }),
        MetricKind::MoransI => Some(match tc {
            TerrainClass::Alpine => (21, 355),
            TerrainClass::Coastal => (54, 404),
            TerrainClass::Cratonic => (27, 350),
            TerrainClass::FluvialArid => (62, 404),
            TerrainClass::FluvialHumid => (68, 378),
        }),
    }
}

/// The reference band table.
pub open spec fn band_table(m: MetricKind, tc: TerrainClass) -> Option<(i32, i32)> {
    match m {
        MetricKind::Hurst => Some(match tc {
            TerrainClass::Alpine => (683i32, 819i32),
            TerrainClass::Coastal => (416i32, 572i32),
            TerrainClass::Cratonic => (482i32, 662i32),
            TerrainClass::FluvialArid => (551i32, 782i32),
            TerrainClass::FluvialHumid => (357i32, 629i32),
        }),
        MetricKind::RoughnessElev => Some(match tc {
            TerrainClass::Alpine => (23i32, 712i32),
            TerrainClass::Coastal => (-156i32, 240i32),
            TerrainClass::Cratonic => (53i32, 632i32),
            TerrainClass::FluvialArid => (-87i32, 629i32),
            TerrainClass::FluvialHumid => (-184i32, 560i32),
        }),
        MetricKind::Multifractal => Some(match tc {
            TerrainClass::Alpine => (204i32, 1123i32),
            TerrainClass::Coastal => (149i32, 740i32),
            TerrainClass::Cratonic => (123i32, 648i32),
            TerrainClass::FluvialArid => (258i32, 907i32),
            TerrainClass::FluvialHumid => (170i32, 888i32),
        }),
        MetricKind::SlopeMode => Some(match tc {
            TerrainClass::Alpine => (500i32, 20500i32),
            TerrainClass::Coastal => (500i32, 1500i32),
            TerrainClass::Cratonic => (500i32, 500i32),
            TerrainClass::FluvialArid => (500i32, 2500i32),
            TerrainClass::FluvialHumid => (500i32, 2500i32),
        }),
        MetricKind::AspectCircularVariance => Some((400i32, 850i32)),
        MetricKind::TpiRatio => Some(match tc {
            TerrainClass::Alpine => (74i32, 130i32),
            TerrainClass::Coastal => (224i32, 347i32),
            TerrainClass::Cratonic => (132i32, 334i32),
            TerrainClass::FluvialArid => (88i32, 198i32),
            TerrainClass::FluvialHumid => (167i32, 393i32),
        }),
        MetricKind::Hypsometric => Some(match tc {
            TerrainClass::Alpine => (196i32, 513i32),
            TerrainClass::Coastal => (334i32, 606i32),
            TerrainClass::Cratonic => (137i32, 435i32),
            TerrainClass::FluvialArid => (217i32, 521i32),
            TerrainClass::FluvialHumid => (218i32, 509i32),
        }),
        MetricKind::GeomorphonL1 => None,
        MetricKind::Drainage => Some(match tc {
            TerrainClass::Alpine => (1407i32, 3187i32),
            TerrainClass::Coastal => (24i32, 1886i32),
            TerrainClass::Cratonic => (84i32, 972i32),
            TerrainClass::FluvialArid => (1351i32, 2793i32),
            TerrainClass::FluvialHumid => (60i32, 2662i32),
        }),
        MetricKind::MoransI => Some(match tc {
            TerrainClass::Alpine => (21i32, 355i32),
            TerrainClass::Coastal => (54i32, 404i32),
            TerrainClass::Cratonic => (27i32, 350i32),
            TerrainClass::FluvialArid => (62i32, 404i32),
            TerrainClass::FluvialHumid => (68i32, 378i32),
        }),
    }
}

} // verus!

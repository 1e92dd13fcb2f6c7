use terra_core::geomorphons::{canonical_code, geomorphon_histogram, reference_hist_permyriad,
    ternary_to_class, Geomorphon};
use terra_core::score::{all_metrics, metric_subsystem, metric_weight_permille,
    scalar_band_permille, MetricKind, Subsystem};
use terra_core::terrain::{a_min_for_class, angle_of_repose_deg_for_class, elevation_range_m,
    erosion_iterations_for_class, target_hi_permille, TerrainClass};

const ALL_CLASSES: [TerrainClass; 5] = [
    TerrainClass::Alpine,
    TerrainClass::FluvialHumid,
    TerrainClass::FluvialArid,
    TerrainClass::Cratonic,
    TerrainClass::Coastal,
];

#[test]
fn ternary_class_table() {
    assert_eq!(ternary_to_class(&[0; 8]), Geomorphon::Flat);
    assert_eq!(ternary_to_class(&[1; 8]), Geomorphon::Pit);
    assert_eq!(ternary_to_class(&[-1; 8]), Geomorphon::Peak);
    assert_eq!(ternary_to_class(&[1, 1, 1, 1, 1, 1, 1, 0]), Geomorphon::Pit);
    assert_eq!(ternary_to_class(&[-1, -1, -1, -1, -1, -1, -1, 0]), Geomorphon::Peak);
    assert_eq!(ternary_to_class(&[1, 1, 1, 1, 1, 1, 0, 0]), Geomorphon::Valley);
    assert_eq!(ternary_to_class(&[-1, -1, -1, -1, -1, -1, 0, 0]), Geomorphon::Ridge);
    assert_eq!(ternary_to_class(&[1, 1, 1, 1, -1, 0, 0, 0]), Geomorphon::Footslope);
    assert_eq!(ternary_to_class(&[-1, -1, -1, -1, 1, 0, 0, 0]), Geomorphon::Shoulder);
    assert_eq!(ternary_to_class(&[1, 1, 1, -1, -1, 0, 0, 0]), Geomorphon::Hollow);
    assert_eq!(ternary_to_class(&[-1, -1, -1, 1, 1, 0, 0, 0]), Geomorphon::Spur);
    assert_eq!(ternary_to_class(&[1, 1, -1, -1, 0, 0, 0, 0]), Geomorphon::Slope);
}

#[test]
fn geomorphon_index_order() {
    let classes = [
        Geomorphon::Flat,
        Geomorphon::Peak,
        Geomorphon::Ridge,
        Geomorphon::Shoulder,
        Geomorphon::Spur,
        Geomorphon::Slope,
        Geomorphon::Hollow,
        Geomorphon::Footslope,
        Geomorphon::Valley,
        Geomorphon::Pit,
    ];
    for (k, &g) in classes.iter().enumerate() {
        assert_eq!(g.index(), k);
    }
}

#[test]
fn canonical_code_is_rotation_invariant() {
    let base: [i8; 8] = [1, 0, -1, 0, 1, 1, 0, -1];
    let mut rotated = base;
    let code = canonical_code(&base);
    for _ in 0..7 {
        rotated.rotate_left(1);
        assert_eq!(canonical_code(&rotated), code);
    }
}

#[test]
fn canonical_code_concrete_value() {
    // One raised direction among seven level ones: the smallest rotation puts
    // the raised digit last, encoding 11111112 in base 3.
    let pattern: [i8; 8] = [1, 0, 0, 0, 0, 0, 0, 0];
    assert_eq!(canonical_code(&pattern), 3281);
    // The all-level pattern encodes as 11111111 in base 3.
    assert_eq!(canonical_code(&[0; 8]), 3280);
}

#[test]
fn histogram_counts_sum_to_cell_count() {
    let classes = vec![
        Geomorphon::Flat,
        Geomorphon::Flat,
        Geomorphon::Slope,
        Geomorphon::Valley,
        Geomorphon::Slope,
        Geomorphon::Pit,
    ];
    let hist = geomorphon_histogram(&classes);
    assert_eq!(hist.len(), 10);
    assert_eq!(hist[Geomorphon::Flat.index()], 2);
    assert_eq!(hist[Geomorphon::Slope.index()], 2);
    assert_eq!(hist[Geomorphon::Valley.index()], 1);
    assert_eq!(hist[Geomorphon::Pit.index()], 1);
    let total: u64 = hist.iter().map(|&c| c as u64).sum();
    assert_eq!(total, classes.len() as u64);
}

#[test]
fn histogram_of_empty_raster_is_zero() {
    let hist = geomorphon_histogram(&Vec::new());
    assert_eq!(hist.len(), 10);
    assert!(hist.iter().all(|&c| c == 0));
}

#[test]
fn reference_histograms_are_normalised() {
    // Ten-thousandths per bin; the published rows sum to one up to rounding.
    for tc in ALL_CLASSES {
        let hist = reference_hist_permyriad(tc);
        let total: u32 = hist.iter().sum();
        assert!((9999..=10000).contains(&total), "{tc:?} sums to {total}");
    }
}

#[test]
fn metric_weights_sum_to_one() {
    let total: u32 = all_metrics().iter().map(|&m| metric_weight_permille(m)).sum();
    assert_eq!(total, 1000);
}

#[test]
fn subsystem_attribution_is_three_noise_seven_hydraulic() {
    let metrics = all_metrics();
    assert_eq!(metrics.len(), 10);
    let noise = metrics.iter().filter(|&&m| {
        metric_subsystem(m) == Subsystem::NoiseSynth
    }).count();
    let hydraulic = metrics.iter().filter(|&&m| {
        metric_subsystem(m) == Subsystem::Hydraulic
    }).count();
    assert_eq!(noise, 3);
    assert_eq!(hydraulic, 7);
}

#[test]
fn reference_bands_are_ordered() {
    for tc in ALL_CLASSES {
        for &m in all_metrics().iter() {
            match scalar_band_permille(m, tc) {
                Some((lo, hi)) => assert!(lo <= hi, "{m:?} {tc:?}"),
                None => assert_eq!(m, MetricKind::GeomorphonL1),
            }
        }
    }
}

#[test]
fn hurst_band_for_alpine() {
    assert_eq!(scalar_band_permille(MetricKind::Hurst, TerrainClass::Alpine), Some((683, 819)));
    assert_eq!(
        scalar_band_permille(MetricKind::Drainage, TerrainClass::FluvialArid),
        Some((1351, 2793))
    );
}

#[test]
fn per_class_hydraulic_parameters() {
    assert_eq!(a_min_for_class(TerrainClass::Alpine), 200);
    assert_eq!(a_min_for_class(TerrainClass::FluvialHumid), 100);
    assert_eq!(a_min_for_class(TerrainClass::FluvialArid), 300);
    assert_eq!(a_min_for_class(TerrainClass::Cratonic), 500);
    assert_eq!(a_min_for_class(TerrainClass::Coastal), 400);
    assert_eq!(erosion_iterations_for_class(TerrainClass::Alpine), 30);
    assert_eq!(erosion_iterations_for_class(TerrainClass::FluvialHumid), 50);
    assert_eq!(erosion_iterations_for_class(TerrainClass::FluvialArid), 20);
    assert_eq!(erosion_iterations_for_class(TerrainClass::Cratonic), 10);
    assert_eq!(erosion_iterations_for_class(TerrainClass::Coastal), 25);
    assert_eq!(angle_of_repose_deg_for_class(TerrainClass::Alpine), 35);
    assert_eq!(angle_of_repose_deg_for_class(TerrainClass::Coastal), 20);
    assert_eq!(elevation_range_m(TerrainClass::Alpine), 4000);
    assert_eq!(elevation_range_m(TerrainClass::FluvialHumid), 500);
    assert_eq!(target_hi_permille(TerrainClass::Alpine), 335);
    assert_eq!(target_hi_permille(TerrainClass::Coastal), 467);
}

use terra_core::crust::{assign_continental_crust, classify_crust_cell, find_subduction_sites,
    is_continental, is_continental_cell, CrustType};
use terra_core::regime::{classify_regime_cell, generate_regime_field, regime_to_u8, RegimeField,
    TectonicRegime};
use terra_core::terrain::{classify_terrain, direct_glacial_class, erodibility_range_centi,
    n_ridges_from_fragmentation, GlacialClass, TerrainClass};

#[test]
fn is_continental_helper() {
    assert!(is_continental(CrustType::Continental));
    assert!(is_continental(CrustType::ActiveMargin));
    assert!(is_continental(CrustType::PassiveMargin));
    assert!(!is_continental(CrustType::Oceanic));
}

#[test]
fn is_continental_cell_reads_the_field() {
    let field = vec![CrustType::Oceanic, CrustType::Continental, CrustType::PassiveMargin];
    assert!(!is_continental_cell(&field, 0));
    assert!(is_continental_cell(&field, 1));
    assert!(is_continental_cell(&field, 2));
}

#[test]
fn regime_get_set_roundtrip() {
    let mut rf = RegimeField::new(4, 4);
    rf.set(1, 2, TectonicRegime::ActiveCompressional);
    assert_eq!(rf.get(1, 2), TectonicRegime::ActiveCompressional);
}

#[test]
fn regime_new_is_fully_covered() {
    let rf = RegimeField::new(8, 4);
    assert_eq!(rf.data.len(), 32);
    assert!(rf.data.iter().all(|&r| r == TectonicRegime::CratonicShield));
}

#[test]
fn crust_classification_rules() {
    // Young crust stays oceanic whatever the arc proximity.
    assert_eq!(classify_crust_cell(0, false), CrustType::Oceanic);
    assert_eq!(classify_crust_cell(499, true), CrustType::Oceanic);
    // Old crust near an arc is an active margin.
    assert_eq!(classify_crust_cell(500, true), CrustType::ActiveMargin);
    assert_eq!(classify_crust_cell(900, true), CrustType::ActiveMargin);
    // Very old crust far from arcs is continental basement.
    assert_eq!(classify_crust_cell(801, false), CrustType::Continental);
    // Moderately old crust far from arcs is a passive margin.
    assert_eq!(classify_crust_cell(500, false), CrustType::PassiveMargin);
    assert_eq!(classify_crust_cell(800, false), CrustType::PassiveMargin);
}

#[test]
fn crust_field_matches_per_cell_rules() {
    let ages = vec![0, 600, 850, 700];
    let near = vec![false, true, false, false];
    let crust = assign_continental_crust(&ages, &near, 2, 2);
    assert_eq!(crust.len(), 4);
    assert_eq!(crust[0], CrustType::Oceanic);
    assert_eq!(crust[1], CrustType::ActiveMargin);
    assert_eq!(crust[2], CrustType::Continental);
    assert_eq!(crust[3], CrustType::PassiveMargin);
}

#[test]
fn crust_field_empty_grid() {
    let crust = assign_continental_crust(&Vec::new(), &Vec::new(), 0, 7);
    assert!(crust.is_empty());
}

#[test]
fn regime_priority_order() {
    // Ridge proximity wins over everything.
    assert_eq!(
        classify_regime_cell(true, true, true, CrustType::Continental),
        TectonicRegime::ActiveExtensional
    );
    // Then subduction proximity.
    assert_eq!(
        classify_regime_cell(false, true, true, CrustType::Continental),
        TectonicRegime::ActiveCompressional
    );
    // Then hotspot proximity.
    assert_eq!(
        classify_regime_cell(false, false, true, CrustType::Continental),
        TectonicRegime::VolcanicHotspot
    );
    // Then the crust type decides.
    assert_eq!(
        classify_regime_cell(false, false, false, CrustType::Continental),
        TectonicRegime::CratonicShield
    );
    assert_eq!(
        classify_regime_cell(false, false, false, CrustType::ActiveMargin),
        TectonicRegime::ActiveCompressional
    );
    assert_eq!(
        classify_regime_cell(false, false, false, CrustType::PassiveMargin),
        TectonicRegime::PassiveMargin
    );
    assert_eq!(
        classify_regime_cell(false, false, false, CrustType::Oceanic),
        TectonicRegime::PassiveMargin
    );
}

#[test]
fn regime_field_from_masks() {
    let near_ridge = vec![true, false, false, false];
    let near_sub = vec![false, true, false, false];
    let near_hot = vec![false, false, true, false];
    let crust = vec![CrustType::Oceanic; 4];
    let rf = generate_regime_field(&near_ridge, &near_sub, &near_hot, &crust, 4, 1);
    assert_eq!(rf.data.len(), 4);
    assert_eq!(rf.get(0, 0), TectonicRegime::ActiveExtensional);
    assert_eq!(rf.get(0, 1), TectonicRegime::ActiveCompressional);
    assert_eq!(rf.get(0, 2), TectonicRegime::VolcanicHotspot);
    assert_eq!(rf.get(0, 3), TectonicRegime::PassiveMargin);
}

#[test]
fn regime_wire_encoding() {
    assert_eq!(regime_to_u8(TectonicRegime::PassiveMargin), 0);
    assert_eq!(regime_to_u8(TectonicRegime::CratonicShield), 1);
    assert_eq!(regime_to_u8(TectonicRegime::ActiveCompressional), 2);
    assert_eq!(regime_to_u8(TectonicRegime::ActiveExtensional), 3);
    assert_eq!(regime_to_u8(TectonicRegime::VolcanicHotspot), 4);
}

#[test]
fn terrain_class_from_sliders() {
    // High mountain prevalence is alpine.
    assert_eq!(classify_terrain(700, 500, 550), TerrainClass::Alpine);
    // Low prevalence and low activity is cratonic.
    assert_eq!(classify_terrain(100, 200, 550), TerrainClass::Cratonic);
    // Low water abundance is arid fluvial.
    assert_eq!(classify_terrain(500, 500, 200), TerrainClass::FluvialArid);
    // The default sliders are humid fluvial.
    assert_eq!(classify_terrain(500, 500, 550), TerrainClass::FluvialHumid);
}

#[test]
fn glacial_class_thresholds() {
    assert_eq!(direct_glacial_class(700), GlacialClass::Active);
    assert_eq!(direct_glacial_class(651), GlacialClass::Active);
    assert_eq!(direct_glacial_class(650), GlacialClass::Former);
    assert_eq!(direct_glacial_class(300), GlacialClass::Former);
    assert_eq!(direct_glacial_class(251), GlacialClass::Former);
    assert_eq!(direct_glacial_class(250), GlacialClass::Unglaciated);
    assert_eq!(direct_glacial_class(0), GlacialClass::Unglaciated);
}

#[test]
fn ridge_count_from_fragmentation() {
    assert_eq!(n_ridges_from_fragmentation(0), 2);
    assert_eq!(n_ridges_from_fragmentation(1000), 10);
    // The default fragmentation rounds 2 + 8·0.4 = 5.2 to 5.
    assert_eq!(n_ridges_from_fragmentation(400), 5);
    assert_eq!(n_ridges_from_fragmentation(500), 6);
}

#[test]
fn erodibility_ranges_by_regime() {
    assert_eq!(erodibility_range_centi(TectonicRegime::CratonicShield), (5, 30));
    assert_eq!(erodibility_range_centi(TectonicRegime::ActiveCompressional), (25, 55));
    assert_eq!(erodibility_range_centi(TectonicRegime::ActiveExtensional), (30, 60));
    assert_eq!(erodibility_range_centi(TectonicRegime::VolcanicHotspot), (30, 60));
    assert_eq!(erodibility_range_centi(TectonicRegime::PassiveMargin), (55, 90));
}

#[test]
fn compressional_erodibility_never_exceeds_passive_margin() {
    // Before smoothing, every compressional value is at most every
    // passive-margin value: the ranges meet at 0.55.
    let (_, hi_ac) = erodibility_range_centi(TectonicRegime::ActiveCompressional);
    let (lo_pm, _) = erodibility_range_centi(TectonicRegime::PassiveMargin);
    assert!(hi_ac <= lo_pm);
}

#[test]
fn subduction_sites_listed_in_raster_order() {
    // A 3x2 grid of normalised ages in thousandths; the threshold is 0.65.
    let ages = vec![0, 650, 700, 100, 649, 651];
    let sites = find_subduction_sites(&ages, 3, 2);
    assert_eq!(sites, vec![(0, 1), (0, 2), (1, 2)]);
    assert!(find_subduction_sites(&vec![100, 200], 2, 1).is_empty());
    assert!(find_subduction_sites(&Vec::new(), 0, 4).is_empty());
}

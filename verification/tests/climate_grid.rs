use terra_core::glaciation::compute_glaciation_mask;
use terra_core::grid::{cell_center_lat, cell_center_lon, circular_kernel, grid_col_of_lon,
    grid_row_of_lat, TileAddr};
use terra_core::orographic::{belt_width_at, plan_orographic_correction, scan_direction,
    wind_eastward, OrographicEffect};
use terra_core::regime::{RegimeField, TectonicRegime};
use terra_core::terrain::GlacialClass;

fn lat_of_row(r: usize, height: usize) -> f32 {
    (90.0 - (r as f64 + 0.5) / height as f64 * 180.0) as f32
}

#[test]
fn active_above_60_for_low_slider() {
    let w = 128usize;
    let h = 64usize;
    let mask = compute_glaciation_mask(w, h, 100);
    for r in 0..h {
        let lat_abs = lat_of_row(r, h).abs();
        for c in 0..w {
            if mask[r * w + c] == GlacialClass::Active {
                assert!(
                    lat_abs > 60.0,
                    "Active cell at row {r} (lat {lat_abs:.1}) is below 60 degrees"
                );
            }
        }
    }
}

#[test]
fn slider_zero_gives_no_glaciation() {
    let mask = compute_glaciation_mask(64, 32, 0);
    for &c in &mask {
        assert_eq!(c, GlacialClass::Unglaciated, "slider=0 should produce no glaciation");
    }
}

#[test]
fn slider_one_has_active_cells() {
    let mask = compute_glaciation_mask(64, 32, 1000);
    let has_active = mask.iter().any(|&c| c == GlacialClass::Active);
    assert!(has_active, "slider=1 should produce Active glaciation cells");
}

#[test]
fn output_length_matches_grid() {
    let mask = compute_glaciation_mask(32, 16, 300);
    assert_eq!(mask.len(), 32 * 16);
}

#[test]
fn empty_grid() {
    assert!(compute_glaciation_mask(0, 16, 300).is_empty());
    assert!(compute_glaciation_mask(16, 0, 300).is_empty());
}

#[test]
fn glaciation_mask_is_zonally_uniform() {
    let w = 16usize;
    let h = 32usize;
    let mask = compute_glaciation_mask(w, h, 450);
    for r in 0..h {
        for c in 1..w {
            assert_eq!(mask[r * w + c], mask[r * w], "row {r} must share one class");
        }
    }
}

#[test]
fn cell_roundtrip_is_identity() {
    let w = 16usize;
    let h = 8usize;
    for r in 0..h {
        for c in 0..w {
            let (lat_num, lat_den) = cell_center_lat(r, h);
            let (lon_num, lon_den) = cell_center_lon(c, w);
            assert_eq!(grid_row_of_lat(lat_num, lat_den, h), r);
            assert_eq!(grid_col_of_lon(lon_num, lon_den, w), c);
        }
    }
}

#[test]
fn cell_centre_coordinates_are_exact() {
    // Row 0 of 8 rows is centred at 90 - 0.5/8*180 = 78.75 degrees: 630/8.
    let (num, den) = cell_center_lat(0, 8);
    assert_eq!((num, den), (630, 8));
    // Column 0 of 16 columns is centred at -180 + 0.5/16*360 = -168.75: -2700/16.
    let (num, den) = cell_center_lon(0, 16);
    assert_eq!((num, den), (-2700, 16));
}

#[test]
fn tile_addr_holds_its_fields() {
    let t = TileAddr::new(10, 512, 384);
    assert_eq!(t.zoom, 10);
    assert_eq!(t.x, 512);
    assert_eq!(t.y, 384);
}

#[test]
fn circular_kernel_radius_two() {
    let kernel = circular_kernel(2);
    assert_eq!(kernel.len(), 13);
    assert!(kernel.contains(&(0, 0)));
    assert!(kernel.contains(&(-2, 0)));
    assert!(kernel.contains(&(1, 1)));
    assert!(!kernel.contains(&(2, 2)));
    for &(dr, dc) in &kernel {
        assert!(dr * dr + dc * dc <= 4);
    }
}

#[test]
fn prevailing_wind_bands() {
    let h = 64usize;
    // Row 16 sits near +43.6 degrees: westerlies, eastward.
    assert!(wind_eastward(16, h));
    // Row 32 sits near -1.4 degrees: trade winds, westward.
    assert!(!wind_eastward(32, h));
    // Row 0 sits near +88.6 degrees: polar easterlies, westward.
    assert!(!wind_eastward(0, h));
}

fn mountain_at_col(w: usize, h: usize, col: usize) -> RegimeField {
    let mut rf = RegimeField::new(w, h);
    for r in 0..h {
        rf.set(r, col, TectonicRegime::ActiveCompressional);
    }
    rf
}

#[test]
fn mountain_cells_planned_unchanged() {
    // The orographic plan never touches a mountain cell.
    let w = 32usize;
    let h = 16usize;
    let regime = mountain_at_col(w, h, 8);
    let plan = plan_orographic_correction(&regime);
    assert_eq!(plan.len(), w * h);
    for r in 0..h {
        assert_eq!(plan[r * w + 8], OrographicEffect::Unchanged, "mountain cell row={r}");
    }
}

#[test]
fn narrow_belt_westerlies_leeward_and_windward() {
    // A single-column belt at c=32 on a 64x64 grid. Row 16 lies in the
    // westerlies, so cells east of the belt are leeward and cells west of it
    // within the scan radius are windward; the belt is one cell wide.
    let w = 64usize;
    let h = 64usize;
    let regime = mountain_at_col(w, h, 32);
    let plan = plan_orographic_correction(&regime);
    let r = 16usize;
    assert_eq!(plan[r * w + 36], OrographicEffect::Leeward(1));
    assert_eq!(plan[r * w + 28], OrographicEffect::Windward(1));
    // Far outside the influence radius (8 cells) nothing happens.
    assert_eq!(plan[r * w + 50], OrographicEffect::Unchanged);
}

#[test]
fn flat_regime_plans_no_change() {
    let regime = RegimeField::new(16, 8);
    let plan = plan_orographic_correction(&regime);
    assert!(plan.iter().all(|&e| e == OrographicEffect::Unchanged));
}

#[test]
fn empty_grid_plans_nothing() {
    let regime = RegimeField::new(0, 0);
    let plan = plan_orographic_correction(&regime);
    assert!(plan.is_empty());
}

#[test]
fn scan_finds_the_first_mountain() {
    // One mountain at column 5 in an 8-wide row.
    let mut mask = vec![false; 8];
    mask[5] = true;
    assert_eq!(scan_direction(0, 2, 1, 4, 8, &mask), Some(5));
    assert_eq!(scan_direction(0, 2, 1, 2, 8, &mask), None);
    // Scanning west wraps around the antimeridian.
    assert_eq!(scan_direction(0, 1, -1, 4, 8, &mask), Some(5));
}

#[test]
fn belt_width_counts_both_sides() {
    // Mountains at columns 3, 4, 5: width 3 measured from the middle.
    let mut mask = vec![false; 16];
    mask[3] = true;
    mask[4] = true;
    mask[5] = true;
    assert_eq!(belt_width_at(0, 4, 16, &mask), 3);
    assert_eq!(belt_width_at(0, 3, 16, &mask), 3);
    // A lone mountain column has width 1.
    let mut lone = vec![false; 16];
    lone[7] = true;
    assert_eq!(belt_width_at(0, 7, 16, &lone), 1);
}

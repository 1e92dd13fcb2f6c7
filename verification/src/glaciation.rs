//! Glaciation mask: per-cell glacial overprint class from latitude alone.
//!
//! Row `r` of an `h`-row global grid samples latitude `90·(h − 2r − 1)/h`
//! degrees (cell-centred, row 0 on the north-pole side). The mask compares the
//! absolute latitude against two slider-controlled thresholds:
//! active glaciation poleward of `90 − 60·g` degrees, former glaciation
//! poleward of `90 − 90·g` degrees, where `g` is the glaciation slider.
//! With the slider in thousandths both comparisons are exact integer tests:
//!
//! * active: `1500·|h − 2r − 1| ≥ h·(1500 − g)`
//! * former: `1000·|h − 2r − 1| ≥ h·(1000 − g)`
//!
//! The mask is zonally uniform: all columns of a row share one class.

use vstd::prelude::*;
use crate::terrain::GlacialClass;

verus! {

/// `h − 2r − 1`: the numerator of the cell-centre latitude of row `r`,
/// in units of `90/h` degrees.
pub open spec fn row_lat_steps(r: int, h: int) -> int {
    h - 2 * r - 1
}

/// The glacial class of every cell in row `r` of an `h`-row grid, for a
/// glaciation slider of `g` thousandths.
pub open spec fn glacial_class_at_row(r: int, h: int, g: int) -> GlacialClass {
    let steps = vstd::math::abs(row_lat_steps(r, h));
    if 1500 * steps >= h * (1500 - g) {
        GlacialClass::Active
    } else if 1000 * steps >= h * (1000 - g) {
        GlacialClass::Former
    } else {
        GlacialClass::Unglaciated
    }
}

/// Compute the glaciation mask for a `width × height` global grid.
///
/// Returns a row-major field of length `width · height` whose every cell holds
/// the class of its row.
pub fn compute_glaciation_mask(
    width: usize,
    height: usize,
    glaciation_milli: u32,
) -> (mask: Vec<GlacialClass>)
    requires
        glaciation_milli <= 1000,
        width * height <= usize::MAX,
    ensures
        mask@.len() == width * height,
        forall|i: int| 0 <= i < mask@.len()
            ==> mask@[i]
                == glacial_class_at_row(
                    i / width as int,
                    height as int,
                    glaciation_milli as int,
                ),
{
    let mut mask: Vec<GlacialClass> = Vec::new();
    let mut r: usize = 0;
    while r < height
        invariant
            r <= height,
            width * height <= usize::MAX,
            glaciation_milli <= 1000,
            mask@.len() == r * width,
            forall|i: int| 0 <= i < mask@.len()
                ==> mask@[i]
                    == glacial_class_at_row(
                        i / width as int,
                        height as int,
                        glaciation_milli as int,
                    ),
        decreases height - r,
    {
        proof {
            assert(r * width + width <= height * width) by (nonlinear_arith)
                requires r < height;
            assert(height * width == width * height) by (nonlinear_arith);
        }
        proof {
            assert(height as int <= 0xffff_ffff_ffff_ffffu64 as int);
        }
        let steps_signed: i128 = height as i128 - 2 * (r as i128) - 1;
        let steps: i128 = if steps_signed < 0 { -steps_signed } else { steps_signed };
        let h128: i128 = height as i128;
        let g128: i128 = glaciation_milli as i128;
        proof {
            assert(0 <= h128 * (1500 - g128) <= 1500 * 0xffff_ffff_ffff_ffffi128)
                by (nonlinear_arith)
                requires 0 <= h128 <= 0xffff_ffff_ffff_ffffi128, 0 <= g128 <= 1000;
            assert(0 <= h128 * (1000 - g128) <= 1000 * 0xffff_ffff_ffff_ffffi128)
                by (nonlinear_arith)
                requires 0 <= h128 <= 0xffff_ffff_ffff_ffffi128, 0 <= g128 <= 1000;
        }
        let class = if 1500 * steps >= h128 * (1500 - g128) {
            GlacialClass::Active
        } else if 1000 * steps >= h128 * (1000 - g128) {
            GlacialClass::Former
        } else {
            GlacialClass::Unglaciated
        };
        assert(class == glacial_class_at_row(r as int, height as int, glaciation_milli as int));
        let mut c: usize = 0;
        while c < width
            invariant
                c <= width,
                r < height,
                width * height <= usize::MAX,
                glaciation_milli <= 1000,
                mask@.len() == r * width + c,
                r * width + width <= width * height,
                class == glacial_class_at_row(r as int, height as int, glaciation_milli as int),
                forall|i: int| 0 <= i < mask@.len()
                    ==> mask@[i]
                        == glacial_class_at_row(
                            i / width as int,
                            height as int,
                            glaciation_milli as int,
                        ),
            decreases width - c,
        {
            proof {
                vstd::arithmetic::div_mod::lemma_fundamental_div_mod_converse(
                    r * width + c,
                    width as int,
                    r as int,
                    c as int,
                );
            }
            mask.push(class);
            c = c + 1;
        }
        r = r + 1;
        proof {
            assert((r - 1) * width + width == r * width) by (nonlinear_arith);
        }
    }
    proof {
        assert(height * width == width * height) by (nonlinear_arith);
    }
    mask
}

/// With the glaciation slider at zero, the whole mask is `Unglaciated`:
/// no row's latitude reaches either threshold.
pub proof fn lemma_zero_glaciation_mask_is_unglaciated(r: int, h: int)
    requires
        0 <= r < h,
    ensures
        glacial_class_at_row(r, h, 0) == GlacialClass::Unglaciated,
{
    let steps = vstd::math::abs(row_lat_steps(r, h));
    assert(steps <= h - 1);
    assert(1500 * steps < 1500 * h);
    assert(1000 * steps < 1000 * h);
}

/// With the glaciation slider at 0.1, every `Active` row lies strictly
/// poleward of 60° absolute latitude: `90·|h − 2r − 1| > 60·h`, that is,
/// `|latitude| > 60` degrees.
pub proof fn lemma_low_slider_active_above_60(r: int, h: int)
    requires
        0 <= r < h,
        glacial_class_at_row(r, h, 100) == GlacialClass::Active,
    ensures
        90 * vstd::math::abs(row_lat_steps(r, h)) > 60 * h,
{
    let steps = vstd::math::abs(row_lat_steps(r, h));
    assert(1500 * steps >= 1400 * h);
    assert(90 * steps >= 84 * h);
    assert(84 * h > 60 * h);
}

} // verus!

//! Orographic correction plan: which cells sit windward or leeward of a
//! mountain belt, and how wide that belt is.
//!
//! Mountain cells are the `ActiveCompressional` cells of the regime field.
//! For every other cell the plan scans along its row, wrapping in longitude,
//! first upwind then downwind, up to `max(width/8, 4)` cells. A mountain found
//! upwind makes the cell leeward; one found downwind makes it windward. The
//! belt width at the found mountain column (consecutive mountain cells in the
//! row, both directions, capped at `max(width/4, 4)` per side) scales the
//! precipitation multiplier, which the caller applies. Mountain cells
//! themselves are always left unchanged.
//!
//! The prevailing wind by absolute latitude: below 30° trade winds (westward),
//! from 30° to 60° westerlies (eastward), poleward of 60° polar easterlies
//! (westward).

use vstd::prelude::*;
use crate::regime::{RegimeField, TectonicRegime};

verus! {

/// Windward/leeward decision for one cell; the payload is the belt width.
#[derive(Debug, Clone, Copy, PartialEq, Eq, Structural)]
pub enum OrographicEffect {
    Unchanged,
    Windward(usize),
    Leeward(usize),
}

/// `a` reduced into `0 .. m`, for any sign of `a`.
pub open spec fn emod(a: int, m: int) -> int {
    ((a % m) + m) % m
}

/// Does the prevailing wind at row `r` of `h` rows blow eastward?
/// True exactly when the row's absolute latitude `90·|h − 2r − 1|/h`
/// lies in `[30°, 60°)`.
pub open spec fn wind_eastward_at_row(r: int, h: int) -> bool {
    let steps = vstd::math::abs(h - 2 * r - 1);
    3 * steps >= h && 3 * steps < 2 * h
}

/// Column of the first mountain cell within `steps` cells of `col` in
/// direction `dir` (±1) along row `row`, wrapping in longitude.
pub open spec fn first_mountain(
    mask: Seq<bool>,
    row: int,
    col: int,
    dir: int,
    steps: int,
    w: int,
) -> Option<int>
    decreases steps,
{
    if steps <= 0 {
        None
    } else {
        let c = emod(col + dir, w);
        if mask[row * w + c] {
            Some(c)
        } else {
            first_mountain(mask, row, c, dir, steps - 1, w)
        }
    }
}

/// Length of the run of consecutive mountain cells that starts one step from
/// `col` in direction `dir` (±1) along row `row`, capped at `limit`.
pub open spec fn mountain_run(
    mask: Seq<bool>,
    row: int,
    col: int,
    dir: int,
    limit: int,
    w: int,
) -> int
    decreases limit,
{
    if limit <= 0 {
        0
    } else {
        let c = emod(col + dir, w);
        if mask[row * w + c] {
            1 + mountain_run(mask, row, c, dir, limit - 1, w)
        } else {
            0
        }
    }
}

/// Belt width at a mountain column: the column itself plus the mountain runs
/// on both sides, each capped at `max(w/4, 4)`.
pub open spec fn belt_width_spec(mask: Seq<bool>, row: int, col: int, w: int) -> int {
    let max_scan = vstd::math::max(w / 4, 4);
    1 + mountain_run(mask, row, col, 1, max_scan, w) + mountain_run(mask, row, col, -1, max_scan, w)
}

/// The orographic effect of cell `(r, c)` in a `w × h` grid: mountain cells
/// are unchanged; otherwise a mountain upwind makes the cell leeward, a
/// mountain downwind makes it windward, and neither leaves it unchanged.
pub open spec fn oro_effect_at(mask: Seq<bool>, r: int, c: int, w: int, h: int) -> OrographicEffect {
    let influence = vstd::math::max(w / 8, 4);
    let upwind: int = if wind_eastward_at_row(r, h) { -1 } else { 1 };
    if mask[r * w + c] {
        OrographicEffect::Unchanged
    } else if first_mountain(mask, r, c, upwind, influence, w) is Some {
        let mc = first_mountain(mask, r, c, upwind, influence, w)->Some_0;
        OrographicEffect::Leeward(belt_width_spec(mask, r, mc, w) as usize)
    } else if first_mountain(mask, r, c, -upwind, influence, w) is Some {
        let mc = first_mountain(mask, r, c, -upwind, influence, w)->Some_0;
        OrographicEffect::Windward(belt_width_spec(mask, r, mc, w) as usize)
    } else {
        OrographicEffect::Unchanged
    }
}

/// Does the prevailing wind at row `r` of `h` rows blow eastward?
pub fn wind_eastward(r: usize, h: usize) -> (eastward: bool)
    requires
        r < h,
        h <= 0xffff_ffff,
    ensures
        eastward == wind_eastward_at_row(r as int, h as int),
{
    let signed: i64 = h as i64 - 2 * (r as i64) - 1;
    let steps: i64 = if signed < 0 { -signed } else { signed };
    3 * steps >= h as i64 && 3 * steps < 2 * (h as i64)
}

/// One wrapped step from `col` in direction `dir` (±1).
fn wrap_step(col: usize, dir: i64, width: usize) -> (c: usize)
    requires
        col < width,
        1 <= width <= 0xffff_ffff,
        dir == 1 || dir == -1,
    ensures
        c == emod(col as int + dir as int, width as int),
        c < width,
{
    let ghost w = width as int;
    if dir == 1 {
        if col + 1 == width {
            proof {
                vstd::arithmetic::div_mod::lemma_mod_self_0(w);
                vstd::arithmetic::div_mod::lemma_small_mod(0, w as nat);
            }
            0
        } else {
            proof {
                vstd::arithmetic::div_mod::lemma_small_mod((col + 1) as nat, w as nat);
                vstd::arithmetic::div_mod::lemma_fundamental_div_mod_converse(
                    (col + 1) + w,
                    w,
                    1,
                    col + 1,
                );
            }
            col + 1
        }
    } else {
        if col == 0 {
            proof {
                vstd::arithmetic::div_mod::lemma_fundamental_div_mod_converse(-1, w, -1, w - 1);
                vstd::arithmetic::div_mod::lemma_fundamental_div_mod_converse(
                    (w - 1) + w,
                    w,
                    1,
                    w - 1,
                );
            }
            width - 1
        } else {
            proof {
                vstd::arithmetic::div_mod::lemma_small_mod((col - 1) as nat, w as nat);
                vstd::arithmetic::div_mod::lemma_fundamental_div_mod_converse(
                    (col - 1) + w,
                    w,
                    1,
                    col - 1,
                );
            }
            col - 1
        }
    }
}

/// Scan up to `steps` cells from `(row, col)` in column direction `col_step`,
/// wrapping in longitude. Returns the column of the first mountain cell found.
pub fn scan_direction(
    row: usize,
    col: usize,
    col_step: i64,
    steps: usize,
    width: usize,
    is_mountain: &Vec<bool>,
) -> (found: Option<usize>)
    requires
        col_step == 1 || col_step == -1,
        1 <= width <= 0xffff_ffff,
        col < width,
        (row + 1) * width <= is_mountain@.len(),
        (row + 1) * width <= usize::MAX,
    ensures
        ({
            let spec_found = first_mountain(
                is_mountain@,
                row as int,
                col as int,
                col_step as int,
                steps as int,
                width as int,
            );
            match found {
                Some(c) => spec_found == Some(c as int) && c < width,
                None => spec_found is None,
            }
        }),
{
    let mut cur: usize = col;
    let mut s: usize = 0;
    while s < steps
        invariant
            s <= steps,
            col_step == 1 || col_step == -1,
            1 <= width <= 0xffff_ffff,
            cur < width,
            (row + 1) * width <= is_mountain@.len(),
            (row + 1) * width <= usize::MAX,
            first_mountain(
                is_mountain@,
                row as int,
                col as int,
                col_step as int,
                steps as int,
                width as int,
            ) == first_mountain(
                is_mountain@,
                row as int,
                cur as int,
                col_step as int,
                (steps - s) as int,
                width as int,
            ),
        decreases steps - s,
    {
        let next = wrap_step(cur, col_step, width);
        proof {
            assert((row + 1) * width == row * width + width) by (nonlinear_arith);
            assert(row * width + next < (row + 1) * width);
        }
        if is_mountain[row * width + next] {
            return Some(next);
        }
        cur = next;
        s = s + 1;
    }
    None
}

/// Count the consecutive mountain cells that follow `col` in direction `dir`,
/// capped at `limit`.
fn mountain_run_length(
    row: usize,
    col: usize,
    dir: i64,
    limit: usize,
    width: usize,
    is_mountain: &Vec<bool>,
) -> (run: usize)
    requires
        dir == 1 || dir == -1,
        1 <= width <= 0xffff_ffff,
        col < width,
        (row + 1) * width <= is_mountain@.len(),
        (row + 1) * width <= usize::MAX,
    ensures
        run == mountain_run(
            is_mountain@,
            row as int,
            col as int,
            dir as int,
            limit as int,
            width as int,
        ),
{
    let mut cur: usize = col;
    let mut s: usize = 0;
    while s < limit
        invariant
            s <= limit,
            dir == 1 || dir == -1,
            1 <= width <= 0xffff_ffff,
            cur < width,
            (row + 1) * width <= is_mountain@.len(),
            (row + 1) * width <= usize::MAX,
            mountain_run(
                is_mountain@,
                row as int,
                col as int,
                dir as int,
                limit as int,
                width as int,
            ) == s + mountain_run(
                is_mountain@,
                row as int,
                cur as int,
                dir as int,
                (limit - s) as int,
                width as int,
            ),
        decreases limit - s,
    {
        let next = wrap_step(cur, dir, width);
        proof {
            assert((row + 1) * width == row * width + width) by (nonlinear_arith);
            assert(row * width + next < (row + 1) * width);
        }
        if !is_mountain[row * width + next] {
            return s;
        }
        cur = next;
        s = s + 1;
    }
    limit
}

/// Count consecutive mountain cells centred on `mountain_col` in the given
/// row (both directions, wrapping). Returns at least 1.
pub fn belt_width_at(
    row: usize,
    mountain_col: usize,
    width: usize,
    is_mountain: &Vec<bool>,
) -> (belt: usize)
    requires
        1 <= width <= 0xffff_ffff,
        mountain_col < width,
        (row + 1) * width <= is_mountain@.len(),
        (row + 1) * width <= usize::MAX,
    ensures
        belt == belt_width_spec(is_mountain@, row as int, mountain_col as int, width as int),
        belt >= 1,
{
    let max_scan = if width / 4 > 4 { width / 4 } else { 4 };
    let east = mountain_run_length(row, mountain_col, 1, max_scan, width, is_mountain);
    let west = mountain_run_length(row, mountain_col, -1, max_scan, width, is_mountain);
    proof {
        lemma_mountain_run_bounded(
            is_mountain@, row as int, mountain_col as int, 1, max_scan as int, width as int);
        lemma_mountain_run_bounded(
            is_mountain@, row as int, mountain_col as int, -1, max_scan as int, width as int);
    }
    1 + east + west
}

/// A mountain run is never longer than its cap.
proof fn lemma_mountain_run_bounded(
    mask: Seq<bool>,
    row: int,
    col: int,
    dir: int,
    limit: int,
    w: int,
)
    ensures
        0 <= mountain_run(mask, row, col, dir, limit, w) <= vstd::math::max(limit, 0),
    decreases limit,
{
    if limit > 0 {
        let c = emod(col + dir, w);
        lemma_mountain_run_bounded(mask, row, c, dir, limit - 1, w);
    }
}

/// The per-cell orographic plan for a regime field: every mountain cell is
/// `Unchanged`; every other cell is `Leeward` of the first mountain upwind,
/// else `Windward` of the first mountain downwind, else `Unchanged`.
pub fn plan_orographic_correction(regime: &RegimeField) -> (plan: Vec<OrographicEffect>)
    requires
        regime.wf(),
        regime.height <= 0xffff_ffff,
        regime.width <= 0xffff_ffff,
    ensures
        plan@.len() == regime.width * regime.height,
        forall|i: int| 0 <= i < plan@.len()
            ==> plan@[i] == oro_effect_at(
                mountain_mask(regime.data@),
                i / regime.width as int,
                i % regime.width as int,
                regime.width as int,
                regime.height as int,
            ),
        forall|i: int|
            0 <= i < plan@.len()
                && regime.data@[i] == TectonicRegime::ActiveCompressional
            ==> plan@[i] == OrographicEffect::Unchanged,
{
    let width = regime.width;
    let height = regime.height;
    if width == 0 || height == 0 {
        let empty: Vec<OrographicEffect> = Vec::new();
        proof {
            assert(width * height == 0) by (nonlinear_arith)
                requires width == 0 || height == 0;
        }
        return empty;
    }
    let n = width * height;

    // Mountain mask: one flag per cell.
    let mut is_mountain: Vec<bool> = Vec::new();
    let mut i: usize = 0;
    while i < n
        invariant
            i <= n,
            n == width * height,
            regime.wf(),
            regime.width == width,
            regime.height == height,
            is_mountain@.len() == i,
            forall|k: int| 0 <= k < i ==> is_mountain@[k] == mountain_mask(regime.data@)[k],
        decreases n - i,
    {
        let m = match regime.data[i] {
            TectonicRegime::ActiveCompressional => true,
            _ => false,
        };
        is_mountain.push(m);
        i = i + 1;
    }
    proof {
        assert(is_mountain@ =~= mountain_mask(regime.data@));
    }

    let influence = if width / 8 > 4 { width / 8 } else { 4 };
    let mut plan: Vec<OrographicEffect> = Vec::new();
    let mut r: usize = 0;
    while r < height
        invariant
            r <= height,
            n == width * height,
            1 <= width <= 0xffff_ffff,
            1 <= height <= 0xffff_ffff,
            influence == vstd::math::max(width as int / 8, 4),
            is_mountain@ == mountain_mask(regime.data@),
            is_mountain@.len() == n,
            regime.wf(),
            regime.width == width,
            regime.height == height,
            plan@.len() == r * width,
            forall|i: int| 0 <= i < plan@.len()
                ==> plan@[i] == oro_effect_at(
                    is_mountain@, i / width as int, i % width as int,
                    width as int, height as int),
        decreases height - r,
    {
        proof {
            assert((r + 1) * width <= height * width) by (nonlinear_arith)
                requires r < height;
            assert(height * width == width * height) by (nonlinear_arith);
        }
        let eastward = wind_eastward(r, height);
        let upwind: i64 = if eastward { -1 } else { 1 };
        let downwind: i64 = -upwind;
        let mut c: usize = 0;
        while c < width
            invariant
                c <= width,
                r < height,
                n == width * height,
                1 <= width <= 0xffff_ffff,
                height <= 0xffff_ffff,
                influence == vstd::math::max(width as int / 8, 4),
                is_mountain@ == mountain_mask(regime.data@),
                is_mountain@.len() == n,
                (r + 1) * width <= n,
                regime.wf(),
                regime.width == width,
                regime.height == height,
                upwind == (if wind_eastward_at_row(r as int, height as int) { -1int } else { 1int }),
                downwind == -upwind,
                plan@.len() == r * width + c,
                forall|i: int| 0 <= i < plan@.len()
                    ==> plan@[i] == oro_effect_at(
                        is_mountain@, i / width as int, i % width as int,
                        width as int, height as int),
            decreases width - c,
        {
            proof {
                assert((r + 1) * width == r * width + width) by (nonlinear_arith);
                assert(r * width + c < (r + 1) * width);
            }
            let effect = if is_mountain[r * width + c] {
                OrographicEffect::Unchanged
            } else if let Some(mc) = scan_direction(r, c, upwind, influence, width, &is_mountain) {
                OrographicEffect::Leeward(belt_width_at(r, mc, width, &is_mountain))
            } else if let Some(mc) = scan_direction(r, c, downwind, influence, width, &is_mountain) {
                OrographicEffect::Windward(belt_width_at(r, mc, width, &is_mountain))
            } else {
                OrographicEffect::Unchanged
            };
            assert(effect == oro_effect_at(
                is_mountain@, r as int, c as int, width as int, height as int));
            proof {
                vstd::arithmetic::div_mod::lemma_fundamental_div_mod_converse(
                    r * width + c,
                    width as int,
                    r as int,
                    c as int,
                );
            }
            plan.push(effect);
            c = c + 1;
        }
        r = r + 1;
        proof {
            assert((r - 1) * width + width == r * width) by (nonlinear_arith);
        }
    }
    proof {
        assert(height * width == width * height) by (nonlinear_arith);
        assert forall|i: int|
            0 <= i < plan@.len() && regime.data@[i] == TectonicRegime::ActiveCompressional
            implies plan@[i] == OrographicEffect::Unchanged by {
            let w = width as int;
            vstd::arithmetic::div_mod::lemma_fundamental_div_mod(i, w);
            vstd::arithmetic::div_mod::lemma_mod_bound(i, w);
            assert((i / w) * w + i % w == i) by (nonlinear_arith)
                requires i == w * (i / w) + i % w;
            assert(mountain_mask(regime.data@)[i]);
        }
    }
    plan
}

/// The mountain mask of a regime raster: true where the regime is
/// `ActiveCompressional`.
pub open spec fn mountain_mask(data: Seq<TectonicRegime>) -> Seq<bool> {
    data.map(|_i: int, regime: TectonicRegime| regime == TectonicRegime::ActiveCompressional)
}

} // verus!

//! Grid geometry: tile addressing, cell-centred coordinates, and kernels.
//!
//! The global raster is an equirectangular grid with cell-centred sampling:
//! row `r` of `h` rows samples latitude `90·(h − 2r − 1)/h` degrees, column
//! `c` of `w` columns samples longitude `180·(2c + 1 − w)/w` degrees. Both are
//! exact rationals, carried here as numerator/denominator pairs, so the
//! cell → coordinates → cell round trip is proved exactly.

use vstd::prelude::*;

verus! {

/// A tile in a slippy-map (zoom/x/y) addressing scheme.
#[derive(Debug, Clone, Copy, PartialEq, Eq, Hash, Structural)]
pub struct TileAddr {
    pub zoom: u32,
    pub x: u32,
    pub y: u32,
}

impl TileAddr {
    pub fn new(zoom: u32, x: u32, y: u32) -> (tile: Self)
        ensures
            tile.zoom == zoom,
            tile.x == x,
            tile.y == y,
    {
        Self { zoom, x, y }
    }
}

/// Numerator of the cell-centre latitude of row `r` in an `h`-row grid;
/// the denominator is `h`. Equals `90·(h − 2r − 1)`.
pub open spec fn cell_lat_num(r: int, h: int) -> int {
    90 * (h - 2 * r - 1)
}

/// Numerator of the cell-centre longitude of column `c` in a `w`-column grid;
/// the denominator is `w`. Equals `180·(2c + 1 − w)`.
pub open spec fn cell_lon_num(c: int, w: int) -> int {
    180 * (2 * c + 1 - w)
}

/// The row whose latitude band contains `num/den` degrees:
/// `floor((90 − num/den)·h / 180)`.
pub open spec fn row_of_lat(num: int, den: int, h: int) -> int {
    ((90 * den - num) * h) / (180 * den)
}

/// The column whose longitude band contains `num/den` degrees:
/// `floor((num/den + 180)·w / 360)`.
pub open spec fn col_of_lon(num: int, den: int, w: int) -> int {
    ((num + 180 * den) * w) / (360 * den)
}

/// Cell-centre latitude of row `r`, as an exact rational (numerator, denominator).
pub fn cell_center_lat(r: usize, h: usize) -> (lat: (i64, i64))
    requires
        r < h,
        h <= 0xffff_ffff,
    ensures
        lat.0 == cell_lat_num(r as int, h as int),
        lat.1 == h,
{
    let num: i64 = 90 * (h as i64 - 2 * (r as i64) - 1);
    (num, h as i64)
}

/// Cell-centre longitude of column `c`, as an exact rational (numerator, denominator).
pub fn cell_center_lon(c: usize, w: usize) -> (lon: (i64, i64))
    requires
        c < w,
        w <= 0xffff_ffff,
    ensures
        lon.0 == cell_lon_num(c as int, w as int),
        lon.1 == w,
{
    let num: i64 = 180 * (2 * (c as i64) + 1 - w as i64);
    (num, w as i64)
}

/// The grid row containing latitude `num/den` degrees (south-exclusive:
/// the pole row boundary at −90° is left out, so the result is in range).
pub fn grid_row_of_lat(num: i64, den: i64, h: usize) -> (r: usize)
    requires
        1 <= den <= 0xffff_ffff,
        1 <= h <= 0xffff_ffff,
        -90 * den < num <= 90 * den,
    ensures
        r == row_of_lat(num as int, den as int, h as int),
        r < h,
{
    proof {
        assert(0 <= (90 * (den as int) - num as int) * (h as int) <= 0x1_0000_0000_0000_0000_0000)
            by (nonlinear_arith)
            requires
                0 <= 90 * (den as int) - (num as int) <= 180 * (den as int),
                1 <= den as int <= 0xffff_ffff,
                1 <= h as int <= 0xffff_ffff,
        ;
    }
    let x: i128 = (90 * (den as i128) - num as i128) * (h as i128);
    let d: i128 = 180 * (den as i128);
    let q: i128 = x / d;
    proof {
        assert(0 <= x < d * (h as i128)) by (nonlinear_arith)
            requires
                0 <= 90 * (den as i128) - (num as i128) < 180 * (den as i128),
                x == (90 * (den as i128) - num as i128) * (h as i128),
                d == 180 * (den as i128),
                1 <= h as i128,
        ;

        assert(q < h as i128) by {
            if q >= h as i128 {
                vstd::arithmetic::div_mod::lemma_fundamental_div_mod(x as int, d as int);
                assert(x as int == d as int * (x as int / d as int) + x as int % d as int);
                assert(d as int * q >= d as int * (h as int)) by (nonlinear_arith)
                    requires q >= h as int, d as int >= 1;
                assert(x as int >= d as int * (h as int)) by (nonlinear_arith)
                    requires
                        x as int == d as int * q + x as int % d as int,
                        d as int * q >= d as int * (h as int),
                        x as int % d as int >= 0,
                ;
                assert(d as int * (h as int) == (h as i128) * d as int) by (nonlinear_arith);
                assert(false);
            }
        }
        assert(q >= 0) by {
            vstd::arithmetic::div_mod::lemma_div_is_ordered(0, x as int, d as int);
        }
    }
    q as usize
}

/// The grid column containing longitude `num/den` degrees (east-exclusive:
/// the antimeridian at +180° is left out, so the result is in range).
pub fn grid_col_of_lon(num: i64, den: i64, w: usize) -> (c: usize)
    requires
        1 <= den <= 0xffff_ffff,
        1 <= w <= 0xffff_ffff,
        -180 * den <= num < 180 * den,
    ensures
        c == col_of_lon(num as int, den as int, w as int),
        c < w,
{
    proof {
        assert(0 <= (num as int + 180 * (den as int)) * (w as int) <= 0x2_0000_0000_0000_0000_0000)
            by (nonlinear_arith)
            requires
                0 <= num as int + 180 * (den as int) <= 360 * (den as int),
                1 <= den as int <= 0xffff_ffff,
                1 <= w as int <= 0xffff_ffff,
        ;
    }
    let x: i128 = (num as i128 + 180 * (den as i128)) * (w as i128);
    let d: i128 = 360 * (den as i128);
    let q: i128 = x / d;
    proof {
        assert(0 <= x < d * (w as i128)) by (nonlinear_arith)
            requires
                0 <= (num as i128) + 180 * (den as i128) < 360 * (den as i128),
                x == (num as i128 + 180 * (den as i128)) * (w as i128),
                d == 360 * (den as i128),
                1 <= w as i128,
        ;

        assert(q < w as i128) by {
            if q >= w as i128 {
                vstd::arithmetic::div_mod::lemma_fundamental_div_mod(x as int, d as int);
                assert(d as int * q >= d as int * (w as int)) by (nonlinear_arith)
                    requires q >= w as int, d as int >= 1;
                assert(x as int >= d as int * (w as int)) by (nonlinear_arith)
                    requires
                        x as int == d as int * q + x as int % d as int,
                        d as int * q >= d as int * (w as int),
                        x as int % d as int >= 0,
                ;
                assert(d as int * (w as int) == (w as i128) * d as int) by (nonlinear_arith);
                assert(false);
            }
        }
        assert(q >= 0) by {
            vstd::arithmetic::div_mod::lemma_div_is_ordered(0, x as int, d as int);
        }
    }
    q as usize
}

/// Round trip: mapping an interior cell to its centre coordinates and back
/// returns the same cell. This holds for every cell of the grid.
pub proof fn lemma_cell_roundtrip(r: int, c: int, w: int, h: int)
    requires
        0 <= r < h,
        0 <= c < w,
    ensures
        row_of_lat(cell_lat_num(r, h), h, h) == r,
        col_of_lon(cell_lon_num(c, w), w, w) == c,
{
    assert(90 * h - cell_lat_num(r, h) == 180 * r + 90);
    assert((180 * r + 90) * h == r * (180 * h) + 90 * h) by (nonlinear_arith);
    vstd::arithmetic::div_mod::lemma_fundamental_div_mod_converse(
        (180 * r + 90) * h,
        180 * h,
        r,
        90 * h,
    );
    assert((90 * h - cell_lat_num(r, h)) * h == (180 * r + 90) * h);

    assert(cell_lon_num(c, w) + 180 * w == 360 * c + 180);
    assert((360 * c + 180) * w == c * (360 * w) + 180 * w) by (nonlinear_arith);
    vstd::arithmetic::div_mod::lemma_fundamental_div_mod_converse(
        (360 * c + 180) * w,
        360 * w,
        c,
        180 * w,
    );
    assert((cell_lon_num(c, w) + 180 * w) * w == (360 * c + 180) * w);
}

/// Offsets `(dr, dc)` of a circular kernel: every pair with
/// `dr² + dc² ≤ radius²`, listed once each, in row-major order.
pub fn circular_kernel(radius: usize) -> (kernel: Vec<(i64, i64)>)
    requires
        radius <= 0xffff,
    ensures
        forall|k: int| 0 <= k < kernel@.len()
            ==> {
                let (dr, dc) = #[trigger] kernel@[k];
                -(radius as int) <= dr <= radius as int
                    && -(radius as int) <= dc <= radius as int
                    && dr * dr + dc * dc <= (radius * radius) as int
            },
        forall|dr: int, dc: int|
            -(radius as int) <= dr <= radius as int
                && -(radius as int) <= dc <= radius as int
                && #[trigger] (dr * dr + dc * dc) <= (radius * radius) as int
            ==> kernel@.contains((dr as i64, dc as i64)),
        forall|k1: int, k2: int| 0 <= k1 < k2 < kernel@.len()
            ==> kernel@[k1] != kernel@[k2],
{
    let rad = radius as i64;
    proof {
        assert(0 <= rad as int * rad as int <= 0xffff * 0xffff) by (nonlinear_arith)
            requires 0 <= rad as int <= 0xffff;
    }
    let rr = rad * rad;
    let mut kernel: Vec<(i64, i64)> = Vec::new();
    let mut dr: i64 = -rad;
    while dr <= rad
        invariant
            -rad <= dr <= rad + 1,
            rad == radius,
            0 <= rad <= 0xffff,
            rr == rad * rad,
            forall|k: int| 0 <= k < kernel@.len()
                ==> {
                    let (a, b) = #[trigger] kernel@[k];
                    -rad <= a < dr && -rad <= b <= rad && a * a + b * b <= rr
                },
            forall|a: int, b: int|
                -rad <= a < dr && -rad <= b <= rad && #[trigger] (a * a + b * b) <= rr
                ==> kernel@.contains((a as i64, b as i64)),
            forall|k1: int, k2: int| 0 <= k1 < k2 < kernel@.len()
                ==> kernel@[k1] != kernel@[k2],
        decreases rad + 1 - dr,
    {
        let mut dc: i64 = -rad;
        while dc <= rad
            invariant
                -rad <= dr <= rad,
                -rad <= dc <= rad + 1,
                rad == radius,
                0 <= rad <= 0xffff,
                rr == rad * rad,
                forall|k: int| 0 <= k < kernel@.len()
                    ==> {
                        let (a, b) = #[trigger] kernel@[k];
                        (-rad <= a < dr || (a == dr && -rad <= b < dc))
                            && -rad <= b <= rad
                            && a * a + b * b <= rr
                    },
                forall|a: int, b: int|
                    (-rad <= a < dr || (a == dr && -rad <= b < dc))
                        && -rad <= b <= rad
                        && #[trigger] (a * a + b * b) <= rr
                    ==> kernel@.contains((a as i64, b as i64)),
                forall|k1: int, k2: int| 0 <= k1 < k2 < kernel@.len()
                    ==> kernel@[k1] != kernel@[k2],
            decreases rad + 1 - dc,
        {
            proof {
                assert(0 <= dr as int * dr as int <= 0xffff * 0xffff) by (nonlinear_arith)
                    requires -0xffff <= dr as int <= 0xffff;
                assert(0 <= dc as int * dc as int <= 0xffff * 0xffff) by (nonlinear_arith)
                    requires -0xffff <= dc as int <= 0xffff;
            }
            if dr * dr + dc * dc <= rr {
                let ghost before = kernel@;
                kernel.push((dr, dc));
                proof {
                    assert(kernel@ == before.push((dr, dc)));
                    assert(forall|a: int, b: int|
                        (-rad <= a < dr || (a == dr && -rad <= b < dc + 1))
                            && -rad <= b <= rad
                            && #[trigger] (a * a + b * b) <= rr as int
                        ==> kernel@.contains((a as i64, b as i64))) by {
                        assert forall|a: int, b: int|
                            (-rad <= a < dr || (a == dr && -rad <= b < dc + 1))
                                && -rad <= b <= rad
                                && #[trigger] (a * a + b * b) <= rr as int
                            implies kernel@.contains((a as i64, b as i64)) by {
                            if a == dr && b == dc {
                                assert(kernel@[kernel@.len() - 1] == (dr, dc));
                            } else {
                                assert(before.contains((a as i64, b as i64)));
                                let k = choose|k: int|
                                    0 <= k < before.len() && before[k] == (a as i64, b as i64);
                                assert(kernel@[k] == (a as i64, b as i64));
                            }
                        }
                    }
                }
            }
            dc = dc + 1;
        }
        dr = dr + 1;
    }
    kernel
}

} // verus!

//! D8 flow fields.
//!
//! Direction encoding: 0 = sink/flat, 1 = N, 2 = NE, 3 = E, 4 = SE, 5 = S,
//! 6 = SW, 7 = W, 8 = NW. The flow field itself is produced by steepest-descent
//! routing over the (floating-point) heightfield; this module holds the raster
//! type, the verified direction geometry, and the donor relation every
//! downstream pass relies on.

use vstd::prelude::*;

verus! {

/// D8 flow routing result: per-cell direction code and upstream cell count
/// (the cell itself included).
pub struct FlowField {
    /// Direction code: 0 = sink/flat, 1–8 = N/NE/E/SE/S/SW/W/NW.
    pub direction: Vec<u8>,
    /// Upstream drainage area including self (cells).
    pub accumulation: Vec<u32>,
    pub width: usize,
    pub height: usize,
}

/// Row offset of direction code 1–8.
pub open spec fn d8_dr(code: int) -> int {
    if code == 1 { -1 }      // N
    else if code == 2 { -1 } // NE
    else if code == 3 { 0 }  // E
    else if code == 4 { 1 }  // SE
    else if code == 5 { 1 }  // S
    else if code == 6 { 1 }  // SW
    else if code == 7 { 0 }  // W
    else { -1 }              // NW
}

/// Column offset of direction code 1–8.
pub open spec fn d8_dc(code: int) -> int {
    if code == 1 { 0 }       // N
    else if code == 2 { 1 }  // NE
    else if code == 3 { 1 }  // E
    else if code == 4 { 1 }  // SE
    else if code == 5 { 0 }  // S
    else if code == 6 { -1 } // SW
    else if code == 7 { -1 } // W
    else { -1 }              // NW
}

/// The `(Δrow, Δcol)` offset of a direction code.
pub fn d8_offset(code: u8) -> (off: (i8, i8))
    requires
        1 <= code <= 8,
    ensures
        off.0 == d8_dr(code as int),
        off.1 == d8_dc(code as int),
{
    match code {
        1 => (-1, 0),
        2 => (-1, 1),
        3 => (0, 1),
        4 => (1, 1),
        5 => (1, 0),
        6 => (1, -1),
        7 => (0, -1),
        _ => (-1, -1),
    }
}

/// Cell that cell `i` drains to under the direction raster `dirs` in a
/// `w × h` grid: none when `i` is a sink or its neighbour lies off the raster.
pub open spec fn downstream_of(dirs: Seq<u8>, w: int, h: int, i: int) -> Option<int> {
    let code = dirs[i] as int;
    if code == 0 {
        None
    } else {
        let nr = i / w + d8_dr(code);
        let nc = i % w + d8_dc(code);
        if 0 <= nr < h && 0 <= nc < w {
            Some(nr * w + nc)
        } else {
            None
        }
    }
}

/// Cell `j` is a donor of cell `i`: its flow path enters `i` directly.
pub open spec fn is_donor(dirs: Seq<u8>, w: int, h: int, j: int, i: int) -> bool {
    &&& 0 <= j < dirs.len()
    &&& downstream_of(dirs, w, h, j) == Some(i)
}

/// The outlet a cell's flow path reaches within `fuel` steps, if any.
pub open spec fn terminal_of(dirs: Seq<u8>, w: int, h: int, i: int, fuel: int) -> Option<int>
    decreases fuel,
{
    match downstream_of(dirs, w, h, i) {
        Option::None => Some(i),
        Option::Some(j) => if fuel <= 0 {
            None
        } else {
            terminal_of(dirs, w, h, j, fuel - 1)
        },
    }
}

impl FlowField {
    /// The raster invariant: both rasters cover the grid and every direction
    /// code is valid.
    pub open spec fn wf(self) -> bool {
        &&& self.direction@.len() == self.width * self.height
        &&& self.accumulation@.len() == self.width * self.height
        &&& self.width * self.height <= usize::MAX
        &&& forall|i: int| 0 <= i < self.direction@.len() ==> #[trigger] self.direction@[i] <= 8
    }

    /// Where cell `i` drains to, if anywhere on the raster.
    pub fn downstream_index(&self, i: usize) -> (ds: Option<usize>)
        requires
            self.wf(),
            self.width >= 1,
            i < self.width * self.height,
        ensures
            ({
                let spec_ds = downstream_of(
                    self.direction@,
                    self.width as int,
                    self.height as int,
                    i as int,
                );
                match ds {
                    Some(j) => spec_ds == Some(j as int) && j < self.width * self.height,
                    None => spec_ds is None,
                }
            }),
    {
        downstream_cell(&self.direction, self.width, self.height, i)
    }
}

/// A donor sits in one of the eight cells around its target: if `j` drains to
/// `i`, then `i` lies exactly one direction step from `j`.
pub proof fn lemma_donor_is_neighbour(dirs: Seq<u8>, w: int, h: int, j: int, i: int)
    requires
        w >= 1,
        is_donor(dirs, w, h, j, i),
        0 <= i < w * h,
    ensures
        dirs[j] as int != 0,
        i / w == j / w + d8_dr(dirs[j] as int),
        i % w == j % w + d8_dc(dirs[j] as int),
        j == (j / w) * w + (j % w),
        i == (i / w) * w + (i % w),
        j != i,
{
    let code = dirs[j] as int;
    let nr = j / w + d8_dr(code);
    let nc = j % w + d8_dc(code);
    vstd::arithmetic::div_mod::lemma_fundamental_div_mod(j, w);
    vstd::arithmetic::div_mod::lemma_mod_bound(j, w);
    vstd::arithmetic::div_mod::lemma_fundamental_div_mod(i, w);
    vstd::arithmetic::div_mod::lemma_mod_bound(i, w);
    assert(i == nr * w + nc);
    vstd::arithmetic::div_mod::lemma_fundamental_div_mod_converse(nr * w + nc, w, nr, nc);
    assert(i / w == nr && i % w == nc);
    assert((j / w) * w + (j % w) == j) by (nonlinear_arith)
        requires j == w * (j / w) + j % w;
    assert((i / w) * w + (i % w) == i) by (nonlinear_arith)
        requires i == w * (i / w) + i % w;
    if j == i {
        assert(d8_dr(code) != 0 || d8_dc(code) != 0);
        assert(false);
    }
}

/// The donor of `i` through direction `code`: the neighbour one step against
/// `code` whose own direction is exactly `code`, when it is on the raster.
pub open spec fn donor_at(dirs: Seq<u8>, w: int, h: int, i: int, code: int) -> Option<int> {
    let jr = i / w - d8_dr(code);
    let jc = i % w - d8_dc(code);
    if 0 <= jr < h && 0 <= jc < w && dirs[jr * w + jc] as int == code {
        Some(jr * w + jc)
    } else {
        None
    }
}

/// A donor found through a code really is a donor.
pub proof fn lemma_donor_at_is_donor(dirs: Seq<u8>, w: int, h: int, i: int, code: int)
    requires
        w >= 1,
        dirs.len() == w * h,
        0 <= i < w * h,
        1 <= code <= 8,
        donor_at(dirs, w, h, i, code) is Some,
    ensures
        ({
            let j = donor_at(dirs, w, h, i, code)->Some_0;
            0 <= j < w * h && is_donor(dirs, w, h, j, i) && dirs[j] as int == code
        }),
{
    let jr = i / w - d8_dr(code);
    let jc = i % w - d8_dc(code);
    let j = jr * w + jc;
    crate::regime::lemma_cell_index_in_range(jr, jc, w, h);
    vstd::arithmetic::div_mod::lemma_fundamental_div_mod_converse(j, w, jr, jc);
    vstd::arithmetic::div_mod::lemma_fundamental_div_mod(i, w);
    vstd::arithmetic::div_mod::lemma_mod_bound(i, w);
    assert(j / w + d8_dr(code) == i / w);
    assert(j % w + d8_dc(code) == i % w);
    assert((i / w) * w + (i % w) == i) by (nonlinear_arith)
        requires i == w * (i / w) + i % w;
    assert(downstream_of(dirs, w, h, j) == Some(i));
}

/// Every donor is found through its own direction code.
pub proof fn lemma_donor_has_code(dirs: Seq<u8>, w: int, h: int, j: int, i: int)
    requires
        w >= 1,
        dirs.len() == w * h,
        0 <= i < w * h,
        is_donor(dirs, w, h, j, i),
        dirs[j] <= 8,
    ensures
        donor_at(dirs, w, h, i, dirs[j] as int) == Some(j),
{
    crate::flow::lemma_donor_is_neighbour(dirs, w, h, j, i);
    let code = dirs[j] as int;
    assert(i / w - d8_dr(code) == j / w);
    assert(i % w - d8_dc(code) == j % w);
    vstd::arithmetic::div_mod::lemma_fundamental_div_mod(j, w);
    vstd::arithmetic::div_mod::lemma_mod_bound(j, w);
    assert(0 <= j / w && (j / w) < (h as int)) by (nonlinear_arith)
        requires
            j == w * (j / w) + j % w,
            0 <= j % w && (j % w) < (w as int),
            0 <= j && j < w * h,
            w >= 1,
    ;
}


/// Number of donors of `i` with direction codes below `c`.
pub open spec fn donor_count(dirs: Seq<u8>, w: int, h: int, i: int, c: int) -> int
    decreases c,
{
    if c <= 1 {
        0
    } else {
        donor_count(dirs, w, h, i, c - 1) + match donor_at(dirs, w, h, i, c - 1) {
            Option::Some(_) => 1int,
            Option::None => 0int,
        }
    }
}

/// Number of donors of `i` with codes below `c` that are marked done.
pub open spec fn done_donor_count(
    done: Seq<bool>,
    dirs: Seq<u8>,
    w: int,
    h: int,
    i: int,
    c: int,
) -> int
    decreases c,
{
    if c <= 1 {
        0
    } else {
        done_donor_count(done, dirs, w, h, i, c - 1) + match donor_at(dirs, w, h, i, c - 1) {
            Option::Some(j) => if done[j] { 1int } else { 0int },
            Option::None => 0int,
        }
    }
}

/// Sum of the accumulation of the donors of `i` with codes below `c`.
pub open spec fn donor_acc_sum(acc: Seq<u32>, dirs: Seq<u8>, w: int, h: int, i: int, c: int) -> int
    decreases c,
{
    if c <= 1 {
        0
    } else {
        donor_acc_sum(acc, dirs, w, h, i, c - 1) + match donor_at(dirs, w, h, i, c - 1) {
            Option::Some(j) => acc[j] as int,
            Option::None => 0int,
        }
    }
}

/// The donor sum is never negative.
proof fn lemma_donor_acc_sum_nonneg(acc: Seq<u32>, dirs: Seq<u8>, w: int, h: int, i: int, c: int)
    ensures
        donor_acc_sum(acc, dirs, w, h, i, c) >= 0,
    decreases c,
{
    if c > 1 {
        lemma_donor_acc_sum_nonneg(acc, dirs, w, h, i, c - 1);
    }
}

/// The donor sum ignores accumulation changes at cells that are not donors.
proof fn lemma_donor_acc_sum_ignore(
    acc: Seq<u32>,
    dirs: Seq<u8>,
    w: int,
    h: int,
    i: int,
    u: int,
    x: u32,
    c: int,
)
    requires
        0 <= u < acc.len(),
        acc.len() == w * h,
        forall|code: int| 1 <= code <= 8 ==> #[trigger] donor_at(dirs, w, h, i, code) != Some(u),
        1 <= c <= 9,
    ensures
        donor_acc_sum(acc.update(u, x), dirs, w, h, i, c) == donor_acc_sum(acc, dirs, w, h, i, c),
    decreases c,
{
    if c > 1 {
        lemma_donor_acc_sum_ignore(acc, dirs, w, h, i, u, x, c - 1);
        match donor_at(dirs, w, h, i, c - 1) {
            Option::Some(j) => {
                assert(donor_at(dirs, w, h, i, c - 1) != Some(u));
                let jr = i / w - d8_dr(c - 1);
                let jc = i % w - d8_dc(c - 1);
                crate::regime::lemma_cell_index_in_range(jr, jc, w, h);
                assert(acc.update(u, x)[j] == acc[j]);
            },
            Option::None => {},
        }
    }
}

/// The done-donor count sits between zero and the donor count.
proof fn lemma_done_donor_count_bounds(
    done: Seq<bool>,
    dirs: Seq<u8>,
    w: int,
    h: int,
    i: int,
    c: int,
)
    ensures
        0 <= done_donor_count(done, dirs, w, h, i, c) <= donor_count(dirs, w, h, i, c),
        donor_count(dirs, w, h, i, c) <= vstd::math::max(c - 1, 0),
    decreases c,
{
    if c > 1 {
        lemma_done_donor_count_bounds(done, dirs, w, h, i, c - 1);
    }
}

/// With nothing done yet, no donor is counted as done.
proof fn lemma_done_donor_count_none(
    done: Seq<bool>,
    dirs: Seq<u8>,
    w: int,
    h: int,
    i: int,
    c: int,
)
    requires
        forall|t: int| 0 <= t < done.len() ==> !(#[trigger] done[t]),
        done.len() == w * h,
        0 <= i < w * h,
        w >= 1,
        dirs.len() == w * h,
        c <= 9,
    ensures
        done_donor_count(done, dirs, w, h, i, c) == 0,
    decreases c,
{
    if c > 1 {
        lemma_done_donor_count_none(done, dirs, w, h, i, c - 1);
        match donor_at(dirs, w, h, i, c - 1) {
            Option::Some(j) => {
                lemma_donor_at_is_donor(dirs, w, h, i, c - 1);
                assert(!done[j]);
            },
            Option::None => {},
        }
    }
}

/// Marking a cell done that is no donor of `i` leaves `i`'s done count alone.
proof fn lemma_done_count_ignore(
    done: Seq<bool>,
    dirs: Seq<u8>,
    w: int,
    h: int,
    i: int,
    u: int,
    c: int,
)
    requires
        0 <= u < done.len(),
        done.len() == w * h,
        forall|code: int| 1 <= code <= 8 ==> #[trigger] donor_at(dirs, w, h, i, code) != Some(u),
        1 <= c <= 9,
    ensures
        done_donor_count(done.update(u, true), dirs, w, h, i, c)
            == done_donor_count(done, dirs, w, h, i, c),
    decreases c,
{
    if c > 1 {
        lemma_done_count_ignore(done, dirs, w, h, i, u, c - 1);
        match donor_at(dirs, w, h, i, c - 1) {
            Option::Some(j) => {
                assert(donor_at(dirs, w, h, i, c - 1) != Some(u));
                let jr = i / w - d8_dr(c - 1);
                let jc = i % w - d8_dc(c - 1);
                crate::regime::lemma_cell_index_in_range(jr, jc, w, h);
                assert(done.update(u, true)[j] == done[j]);
            },
            Option::None => {},
        }
    }
}

/// Marking a donor of `i` done raises `i`'s done count by exactly one, once
/// the donor's own direction code is within the scanned range.
proof fn lemma_done_count_mark_donor(
    done: Seq<bool>,
    dirs: Seq<u8>,
    w: int,
    h: int,
    i: int,
    u: int,
    c: int,
)
    requires
        0 <= u < done.len(),
        done.len() == w * h,
        dirs.len() == w * h,
        w >= 1,
        0 <= i < w * h,
        1 <= dirs[u] as int <= 8,
        donor_at(dirs, w, h, i, dirs[u] as int) == Some(u),
        !done[u],
        1 <= c <= 9,
    ensures
        done_donor_count(done.update(u, true), dirs, w, h, i, c)
            == done_donor_count(done, dirs, w, h, i, c)
                + if c > dirs[u] as int { 1int } else { 0int },
    decreases c,
{
    if c > 1 {
        lemma_done_count_mark_donor(done, dirs, w, h, i, u, c - 1);
        match donor_at(dirs, w, h, i, c - 1) {
            Option::Some(j) => {
                lemma_donor_at_is_donor(dirs, w, h, i, c - 1);
                assert(dirs[j] as int == c - 1);
                if j == u {
                    assert(c - 1 == dirs[u] as int);
                    assert(done.update(u, true)[j]);
                } else {
                    assert(done.update(u, true)[j] == done[j]);
                }
            },
            Option::None => {},
        }
    }
}

/// While a donor of `i` is not done, the done count stays strictly below the
/// donor count.
proof fn lemma_undone_donor_strict(
    done: Seq<bool>,
    dirs: Seq<u8>,
    w: int,
    h: int,
    i: int,
    u: int,
    c: int,
)
    requires
        done.len() == w * h,
        dirs.len() == w * h,
        w >= 1,
        0 <= i < w * h,
        1 <= dirs[u] as int <= 8,
        donor_at(dirs, w, h, i, dirs[u] as int) == Some(u),
        0 <= u < done.len(),
        !done[u],
        (dirs[u] as int) < c && c <= 9,
    ensures
        done_donor_count(done, dirs, w, h, i, c) <= donor_count(dirs, w, h, i, c) - 1,
    decreases c,
{
    if c - 1 == dirs[u] as int {
        lemma_done_donor_count_bounds(done, dirs, w, h, i, c - 1);
    } else {
        lemma_undone_donor_strict(done, dirs, w, h, i, u, c - 1);
    }
}

/// When the done count reaches the donor count, every donor is done.
proof fn lemma_full_done_count_means_all(
    done: Seq<bool>,
    dirs: Seq<u8>,
    w: int,
    h: int,
    i: int,
    c: int,
)
    requires
        done_donor_count(done, dirs, w, h, i, c) == donor_count(dirs, w, h, i, c),
        1 <= c <= 9,
    ensures
        forall|code: int| 1 <= code < c && #[trigger] donor_at(dirs, w, h, i, code) is Some
            ==> done[donor_at(dirs, w, h, i, code)->Some_0],
    decreases c,
{
    if c > 1 {
        lemma_done_donor_count_bounds(done, dirs, w, h, i, c - 1);
        match donor_at(dirs, w, h, i, c - 1) {
            Option::Some(j) => {
                assert(done_donor_count(done, dirs, w, h, i, c - 1)
                    == donor_count(dirs, w, h, i, c - 1));
            },
            Option::None => {},
        }
        lemma_full_done_count_means_all(done, dirs, w, h, i, c - 1);
    }
}

/// No cell is its own donor.
proof fn lemma_no_self_donor(dirs: Seq<u8>, w: int, h: int, i: int, code: int)
    requires
        w >= 1,
        dirs.len() == w * h,
        0 <= i < w * h,
        1 <= code <= 8,
    ensures
        donor_at(dirs, w, h, i, code) != Some(i),
{
    if donor_at(dirs, w, h, i, code) == Some(i) {
        lemma_donor_at_is_donor(dirs, w, h, i, code);
        lemma_donor_is_neighbour(dirs, w, h, i, i);
    }
}

/// Number of done cells among the first `k`.
pub open spec fn count_done(done: Seq<bool>, k: int) -> int
    decreases k,
{
    if k <= 0 {
        0
    } else {
        count_done(done, k - 1) + if done[k - 1] { 1int } else { 0int }
    }
}

proof fn lemma_count_done_bounds(done: Seq<bool>, k: int)
    requires
        0 <= k,
    ensures
        0 <= count_done(done, k) <= k,
    decreases k,
{
    if k > 0 {
        lemma_count_done_bounds(done, k - 1);
    }
}

/// Marking one undone cell raises the done total by one.
proof fn lemma_count_done_mark(done: Seq<bool>, u: int, k: int)
    requires
        0 <= u < done.len(),
        !done[u],
        0 <= k <= done.len(),
    ensures
        count_done(done.update(u, true), k)
            == count_done(done, k) + if u < k { 1int } else { 0int },
    decreases k,
{
    if k > 0 {
        lemma_count_done_mark(done, u, k - 1);
    }
}

/// A full done count means every cell is done.
proof fn lemma_count_done_full(done: Seq<bool>, k: int)
    requires
        0 <= k <= done.len(),
        count_done(done, k) == k,
    ensures
        forall|t: int| 0 <= t < k ==> #[trigger] done[t],
    decreases k,
{
    if k > 0 {
        lemma_count_done_bounds(done, k - 1);
        lemma_count_done_full(done, k - 1);
    }
}

/// An undone cell keeps the done total below the prefix length.
proof fn lemma_count_done_missing(done: Seq<bool>, u: int, k: int)
    requires
        0 <= u < k,
        !done[u],
    ensures
        count_done(done, k) <= k - 1,
    decreases k,
{
    lemma_count_done_bounds(done, k - 1);
    if u < k - 1 {
        lemma_count_done_missing(done, u, k - 1);
    }
}


/// Accumulation mass of the donors of `i` among the first `k` cells.
spec fn donors_mass(acc: Seq<u32>, dirs: Seq<u8>, w: int, h: int, i: int, k: int) -> int
    decreases k,
{
    if k <= 0 {
        0
    } else {
        donors_mass(acc, dirs, w, h, i, k - 1)
            + if downstream_of(dirs, w, h, k - 1) == Some(i) { acc[k - 1] as int } else { 0int }
    }
}

/// Donor accumulation gathered by codes below `c`, restricted to donors with
/// raster index below `k`.
spec fn code_sum_below(acc: Seq<u32>, dirs: Seq<u8>, w: int, h: int, i: int, k: int, c: int) -> int
    decreases c,
{
    if c <= 1 {
        0
    } else {
        code_sum_below(acc, dirs, w, h, i, k, c - 1) + match donor_at(dirs, w, h, i, c - 1) {
            Option::Some(j) => if j < k { acc[j] as int } else { 0int },
            Option::None => 0int,
        }
    }
}

/// With no index cut-off, the code-indexed sum is the donor accumulation sum.
proof fn lemma_code_sum_full(acc: Seq<u32>, dirs: Seq<u8>, w: int, h: int, i: int, c: int)
    requires
        w >= 1,
        dirs.len() == w * h,
        0 <= i < w * h,
        1 <= c <= 9,
    ensures
        code_sum_below(acc, dirs, w, h, i, w * h, c) == donor_acc_sum(acc, dirs, w, h, i, c),
    decreases c,
{
    if c > 1 {
        lemma_code_sum_full(acc, dirs, w, h, i, c - 1);
        match donor_at(dirs, w, h, i, c - 1) {
            Option::Some(j) => {
                lemma_donor_at_is_donor(dirs, w, h, i, c - 1);
            },
            Option::None => {},
        }
    }
}

/// No donor has a negative index.
proof fn lemma_code_sum_below_zero(acc: Seq<u32>, dirs: Seq<u8>, w: int, h: int, i: int, c: int)
    requires
        w >= 1,
        dirs.len() == w * h,
        0 <= i < w * h,
        1 <= c <= 9,
    ensures
        code_sum_below(acc, dirs, w, h, i, 0, c) == 0,
    decreases c,
{
    if c > 1 {
        lemma_code_sum_below_zero(acc, dirs, w, h, i, c - 1);
        match donor_at(dirs, w, h, i, c - 1) {
            Option::Some(j) => {
                lemma_donor_at_is_donor(dirs, w, h, i, c - 1);
            },
            Option::None => {},
        }
    }
}

/// Raising the index cut-off by one admits at most the one donor that sits
/// there, found through its own direction code.
proof fn lemma_code_sum_bump(
    acc: Seq<u32>,
    dirs: Seq<u8>,
    w: int,
    h: int,
    i: int,
    k: int,
    c: int,
)
    requires
        w >= 1,
        dirs.len() == w * h,
        forall|t: int| 0 <= t < dirs.len() ==> #[trigger] dirs[t] <= 8,
        0 <= i < w * h,
        1 <= k <= w * h,
        1 <= c <= 9,
    ensures
        code_sum_below(acc, dirs, w, h, i, k, c) == code_sum_below(acc, dirs, w, h, i, k - 1, c)
            + if downstream_of(dirs, w, h, k - 1) == Some(i) && 1 <= dirs[k - 1] as int
                && (dirs[k - 1] as int) < c {
                acc[k - 1] as int
            } else {
                0int
            },
    decreases c,
{
    if c > 1 {
        lemma_code_sum_bump(acc, dirs, w, h, i, k, c - 1);
        match donor_at(dirs, w, h, i, c - 1) {
            Option::Some(j) => {
                lemma_donor_at_is_donor(dirs, w, h, i, c - 1);
                if j == k - 1 {
                    assert(downstream_of(dirs, w, h, k - 1) == Some(i));
                    assert(dirs[k - 1] as int == c - 1);
                } else {
                    if downstream_of(dirs, w, h, k - 1) == Some(i)
                        && dirs[k - 1] as int == c - 1 {
                        lemma_donor_has_code(dirs, w, h, k - 1, i);
                        assert(false);
                    }
                }
            },
            Option::None => {
                if downstream_of(dirs, w, h, k - 1) == Some(i) && dirs[k - 1] as int == c - 1 {
                    lemma_donor_has_code(dirs, w, h, k - 1, i);
                    assert(false);
                }
            },
        }
    }
}

/// The index-ordered donor mass equals the code-ordered donor sum.
proof fn lemma_donors_mass_eq(acc: Seq<u32>, dirs: Seq<u8>, w: int, h: int, i: int, k: int)
    requires
        w >= 1,
        dirs.len() == w * h,
        forall|t: int| 0 <= t < dirs.len() ==> #[trigger] dirs[t] <= 8,
        0 <= i < w * h,
        0 <= k <= w * h,
    ensures
        donors_mass(acc, dirs, w, h, i, k) == code_sum_below(acc, dirs, w, h, i, k, 9),
    decreases k,
{
    if k == 0 {
        lemma_code_sum_below_zero(acc, dirs, w, h, i, 9);
    } else {
        lemma_donors_mass_eq(acc, dirs, w, h, i, k - 1);
        lemma_code_sum_bump(acc, dirs, w, h, i, k, 9);
    }
}

/// A settled cell on the frontier: its downstream cell, if any, is unsettled.
spec fn frontier_at(done: Seq<bool>, dirs: Seq<u8>, w: int, h: int, t: int) -> bool {
    done[t] && match downstream_of(dirs, w, h, t) {
        Option::None => true,
        Option::Some(d) => !done[d],
    }
}

/// Accumulation mass held on the frontier among the first `k` cells.
spec fn frontier_mass(
    acc: Seq<u32>,
    done: Seq<bool>,
    dirs: Seq<u8>,
    w: int,
    h: int,
    k: int,
) -> int
    decreases k,
{
    if k <= 0 {
        0
    } else {
        frontier_mass(acc, done, dirs, w, h, k - 1)
            + if frontier_at(done, dirs, w, h, k - 1) { acc[k - 1] as int } else { 0int }
    }
}

/// With nothing settled, the frontier holds no mass.
proof fn lemma_frontier_mass_zero(
    acc: Seq<u32>,
    done: Seq<bool>,
    dirs: Seq<u8>,
    w: int,
    h: int,
    k: int,
)
    requires
        forall|t: int| 0 <= t < done.len() ==> !(#[trigger] done[t]),
        0 <= k <= done.len(),
    ensures
        frontier_mass(acc, done, dirs, w, h, k) == 0,
    decreases k,
{
    if k > 0 {
        lemma_frontier_mass_zero(acc, done, dirs, w, h, k - 1);
    }
}

/// The donors of an unsettled cell all sit on the frontier (or are unsettled
/// and carry nothing), so their mass is bounded by the frontier mass.
proof fn lemma_donors_mass_le_frontier(
    acc: Seq<u32>,
    done: Seq<bool>,
    dirs: Seq<u8>,
    w: int,
    h: int,
    i: int,
    k: int,
)
    requires
        acc.len() == done.len(),
        0 <= k <= acc.len(),
        0 <= i < done.len(),
        !done[i],
        forall|t: int| 0 <= t < acc.len() && !done[t] ==> #[trigger] acc[t] == 0,
    ensures
        donors_mass(acc, dirs, w, h, i, k) <= frontier_mass(acc, done, dirs, w, h, k),
        frontier_mass(acc, done, dirs, w, h, k) >= 0,
    decreases k,
{
    if k > 0 {
        lemma_donors_mass_le_frontier(acc, done, dirs, w, h, i, k - 1);
        if downstream_of(dirs, w, h, k - 1) == Some(i) && !done[k - 1] {
            assert(acc[k - 1] == 0);
        }
    }
}

/// Settling one cell moves exactly its donors' mass off the frontier and its
/// own accumulation onto it.
proof fn lemma_frontier_mass_update(
    acc: Seq<u32>,
    done: Seq<bool>,
    dirs: Seq<u8>,
    w: int,
    h: int,
    i: int,
    a: u32,
    k: int,
)
    requires
        acc.len() == done.len(),
        done.len() == w * h,
        w >= 1,
        0 <= i < acc.len(),
        !done[i],
        acc[i] == 0,
        forall|t: int| 0 <= t < acc.len() && !done[t] ==> #[trigger] acc[t] == 0,
        ({
            match downstream_of(dirs, w, h, i) {
                Option::Some(d0) => 0 <= d0 < done.len() && d0 != i && !done[d0],
                Option::None => true,
            }
        }),
        0 <= k <= acc.len(),
    ensures
        frontier_mass(acc.update(i, a), done.update(i, true), dirs, w, h, k)
            == frontier_mass(acc, done, dirs, w, h, k)
                - donors_mass(acc, dirs, w, h, i, k)
                + if i < k { a as int } else { 0int },
    decreases k,
{
    if k > 0 {
        lemma_frontier_mass_update(acc, done, dirs, w, h, i, a, k - 1);
        let t = k - 1;
        let acc2 = acc.update(i, a);
        let done2 = done.update(i, true);
        if t == i {
            assert(!frontier_at(done, dirs, w, h, t));
            assert(downstream_of(dirs, w, h, t) != Some(i));
            assert(frontier_at(done2, dirs, w, h, t));
            assert(acc2[t] == a);
        } else {
            assert(acc2[t] == acc[t]);
            if downstream_of(dirs, w, h, t) == Some(i) {
                if done[t] {
                    assert(frontier_at(done, dirs, w, h, t));
                    assert(!frontier_at(done2, dirs, w, h, t));
                } else {
                    assert(acc[t] == 0);
                }
            } else {
                match downstream_of(dirs, w, h, t) {
                    Option::Some(d) => {
                        let code = dirs[t] as int;
                        crate::regime::lemma_cell_index_in_range(
                            t / w + d8_dr(code),
                            t % w + d8_dc(code),
                            w,
                            h,
                        );
                        assert(done2[d] == done[d]);
                    },
                    Option::None => {},
                }
                assert(frontier_at(done2, dirs, w, h, t) == frontier_at(done, dirs, w, h, t));
            }
        }
    }
}

/// A cell never drains to itself, and what it drains to lies on the raster.
proof fn lemma_downstream_facts(dirs: Seq<u8>, w: int, h: int, i: int)
    requires
        w >= 1,
        dirs.len() == w * h,
        0 <= i < w * h,
    ensures
        ({
            match downstream_of(dirs, w, h, i) {
                Option::Some(d) => 0 <= d < w * h && d != i && is_donor(dirs, w, h, i, d),
                Option::None => true,
            }
        }),
{
    match downstream_of(dirs, w, h, i) {
        Option::Some(d) => {
            let code = dirs[i] as int;
            crate::regime::lemma_cell_index_in_range(
                i / w + d8_dr(code),
                i % w + d8_dc(code),
                w,
                h,
            );
            assert(is_donor(dirs, w, h, i, d));
            lemma_donor_is_neighbour(dirs, w, h, i, d);
        },
        Option::None => {},
    }
}

/// A cell waiting on donors has an unsettled donor.
proof fn lemma_pending_has_undone_donor(
    done: Seq<bool>,
    dirs: Seq<u8>,
    w: int,
    h: int,
    i: int,
    c: int,
)
    requires
        1 <= c <= 9,
        done_donor_count(done, dirs, w, h, i, c) < donor_count(dirs, w, h, i, c),
    ensures
        exists|code: int| 1 <= code < c
            && #[trigger] donor_at(dirs, w, h, i, code) is Some
            && !done[donor_at(dirs, w, h, i, code)->Some_0],
    decreases c,
{
    if c > 1 {
        match donor_at(dirs, w, h, i, c - 1) {
            Option::Some(j) => {
                if !done[j] {
                    assert(donor_at(dirs, w, h, i, c - 1) is Some);
                } else {
                    lemma_pending_has_undone_donor(done, dirs, w, h, i, c - 1);
                }
            },
            Option::None => {
                lemma_pending_has_undone_donor(done, dirs, w, h, i, c - 1);
            },
        }
    }
}

/// A done total short of the prefix length leaves some cell unsettled.
proof fn lemma_count_done_short(done: Seq<bool>, k: int)
    requires
        0 <= k <= done.len(),
        count_done(done, k) < k,
    ensures
        exists|t: int| 0 <= t < k && !(#[trigger] done[t]),
    decreases k,
{
    if k > 0 {
        if !done[k - 1] {
            assert(!done[k - 1]);
        } else {
            lemma_count_done_bounds(done, k - 1);
            lemma_count_done_short(done, k - 1);
        }
    }
}

/// In a stalled state — every unsettled cell fed by an unsettled donor — some
/// unsettled cell's flow path fails to terminate within any given fuel: the
/// unsettled region holds a cycle. Descending the fuel turns a cell whose
/// path cannot finish into an unsettled donor whose path cannot finish either,
/// down to fuel zero, where a donor is never its own outlet.
proof fn lemma_stalled_region_has_nonterminating_cell(
    dirs: Seq<u8>,
    w: int,
    h: int,
    done: Seq<bool>,
    u: int,
    k: int,
)
    requires
        w >= 1,
        dirs.len() == w * h,
        done.len() == w * h,
        0 <= u < w * h,
        !done[u],
        k >= 0,
        forall|t: int| #![trigger done[t]] 0 <= t < w * h && !done[t]
            ==> exists|j: int| 0 <= j < w * h
                && #[trigger] is_donor(dirs, w, h, j, t) && !done[j],
    ensures
        exists|t: int| 0 <= t < w * h && !done[t]
            && !(#[trigger] terminal_of(dirs, w, h, t, k) is Some),
    decreases k,
{
    if k == 0 {
        assert(!done[u]);
        let j = choose|j: int| 0 <= j < w * h
            && #[trigger] is_donor(dirs, w, h, j, u) && !done[j];
        assert(downstream_of(dirs, w, h, j) == Some(u));
        assert(!(terminal_of(dirs, w, h, j, 0) is Some));
    } else {
        lemma_stalled_region_has_nonterminating_cell(dirs, w, h, done, u, k - 1);
        let t0 = choose|t: int| 0 <= t < w * h && !done[t]
            && !(#[trigger] terminal_of(dirs, w, h, t, k - 1) is Some);
        assert(!done[t0]);
        let j0 = choose|j: int| 0 <= j < w * h
            && #[trigger] is_donor(dirs, w, h, j, t0) && !done[j];
        assert(downstream_of(dirs, w, h, j0) == Some(t0));
        assert(terminal_of(dirs, w, h, j0, k) == terminal_of(dirs, w, h, t0, k - 1));
        assert(!(terminal_of(dirs, w, h, j0, k) is Some));
    }
}

/// Where cell `i` of a direction raster drains to, if anywhere on the raster.
fn downstream_cell(direction: &Vec<u8>, width: usize, height: usize, i: usize) -> (ds: Option<
    usize,
>)
    requires
        direction@.len() == width * height,
        width * height <= usize::MAX,
        forall|k: int| 0 <= k < direction@.len() ==> #[trigger] direction@[k] <= 8,
        width >= 1,
        i < width * height,
    ensures
        ({
            let spec_ds = downstream_of(direction@, width as int, height as int, i as int);
            match ds {
                Some(j) => spec_ds == Some(j as int) && j < width * height,
                None => spec_ds is None,
            }
        }),
{
    let w = width;
    let h = height;
    let code = direction[i];
    if code == 0 {
        return None;
    }
    let r = i / w;
    let c = i % w;
    proof {
        vstd::arithmetic::div_mod::lemma_fundamental_div_mod(i as int, w as int);
        vstd::arithmetic::div_mod::lemma_mod_bound(i as int, w as int);
        assert(r < h) by (nonlinear_arith)
            requires
                i as int == w as int * (i as int / w as int) + i as int % w as int,
                i as int % w as int >= 0,
                (i as int) < w as int * h as int,
                w as int >= 1,
                r == i as int / w as int,
        ;
        assert(r as int <= 0xffff_ffff_ffff_ffffu64 as int);
        assert(c as int <= 0xffff_ffff_ffff_ffffu64 as int);
    }
    let (dr, dc) = d8_offset(code);
    let nr = r as i128 + dr as i128;
    let nc = c as i128 + dc as i128;
    if 0 <= nr && nr < h as i128 && 0 <= nc && nc < w as i128 {
        proof {
            crate::regime::lemma_cell_index_in_range(nr as int, nc as int, w as int, h as int);
        }
        Some((nr as usize) * w + (nc as usize))
    } else {
        None
    }
}

/// Donor count and donor accumulation sum of one cell, by scanning the eight
/// inflow directions.
fn scan_donors(
    direction: &Vec<u8>,
    acc: &Vec<u32>,
    width: usize,
    height: usize,
    i: usize,
) -> (stats: (u32, u64))
    requires
        direction@.len() == width * height,
        acc@.len() == width * height,
        width * height <= usize::MAX,
        forall|k: int| 0 <= k < direction@.len() ==> #[trigger] direction@[k] <= 8,
        width >= 1,
        i < width * height,
    ensures
        stats.0 == donor_count(direction@, width as int, height as int, i as int, 9),
        stats.0 <= 8,
        stats.1 == donor_acc_sum(
            acc@, direction@, width as int, height as int, i as int, 9),
{
    let w = width;
    let h = height;
    let ghost dirs = direction@;
    let r = i / w;
    let c = i % w;
    proof {
        vstd::arithmetic::div_mod::lemma_fundamental_div_mod(i as int, w as int);
        vstd::arithmetic::div_mod::lemma_mod_bound(i as int, w as int);
        assert(r < h) by (nonlinear_arith)
            requires
                i as int == w as int * (i as int / w as int) + i as int % w as int,
                i as int % w as int >= 0,
                (i as int) < w as int * h as int,
                w as int >= 1,
                r == i as int / w as int,
        ;
    }
    let mut count: u32 = 0;
    let mut sum: u64 = 0;
    let mut code: u8 = 1;
    while code <= 8
        invariant
            1 <= code <= 9,
            dirs == direction@,
            dirs.len() == w * h,
            acc@.len() == w * h,
            w * h <= usize::MAX,
            forall|k: int| 0 <= k < dirs.len() ==> #[trigger] dirs[k] <= 8,
            1 <= w,
            i < w * h,
            r == i as int / w as int,
            c == i as int % w as int,
            r < h,
            c < w,
            count == donor_count(dirs, w as int, h as int, i as int, code as int),
            count < code,
            sum == donor_acc_sum(acc@, dirs, w as int, h as int, i as int, code as int),
            sum <= (code - 1) as u64 * 0xffff_ffffu64,
        decreases 9 - code,
    {
        proof {
            assert(r as int <= 0xffff_ffff_ffff_ffffu64 as int);
            assert(c as int <= 0xffff_ffff_ffff_ffffu64 as int);
        }
        let (dr, dc) = d8_offset(code);
        let jr = r as i128 - dr as i128;
        let jc = c as i128 - dc as i128;
        if 0 <= jr && jr < h as i128 && 0 <= jc && jc < w as i128 {
            proof {
                crate::regime::lemma_cell_index_in_range(jr as int, jc as int, w as int, h as int);
            }
            let j = (jr as usize) * w + (jc as usize);
            if direction[j] == code {
                proof {
                    assert(donor_at(dirs, w as int, h as int, i as int, code as int)
                        == Some(j as int));
                }
                count = count + 1;
                sum = sum + acc[j] as u64;
            } else {
                proof {
                    assert(donor_at(dirs, w as int, h as int, i as int, code as int) is None);
                }
            }
        } else {
            proof {
                assert(donor_at(dirs, w as int, h as int, i as int, code as int) is None);
            }
        }
        code = code + 1;
    }
    (count, sum)
}

/// Flow accumulation from the direction raster alone: every cell carries one
/// unit of area plus everything its donors carry. The walk settles a cell
/// once all its donors are settled. Success is owed whenever every cell's
/// flow path terminates — which holds of any steepest-descent routing — and
/// the cell count fits the counter; only a direction raster with a flow
/// cycle, or a count overflow, yields `None`.
pub fn accumulate_flow(direction: &Vec<u8>, width: usize, height: usize) -> (acc_opt: Option<
    Vec<u32>,
>)
    requires
        direction@.len() == width * height,
        width * height <= usize::MAX,
        forall|k: int| 0 <= k < direction@.len() ==> #[trigger] direction@[k] <= 8,
    ensures
        ({
            match acc_opt {
                Option::Some(acc) => {
                    &&& acc@.len() == width * height
                    &&& forall|i: int| 0 <= i < acc@.len() ==> #[trigger] acc@[i] >= 1
                    &&& forall|i: int| 0 <= i < acc@.len() ==> #[trigger] acc@[i] as int
                        == 1 + donor_acc_sum(
                            acc@, direction@, width as int, height as int, i, 9)
                },
                Option::None => true,
            }
        }),
        (width * height < u32::MAX && (forall|t: int| 0 <= t < width * height
            ==> #[trigger] terminal_of(direction@, width as int, height as int, t,
                (width * height) as int) is Some))
            ==> acc_opt is Some,
{
    let w = width;
    let h = height;
    let n = w * h;
    let ghost dirs = direction@;
    if n == 0 {
        let empty: Vec<u32> = Vec::new();
        return Some(empty);
    }
    proof {
        assert(w >= 1) by (nonlinear_arith)
            requires w * h > 0;
    }

    // Start every cell at zero accumulation.
    let mut acc: Vec<u32> = Vec::new();
    let mut i: usize = 0;
    while i < n
        invariant
            i <= n,
            acc@.len() == i,
            forall|t: int| 0 <= t < i ==> #[trigger] acc@[t] == 0,
        decreases n - i,
    {
        acc.push(0);
        i = i + 1;
    }

    // How many donors each cell waits for.
    let mut pending: Vec<u32> = Vec::new();
    let mut i: usize = 0;
    while i < n
        invariant
            i <= n,
            n == w * h,
            1 <= w,
            dirs == direction@,
            dirs.len() == n,
            forall|k: int| 0 <= k < dirs.len() ==> #[trigger] dirs[k] <= 8,
            acc@.len() == n,
            pending@.len() == i,
            forall|t: int| 0 <= t < i ==> #[trigger] pending@[t]
                == donor_count(dirs, w as int, h as int, t, 9),
        decreases n - i,
    {
        let (count, _) = scan_donors(direction, &acc, w, h, i);
        pending.push(count);
        i = i + 1;
    }

    // Cells with no donors are ready at once.
    let ghost mut done: Seq<bool> = Seq::new(n as nat, |t: int| false);
    let mut stack: Vec<usize> = Vec::new();
    let mut i: usize = 0;
    while i < n
        invariant
            i <= n,
            n == w * h,
            done.len() == n,
            pending@.len() == n,
            forall|t: int| 0 <= t < n ==> !(#[trigger] done[t]),
            forall|t: int| 0 <= t < n ==> #[trigger] pending@[t]
                == donor_count(dirs, w as int, h as int, t, 9),
            forall|q: int| 0 <= q < stack@.len() ==> {
                let e = #[trigger] stack@[q] as int;
                &&& 0 <= e < n
                &&& !done[e]
                &&& pending@[e] == 0
            },
            forall|q1: int, q2: int| 0 <= q1 < q2 < stack@.len()
                ==> stack@[q1] != stack@[q2],
            forall|q: int| 0 <= q < stack@.len() ==> (#[trigger] stack@[q] as int) < i,
            forall|t: int| 0 <= t < i && !done[t] && #[trigger] pending@[t] == 0
                ==> exists|q: int| 0 <= q < stack@.len() && #[trigger] stack@[q] as int == t,
        decreases n - i,
    {
        if pending[i] == 0 {
            let ghost before = stack@;
            stack.push(i);
            proof {
                assert forall|t: int| 0 <= t < i + 1 && !done[t]
                    && #[trigger] pending@[t] == 0
                    implies exists|q: int| 0 <= q < stack@.len()
                        && #[trigger] stack@[q] as int == t by {
                    if t == i as int {
                        assert(stack@[stack@.len() - 1] as int == t);
                    } else {
                        let q0 = choose|q: int| 0 <= q < before.len()
                            && #[trigger] before[q] as int == t;
                        assert(stack@[q0] as int == t);
                    }
                }
            }
        }
        i = i + 1;
    }

    let mut processed: usize = 0;
    proof {
        lemma_count_done_zero(done, n as int);
        lemma_frontier_mass_zero(acc@, done, dirs, w as int, h as int, n as int);
        assert forall|t: int| 0 <= t < n
            implies #[trigger] pending@[t] == donor_count(dirs, w as int, h as int, t, 9)
                - done_donor_count(done, dirs, w as int, h as int, t, 9) by {
            lemma_done_donor_count_none(done, dirs, w as int, h as int, t, 9);
        }
    }
    while stack.len() > 0
        invariant
            n == w * h,
            w == width,
            h == height,
            n >= 1,
            1 <= w,
            dirs == direction@,
            dirs.len() == n,
            forall|k: int| 0 <= k < dirs.len() ==> #[trigger] dirs[k] <= 8,
            done.len() == n,
            pending@.len() == n,
            acc@.len() == n,
            processed == count_done(done, n as int),
            processed <= n,
            forall|t: int| 0 <= t < n ==> #[trigger] pending@[t]
                == donor_count(dirs, w as int, h as int, t, 9)
                    - done_donor_count(done, dirs, w as int, h as int, t, 9),
            forall|t: int, code: int|
                0 <= t < n && #[trigger] done[t] && 1 <= code <= 8
                    && #[trigger] donor_at(dirs, w as int, h as int, t, code) is Some
                ==> done[donor_at(dirs, w as int, h as int, t, code)->Some_0],
            forall|t: int|
                #![trigger done[t]]
                0 <= t < n && done[t]
                ==> acc@[t] >= 1 && acc@[t] as int
                    == 1 + donor_acc_sum(acc@, dirs, w as int, h as int, t, 9),
            forall|t: int| 0 <= t < n && !done[t] ==> #[trigger] acc@[t] == 0,
            frontier_mass(acc@, done, dirs, w as int, h as int, n as int)
                == count_done(done, n as int),
            forall|q: int| 0 <= q < stack@.len() ==> {
                let e = #[trigger] stack@[q] as int;
                &&& 0 <= e < n
                &&& !done[e]
                &&& pending@[e] == 0
            },
            forall|q1: int, q2: int| 0 <= q1 < q2 < stack@.len()
                ==> stack@[q1] != stack@[q2],
            forall|t: int| 0 <= t < n && !done[t] && #[trigger] pending@[t] == 0
                ==> exists|q: int| 0 <= q < stack@.len() && #[trigger] stack@[q] as int == t,
        decreases n - processed,
    {
        let ghost old_stack = stack@;
        let i = match stack.pop() {
            Option::Some(i) => i,
            Option::None => {
                proof {
                    assert(old_stack.len() > 0);
                    assert(false);
                }
                return None;
            },
        };
        let ghost pre_done = done;
        proof {
            assert(old_stack[old_stack.len() - 1] == i as usize);
            assert(!done[i as int]);
            assert(pending@[i as int] == 0);
            lemma_count_done_missing(done, i as int, n as int);
            lemma_done_donor_count_bounds(done, dirs, w as int, h as int, i as int, 9);
            lemma_full_done_count_means_all(done, dirs, w as int, h as int, i as int, 9);
        }

        let (_, sum) = scan_donors(direction, &acc, w, h, i);
        proof {
            // The donors of an unsettled cell all sit on the frontier, whose
            // mass is the number of settled cells: the sum fits the counter
            // whenever the raster does.
            lemma_code_sum_full(acc@, dirs, w as int, h as int, i as int, 9);
            lemma_donors_mass_eq(acc@, dirs, w as int, h as int, i as int, n as int);
            lemma_donors_mass_le_frontier(acc@, done, dirs, w as int, h as int, i as int,
                n as int);
            assert(sum as int <= n - 1);
        }
        if sum > 0xffff_fffeu64 {
            proof {
                assert(n >= u32::MAX);
            }
            return None;
        }
        let a_i: u32 = sum as u32 + 1;
        let ghost old_acc = acc@;
        acc.set(i, a_i);
        proof {
            // Settled cells have no donor among the unsettled, so their donor
            // sums do not move when this cell's accumulation is written.
            assert forall|t: int|
                0 <= t < n && (pre_done[t] || t == i as int)
                implies #[trigger] acc@[t] as int
                    == 1 + donor_acc_sum(acc@, dirs, w as int, h as int, t, 9)
                    && acc@[t] >= 1 by {
                assert forall|code: int| 1 <= code <= 8
                    implies #[trigger] donor_at(dirs, w as int, h as int, t, code)
                        != Some(i as int) by {
                    if donor_at(dirs, w as int, h as int, t, code) == Some(i as int) {
                        if t == i as int {
                            lemma_no_self_donor(dirs, w as int, h as int, t, code);
                        } else {
                            assert(pre_done[donor_at(
                                dirs, w as int, h as int, t, code)->Some_0]);
                        }
                    }
                }
                lemma_donor_acc_sum_ignore(
                    old_acc, dirs, w as int, h as int, t, i as int, a_i, 9);
                if t == i as int {
                    lemma_donor_acc_sum_nonneg(old_acc, dirs, w as int, h as int, t, 9);
                } else {
                    assert(acc@[t] == old_acc[t]);
                }
            }
            done = done.update(i as int, true);
            lemma_count_done_mark(pre_done, i as int, n as int);
            lemma_downstream_facts(dirs, w as int, h as int, i as int);
            match downstream_of(dirs, w as int, h as int, i as int) {
                Option::Some(d0) => {
                    if pre_done[d0] {
                        // A settled downstream cell would already count this
                        // donor as settled.
                        lemma_donor_has_code(dirs, w as int, h as int, i as int, d0);
                        assert(pre_done[i as int]);
                        assert(false);
                    }
                },
                Option::None => {},
            }
            lemma_code_sum_full(old_acc, dirs, w as int, h as int, i as int, 9);
            lemma_donors_mass_eq(old_acc, dirs, w as int, h as int, i as int, n as int);
            lemma_frontier_mass_update(old_acc, pre_done, dirs, w as int, h as int, i as int,
                a_i, n as int);
            assert(frontier_mass(acc@, done, dirs, w as int, h as int, n as int)
                == count_done(done, n as int));
            // The settled set stays closed under taking donors.
            assert forall|t: int, code: int|
                0 <= t < n && #[trigger] done[t] && 1 <= code <= 8
                    && #[trigger] donor_at(dirs, w as int, h as int, t, code) is Some
                implies done[donor_at(dirs, w as int, h as int, t, code)->Some_0] by {
                let k = donor_at(dirs, w as int, h as int, t, code)->Some_0;
                lemma_donor_at_is_donor(dirs, w as int, h as int, t, code);
                if t == i as int {
                    assert(pre_done[k]);
                } else {
                    assert(pre_done[t]);
                    assert(pre_done[k]);
                }
            }
        }
        processed = processed + 1;

        // The downstream cell waits for one donor fewer.
        match downstream_cell(direction, w, h, i) {
            Option::Some(j) => {
                proof {
                    lemma_donor_has_code(dirs, w as int, h as int, i as int, j as int);
                    assert forall|t: int| 0 <= t < n
                        implies done_donor_count(done, dirs, w as int, h as int, t, 9)
                            == done_donor_count(pre_done, dirs, w as int, h as int, t, 9)
                                + if t == j as int { 1int } else { 0int } by {
                        if t == j as int {
                            lemma_done_count_mark_donor(
                                pre_done, dirs, w as int, h as int, t, i as int, 9);
                        } else {
                            assert forall|code: int| 1 <= code <= 8
                                implies #[trigger] donor_at(dirs, w as int, h as int, t, code)
                                    != Some(i as int) by {
                                if donor_at(dirs, w as int, h as int, t, code)
                                    == Some(i as int) {
                                    lemma_donor_at_is_donor(dirs, w as int, h as int, t, code);
                                }
                            }
                            lemma_done_count_ignore(
                                pre_done, dirs, w as int, h as int, t, i as int, 9);
                        }
                    }
                    lemma_undone_donor_strict(
                        pre_done, dirs, w as int, h as int, j as int, i as int, 9);
                    lemma_done_donor_count_bounds(
                        pre_done, dirs, w as int, h as int, j as int, 9);
                }
                let ghost old_pending = pending@;
                let p = pending[j];
                let p_new = p - 1;
                pending.set(j, p_new);
                if p_new == 0 {
                    proof {
                        if done[j as int] {
                            // A settled cell would already count this donor.
                            assert(done[i as int]);
                            assert(pre_done[i as int]);
                            assert(false);
                        }
                    }
                    stack.push(j);
                    proof {
                        assert forall|q1: int, q2: int| 0 <= q1 < q2 < stack@.len()
                            implies stack@[q1] != stack@[q2] by {
                            if q2 == stack@.len() - 1 {
                                assert(stack@[q2] == j as usize);
                                assert(pending@[stack@[q1] as int] == 0);
                            }
                        }
                        assert forall|t: int| 0 <= t < n && !done[t]
                            && #[trigger] pending@[t] == 0
                            implies exists|q: int| 0 <= q < stack@.len()
                                && #[trigger] stack@[q] as int == t by {
                            if t == j as int {
                                assert(stack@[stack@.len() - 1] as int == t);
                            } else {
                                assert(t != i as int);
                                assert(old_pending[t] == 0);
                                let q0 = choose|q: int| 0 <= q < old_stack.len()
                                    && #[trigger] old_stack[q] as int == t;
                                assert(q0 < old_stack.len() - 1);
                                assert(stack@[q0] as int == t);
                            }
                        }
                    }
                } else {
                    proof {
                        assert forall|t: int| 0 <= t < n && !done[t]
                            && #[trigger] pending@[t] == 0
                            implies exists|q: int| 0 <= q < stack@.len()
                                && #[trigger] stack@[q] as int == t by {
                            assert(t != j as int);
                            assert(t != i as int);
                            assert(old_pending[t] == 0);
                            let q0 = choose|q: int| 0 <= q < old_stack.len()
                                && #[trigger] old_stack[q] as int == t;
                            assert(q0 < old_stack.len() - 1);
                            assert(stack@[q0] as int == t);
                        }
                    }
                }
            },
            Option::None => {
                proof {
                    assert forall|t: int| 0 <= t < n
                        implies done_donor_count(done, dirs, w as int, h as int, t, 9)
                            == done_donor_count(pre_done, dirs, w as int, h as int, t, 9) by {
                        assert forall|code: int| 1 <= code <= 8
                            implies #[trigger] donor_at(dirs, w as int, h as int, t, code)
                                != Some(i as int) by {
                            if donor_at(dirs, w as int, h as int, t, code) == Some(i as int) {
                                lemma_donor_at_is_donor(dirs, w as int, h as int, t, code);
                            }
                        }
                        lemma_done_count_ignore(
                            pre_done, dirs, w as int, h as int, t, i as int, 9);
                    }
                    assert forall|t: int| 0 <= t < n && !done[t]
                        && #[trigger] pending@[t] == 0
                        implies exists|q: int| 0 <= q < stack@.len()
                            && #[trigger] stack@[q] as int == t by {
                        assert(t != i as int);
                        let q0 = choose|q: int| 0 <= q < old_stack.len()
                            && #[trigger] old_stack[q] as int == t;
                        assert(q0 < old_stack.len() - 1);
                        assert(stack@[q0] as int == t);
                    }
                }
            },
        }
    }

    if processed == n {
        proof {
            lemma_count_done_full(done, n as int);
            assert forall|t: int| 0 <= t < n
                implies #[trigger] acc@[t] >= 1 && acc@[t] as int == 1 + donor_acc_sum(
                    acc@, dirs, w as int, h as int, t, 9) by {
                assert(done[t]);
            }
        }
        Some(acc)
    } else {
        proof {
            let wi = w as int;
            let hi = h as int;
            let ni = n as int;
            if n < u32::MAX && (forall|t: int| 0 <= t < ni
                ==> #[trigger] terminal_of(dirs, wi, hi, t, ni) is Some) {
                // The walk stalled although every flow path terminates: the
                // unsettled region would have to hold a cycle.
                lemma_count_done_bounds(done, ni);
                lemma_count_done_short(done, ni);
                let u = choose|t: int| 0 <= t < ni && !(#[trigger] done[t]);
                assert forall|t: int| #![trigger done[t]] 0 <= t < ni && !done[t]
                    implies exists|j: int| 0 <= j < ni
                        && #[trigger] is_donor(dirs, wi, hi, j, t) && !done[j] by {
                    assert(pending@[t] != 0);
                    lemma_done_donor_count_bounds(done, dirs, wi, hi, t, 9);
                    lemma_pending_has_undone_donor(done, dirs, wi, hi, t, 9);
                    let code = choose|code: int| 1 <= code < 9
                        && #[trigger] donor_at(dirs, wi, hi, t, code) is Some
                        && !done[donor_at(dirs, wi, hi, t, code)->Some_0];
                    lemma_donor_at_is_donor(dirs, wi, hi, t, code);
                    assert(is_donor(dirs, wi, hi,
                        donor_at(dirs, wi, hi, t, code)->Some_0, t));
                }
                lemma_stalled_region_has_nonterminating_cell(dirs, wi, hi, done, u, ni);
                let bad = choose|t: int| 0 <= t < ni && !done[t]
                    && !(#[trigger] terminal_of(dirs, wi, hi, t, ni) is Some);
                assert(terminal_of(dirs, wi, hi, bad, ni) is Some);
                assert(false);
            }
        }
        None
    }
}

/// With nothing done, the done total is zero.
proof fn lemma_count_done_zero(done: Seq<bool>, k: int)
    requires
        forall|t: int| 0 <= t < done.len() ==> !(#[trigger] done[t]),
        k <= done.len(),
    ensures
        count_done(done, k) == 0,
    decreases k,
{
    if k > 0 {
        lemma_count_done_zero(done, k - 1);
    }
}

/// True when no glacial cell's flow enters cell `i`: `i` is a channel head of
/// the glacial network.
pub fn is_glacial_head(glacial: &Vec<bool>, flow: &FlowField, i: usize, cols: usize) -> (head: bool)
    requires
        flow.wf(),
        cols == flow.width,
        1 <= flow.width,
        glacial@.len() == flow.width * flow.height,
        i < flow.width * flow.height,
    ensures
        head == !exists|j: int|
            #[trigger] is_donor(flow.direction@, flow.width as int, flow.height as int, j, i as int)
                && glacial@[j],
{
    let w = flow.width;
    let h = flow.height;
    let ghost dirs = flow.direction@;
    let r = i / cols;
    let c = i % cols;
    proof {
        vstd::arithmetic::div_mod::lemma_fundamental_div_mod(i as int, w as int);
        vstd::arithmetic::div_mod::lemma_mod_bound(i as int, w as int);
        assert(r < h) by (nonlinear_arith)
            requires
                i as int == w as int * (i as int / w as int) + i as int % w as int,
                i as int % w as int >= 0,
                (i as int) < w as int * h as int,
                w as int >= 1,
                r == i as int / w as int,
        ;
    }
    let mut code: u8 = 1;
    while code <= 8
        invariant
            1 <= code <= 9,
            flow.wf(),
            w == flow.width,
            h == flow.height,
            1 <= w,
            dirs == flow.direction@,
            glacial@.len() == w * h,
            i < w * h,
            r == i as int / w as int,
            c == i as int % w as int,
            r < h,
            c < w,
            i == r * w + c,
            forall|j: int|
                #[trigger] is_donor(dirs, w as int, h as int, j, i as int) && glacial@[j]
                ==> dirs[j] as int >= code,
        decreases 9 - code,
    {
        // The donor with direction `code` into cell `i` would sit at the
        // opposite offset.
        let (dr, dc) = d8_offset(code);
        proof {
            assert(r as int <= 0xffff_ffff_ffff_ffffu64 as int);
            assert(c as int <= 0xffff_ffff_ffff_ffffu64 as int);
        }
        let jr = r as i128 - dr as i128;
        let jc = c as i128 - dc as i128;
        if 0 <= jr && jr < h as i128 && 0 <= jc && jc < w as i128 {
            proof {
                crate::regime::lemma_cell_index_in_range(jr as int, jc as int, w as int, h as int);
            }
            let j = (jr as usize) * w + (jc as usize);
            proof {
                vstd::arithmetic::div_mod::lemma_fundamental_div_mod_converse(
                    jr as int * w as int + jc as int,
                    w as int,
                    jr as int,
                    jc as int,
                );
            }
            if glacial[j] && flow.direction[j] == code {
                proof {
                    assert(is_donor(dirs, w as int, h as int, j as int, i as int));
                }
                return false;
            }
            proof {
                assert forall|jj: int|
                    #[trigger] is_donor(dirs, w as int, h as int, jj, i as int) && glacial@[jj]
                    implies dirs[jj] as int >= code + 1 by {
                    if dirs[jj] as int == code {
                        lemma_donor_is_neighbour(dirs, w as int, h as int, jj, i as int);
                        assert(jj / w as int == r - d8_dr(code as int));
                        assert(jj % w as int == c - d8_dc(code as int));
                        assert(jj == j as int);
                    }
                }
            }
        } else {
            proof {
                assert forall|jj: int|
                    #[trigger] is_donor(dirs, w as int, h as int, jj, i as int) && glacial@[jj]
                    implies dirs[jj] as int >= code + 1 by {
                    if dirs[jj] as int == code {
                        lemma_donor_is_neighbour(dirs, w as int, h as int, jj, i as int);
                        vstd::arithmetic::div_mod::lemma_fundamental_div_mod(jj, w as int);
                        vstd::arithmetic::div_mod::lemma_mod_bound(jj, w as int);
                        assert(0 <= jj / (w as int) && jj / (w as int) < (h as int)) by (nonlinear_arith)
                            requires
                                jj == w as int * (jj / w as int) + jj % w as int,
                                0 <= jj % (w as int) && jj % (w as int) < (w as int),
                                0 <= jj && jj < (w as int) * (h as int),
                                w as int >= 1,
                        ;
                        assert(false);
                    }
                }
            }
        }
        code = code + 1;
    }
    true
}

} // verus!

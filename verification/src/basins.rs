//! Drainage basin delineation.
//!
//! Every cell belongs to exactly one basin: the basin of the outlet its flow
//! path terminates in, or a singleton basin when its path never terminates
//! (cells inside or behind a flow cycle). Outlets — cells that are sinks or
//! drain off the raster — are numbered first, in raster order; singleton
//! basins follow. The per-basin statistics other than the cell count are
//! floating-point work done by the caller on top of this partition.

use vstd::prelude::*;
use crate::flow::{downstream_of, terminal_of, FlowField};

verus! {

/// Cell `i` is an outlet: a sink, or a cell that drains off the raster.
pub open spec fn is_outlet(dirs: Seq<u8>, w: int, h: int, i: int) -> bool {
    downstream_of(dirs, w, h, i) is None
}

/// Number of outlets among the first `k` cells.
pub open spec fn count_outlets(dirs: Seq<u8>, w: int, h: int, k: int) -> int
    decreases k,
{
    if k <= 0 {
        0
    } else {
        count_outlets(dirs, w, h, k - 1) + if is_outlet(dirs, w, h, k - 1) { 1int } else { 0int }
    }
}

/// How many of the first `k` entries of `ids` equal `b`.
pub open spec fn count_id(ids: Seq<u32>, b: u32, k: int) -> int
    decreases k,
{
    if k <= 0 {
        0
    } else {
        count_id(ids, b, k - 1) + if ids[k - 1] == b { 1int } else { 0int }
    }
}

/// Some cell carries basin id `v`.
pub open spec fn has_id(ids: Seq<u32>, v: int) -> bool {
    exists|j: int| 0 <= j < ids.len() && (#[trigger] ids[j] as int) == v
}

/// A witnessed id is counted at least once.
proof fn lemma_count_id_witness(ids: Seq<u32>, b: u32, j: int, k: int)
    requires
        0 <= j < k <= ids.len(),
        ids[j] == b,
    ensures
        count_id(ids, b, k) >= 1,
    decreases k,
{
    lemma_count_id_bounded(ids, b, k - 1);
    if j < k - 1 {
        lemma_count_id_witness(ids, b, j, k - 1);
    }
}

/// Every rank below the outlet count is the rank of some outlet.
proof fn lemma_outlet_rank_witness(dirs: Seq<u8>, w: int, h: int, v: int, k: int)
    requires
        0 <= v < count_outlets(dirs, w, h, k),
    ensures
        exists|j: int| 0 <= j < k && is_outlet(dirs, w, h, j)
            && #[trigger] count_outlets(dirs, w, h, j) == v,
    decreases k,
{
    if k > 0 {
        if is_outlet(dirs, w, h, k - 1) && count_outlets(dirs, w, h, k - 1) == v {
            assert(count_outlets(dirs, w, h, k - 1) == v);
        } else {
            lemma_outlet_rank_witness(dirs, w, h, v, k - 1);
        }
    }
}

/// Sum of a sequence of counts.
pub open spec fn sum_of(s: Seq<u32>) -> int
    decreases s.len(),
{
    if s.len() == 0 {
        0
    } else {
        sum_of(s.drop_last()) + s.last()
    }
}

/// Updating one entry moves the sum by the difference.
proof fn lemma_sum_of_update(s: Seq<u32>, k: int, v: u32)
    requires
        0 <= k < s.len(),
    ensures
        sum_of(s.update(k, v)) == sum_of(s) - s[k] + v,
    decreases s.len(),
{
    if k == s.len() - 1 {
        assert(s.update(k, v).drop_last() =~= s.drop_last());
        assert(s.update(k, v).last() == v);
    } else {
        lemma_sum_of_update(s.drop_last(), k, v);
        assert(s.update(k, v).drop_last() =~= s.drop_last().update(k, v));
        assert(s.update(k, v).last() == s.last());
    }
}

/// A pushed entry adds itself to the sum.
proof fn lemma_sum_of_push(s: Seq<u32>, v: u32)
    ensures
        sum_of(s.push(v)) == sum_of(s) + v,
{
    assert(s.push(v).drop_last() =~= s);
    assert(s.push(v).last() == v);
}

/// The drainage basin partition of a flow field: a dense basin id per cell
/// and the cell count of every basin.
pub struct BasinPartition {
    /// Basin id of each cell, row-major.
    pub basin_id: Vec<u32>,
    /// Number of cells in each basin, indexed by basin id.
    pub areas: Vec<u32>,
}

/// Delineate all drainage basins of a flow field.
///
/// Every cell is assigned to exactly one basin, so the basin areas sum to
/// `width · height`. Cells whose flow path terminates share the basin of its
/// outlet; outlets are numbered in raster order; a cell whose path never
/// terminates forms a basin of exactly one cell.
#[verifier::rlimit(30)]
pub fn delineate_basins(flow: &FlowField) -> (part: BasinPartition)
    requires
        flow.wf(),
        flow.width * flow.height < u32::MAX,
    ensures
        part.basin_id@.len() == flow.width * flow.height,
        forall|i: int| 0 <= i < part.basin_id@.len()
            ==> (#[trigger] part.basin_id@[i] as int) < part.areas@.len(),
        forall|b: int| 0 <= b < part.areas@.len()
            ==> #[trigger] part.areas@[b] as int
                == count_id(part.basin_id@, b as u32, part.basin_id@.len() as int),
        sum_of(part.areas@) == flow.width * flow.height,
        forall|b: int| 0 <= b < part.areas@.len() ==> #[trigger] part.areas@[b] >= 1,
        forall|i: int| #![trigger part.basin_id@[i]] 0 <= i < part.basin_id@.len() ==> {
            let t = terminal_of(
                flow.direction@,
                flow.width as int,
                flow.height as int,
                i,
                part.basin_id@.len() as int,
            );
            match t {
                Option::Some(o) => part.basin_id@[i] == part.basin_id@[o],
                Option::None => part.areas@[part.basin_id@[i] as int] == 1,
            }
        },
        forall|i: int| 0 <= i < part.basin_id@.len()
            && is_outlet(flow.direction@, flow.width as int, flow.height as int, i)
            ==> #[trigger] part.basin_id@[i] as int
                == count_outlets(flow.direction@, flow.width as int, flow.height as int, i),
{
    let w = flow.width;
    let h = flow.height;
    let ghost dirs = flow.direction@;
    if w == 0 || h == 0 {
        proof {
            assert(w * h == 0) by (nonlinear_arith)
                requires w == 0 || h == 0;
        }
        return BasinPartition { basin_id: Vec::new(), areas: Vec::new() };
    }
    let n = w * h;

    // Outlets get the first basin ids, in raster order.
    let mut basin_id: Vec<u32> = Vec::new();
    let mut next_id: u32 = 0;
    let mut i: usize = 0;
    while i < n
        invariant
            i <= n,
            n == w * h,
            n < u32::MAX,
            1 <= w,
            flow.wf(),
            flow.width == w,
            flow.height == h,
            dirs == flow.direction@,
            basin_id@.len() == i,
            next_id == count_outlets(dirs, w as int, h as int, i as int),
            next_id <= i,
            forall|j: int| #![trigger basin_id@[j]] 0 <= j < i ==> {
                if is_outlet(dirs, w as int, h as int, j) {
                    basin_id@[j] as int == count_outlets(dirs, w as int, h as int, j)
                } else {
                    basin_id@[j] == u32::MAX
                }
            },
        decreases n - i,
    {
        match flow.downstream_index(i) {
            Option::None => {
                basin_id.push(next_id);
                next_id = next_id + 1;
            },
            Option::Some(_) => {
                basin_id.push(u32::MAX);
            },
        }
        i = i + 1;
    }
    let ghost n_outlets = next_id as int;
    proof {
        assert forall|j: int| 0 <= j < n && is_outlet(dirs, w as int, h as int, j)
            implies count_outlets(dirs, w as int, h as int, j) < n_outlets by {
            lemma_count_outlets_diff(dirs, w as int, h as int, j + 1, n as int);
        }
        assert forall|v: int| 0 <= v < n_outlets implies #[trigger] has_id(basin_id@, v) by {
            lemma_outlet_rank_witness(dirs, w as int, h as int, v, n as int);
            let j = choose|j: int| 0 <= j < n && is_outlet(dirs, w as int, h as int, j)
                && #[trigger] count_outlets(dirs, w as int, h as int, j) == v;
            assert(basin_id@[j] as int == v);
        }
    }

    // Every remaining cell: the basin of its terminal outlet, or a fresh
    // singleton basin when its path never terminates.
    let mut i: usize = 0;
    while i < n
        invariant
            i <= n,
            n == w * h,
            n < u32::MAX,
            1 <= w,
            flow.wf(),
            flow.width == w,
            flow.height == h,
            dirs == flow.direction@,
            basin_id@.len() == n,
            n_outlets == count_outlets(dirs, w as int, h as int, n as int),
            n_outlets <= next_id,
            next_id as int + count_outlets(dirs, w as int, h as int, i as int)
                <= n_outlets + i,
            forall|j: int| #![trigger basin_id@[j]] 0 <= j < n
                && is_outlet(dirs, w as int, h as int, j)
                ==> basin_id@[j] as int == count_outlets(dirs, w as int, h as int, j)
                    && (basin_id@[j] as int) < n_outlets,
            forall|j: int| #![trigger basin_id@[j]] i <= j < n
                && !is_outlet(dirs, w as int, h as int, j)
                ==> basin_id@[j] == u32::MAX,
            forall|j: int| #![trigger basin_id@[j]] 0 <= j < i ==> {
                let t = terminal_of(dirs, w as int, h as int, j, n as int);
                match t {
                    Option::Some(o) => 0 <= o < n && basin_id@[j] == basin_id@[o]
                        && is_outlet(dirs, w as int, h as int, o),
                    Option::None => n_outlets <= basin_id@[j] as int && (basin_id@[j] as int) < next_id,
                }
            },
            forall|j: int| #![trigger basin_id@[j]] 0 <= j < i ==> (basin_id@[j] as int) < next_id,
            // Every id handed out so far is carried by some cell.
            forall|v: int| 0 <= v < next_id ==> #[trigger] has_id(basin_id@, v),
            // Fresh singleton ids are used exactly once.
            forall|j1: int, j2: int|
                0 <= j1 < i && 0 <= j2 < i && j1 != j2
                    && #[trigger] basin_id@[j1] == #[trigger] basin_id@[j2]
                ==> (basin_id@[j1] as int) < n_outlets,
        decreases n - i,
    {
        let t = walk_terminal(flow, i, n);
        match t {
            Option::Some(o) => {
                let ghost old_ids = basin_id@;
                let b = basin_id[o];
                if i != o {
                    basin_id.set(i, b);
                }
                proof {
                    assert(basin_id@ =~= old_ids.update(i as int, b));
                    lemma_terminal_stable(dirs, w as int, h as int, i as int, n as int);
                    lemma_count_outlets_bounded(dirs, w as int, h as int, i as int);
                    lemma_count_outlets_diff(dirs, w as int, h as int, i as int, n as int);
                    assert(next_id as int <= n as int);
                    assert forall|v: int| 0 <= v < next_id
                        implies #[trigger] has_id(basin_id@, v) by {
                        assert(has_id(old_ids, v));
                        let jv = choose|j: int| 0 <= j < old_ids.len()
                            && (#[trigger] old_ids[j] as int) == v;
                        if jv == i as int {
                            if i as int == o as int {
                                // The cell kept its own value.
                                assert(b == old_ids[i as int]);
                                assert(basin_id@[i as int] as int == v);
                            } else {
                                // The overwritten cell was unassigned, so it
                                // witnessed no id below the ledger.
                                assert(terminal_of(dirs, w as int, h as int, i as int, n as int)
                                    == Some(o as int));
                                assert(!is_outlet(dirs, w as int, h as int, i as int));
                                assert(old_ids[i as int] == u32::MAX);
                                assert(false);
                            }
                        } else {
                            assert(basin_id@[jv] as int == v);
                        }
                    }
                    assert forall|j: int| #![trigger basin_id@[j]] 0 <= j < i + 1 implies ({
                        let t = terminal_of(dirs, w as int, h as int, j, n as int);
                        match t {
                            Option::Some(oj) => 0 <= oj < n && basin_id@[j] == basin_id@[oj]
                                && is_outlet(dirs, w as int, h as int, oj),
                            Option::None => n_outlets <= basin_id@[j] as int
                                && (basin_id@[j] as int) < next_id,
                        }
                    }) by {
                        if j == i as int {
                            assert(basin_id@[i as int] == b);
                            if i as int != o as int {
                                assert(basin_id@[o as int] == old_ids[o as int]);
                            }
                        } else {
                            let t = terminal_of(dirs, w as int, h as int, j, n as int);
                            match t {
                                Option::Some(oj) => {
                                    assert(old_ids[j] == old_ids[oj]);
                                    assert(basin_id@[j] == old_ids[j]);
                                    if i as int != o as int {
                                        assert(terminal_of(
                                            dirs, w as int, h as int, i as int, n as int)
                                            == Some(o as int));
                                        assert(!is_outlet(dirs, w as int, h as int, i as int));
                                        assert(oj != i as int);
                                    }
                                    assert(basin_id@[oj] == old_ids[oj]);
                                },
                                Option::None => {
                                    assert(basin_id@[j] == old_ids[j]);
                                },
                            }
                        }
                    }
                }
            },
            Option::None => {
                proof {
                    lemma_count_outlets_bounded(dirs, w as int, h as int, i as int);
                    lemma_count_outlets_diff(dirs, w as int, h as int, i as int, n as int);
                }
                let ghost old_ids = basin_id@;
                let ghost old_next = next_id as int;
                proof {
                    assert(old_next <= n as int);
                    assert(terminal_of(dirs, w as int, h as int, i as int, n as int) is None);
                    assert(!is_outlet(dirs, w as int, h as int, i as int));
                    assert(old_ids[i as int] == u32::MAX);
                }
                basin_id.set(i, next_id);
                next_id = next_id + 1;
                proof {
                    assert forall|v: int| 0 <= v < next_id
                        implies #[trigger] has_id(basin_id@, v) by {
                        if v == old_next {
                            assert(basin_id@[i as int] as int == v);
                        } else {
                            assert(has_id(old_ids, v));
                            let jv = choose|j: int| 0 <= j < old_ids.len()
                                && (#[trigger] old_ids[j] as int) == v;
                            if jv == i as int {
                                assert(false);
                            } else {
                                assert(basin_id@[jv] as int == v);
                            }
                        }
                    }
                    assert forall|j: int| #![trigger basin_id@[j]] 0 <= j < i + 1 implies ({
                        let t = terminal_of(dirs, w as int, h as int, j, n as int);
                        match t {
                            Option::Some(oj) => 0 <= oj < n && basin_id@[j] == basin_id@[oj]
                                && is_outlet(dirs, w as int, h as int, oj),
                            Option::None => n_outlets <= basin_id@[j] as int
                                && (basin_id@[j] as int) < next_id,
                        }
                    }) by {
                        if j == i as int {
                            assert(basin_id@[i as int] as int == old_next);
                        } else {
                            let t = terminal_of(dirs, w as int, h as int, j, n as int);
                            match t {
                                Option::Some(oj) => {
                                    assert(old_ids[j] == old_ids[oj]);
                                    assert(basin_id@[j] == old_ids[j]);
                                    assert(oj != i as int);
                                    assert(basin_id@[oj] == old_ids[oj]);
                                },
                                Option::None => {
                                    assert(basin_id@[j] == old_ids[j]);
                                },
                            }
                        }
                    }
                }
            },
        }
        i = i + 1;
    }

    // Count the cells of every basin.
    let mut areas: Vec<u32> = Vec::new();
    let mut z: usize = 0;
    let total = next_id as usize;
    while z < total
        invariant
            z <= total,
            areas@.len() == z,
            forall|b: int| 0 <= b < z ==> areas@[b] == 0,
            sum_of(areas@) == 0,
        decreases total - z,
    {
        proof {
            lemma_sum_of_push(areas@, 0);
        }
        areas.push(0);
        z = z + 1;
    }
    let mut i: usize = 0;
    while i < n
        invariant
            i <= n,
            n < u32::MAX,
            total <= u32::MAX,
            basin_id@.len() == n,
            areas@.len() == total,
            forall|j: int| 0 <= j < n ==> (#[trigger] basin_id@[j] as int) < total,
            forall|b: int| 0 <= b < total
                ==> #[trigger] areas@[b] as int == count_id(basin_id@, b as u32, i as int),
            sum_of(areas@) == i,
        decreases n - i,
    {
        let b = basin_id[i] as usize;
        proof {
            lemma_count_id_bounded(basin_id@, b as u32, i as int);
        }
        let updated = areas[b] + 1;
        let ghost old_areas = areas@;
        areas.set(b, updated);
        proof {
            lemma_sum_of_update(old_areas, b as int, updated);
            let s = basin_id@;
            assert forall|bb: int| 0 <= bb < total
                implies #[trigger] areas@[bb] as int == count_id(s, bb as u32, i as int + 1) by {
                assert(count_id(s, bb as u32, i as int + 1) == count_id(s, bb as u32, i as int)
                    + if s[i as int] == bb as u32 { 1int } else { 0int });
                if bb != b as int {
                    assert(s[i as int] == b as u32);
                    assert(s[i as int] != bb as u32);
                }
            }
        }
        i = i + 1;
    }

    proof {
        lemma_partition_postconditions(dirs, w as int, h as int, basin_id@, areas@, n as int,
            n_outlets, next_id as int);
        assert forall|b: int| 0 <= b < areas@.len() implies #[trigger] areas@[b] >= 1 by {
            assert(has_id(basin_id@, b));
            let jb = choose|j: int| 0 <= j < basin_id@.len()
                && (#[trigger] basin_id@[j] as int) == b;
            lemma_count_id_witness(basin_id@, b as u32, jb, n as int);
        }
    }
    BasinPartition { basin_id, areas }
}

/// A prefix count of one id never exceeds the prefix length.
proof fn lemma_count_id_bounded(ids: Seq<u32>, b: u32, k: int)
    requires
        0 <= k <= ids.len(),
    ensures
        0 <= count_id(ids, b, k) <= k,
    decreases k,
{
    if k > 0 {
        lemma_count_id_bounded(ids, b, k - 1);
    }
}

/// There are at most `k` outlets among the first `k` cells.
proof fn lemma_count_outlets_bounded(dirs: Seq<u8>, w: int, h: int, k: int)
    requires
        0 <= k,
    ensures
        0 <= count_outlets(dirs, w, h, k) <= k,
    decreases k,
{
    if k > 0 {
        lemma_count_outlets_bounded(dirs, w, h, k - 1);
    }
}

/// The outlet count grows by at most one per cell.
proof fn lemma_count_outlets_diff(dirs: Seq<u8>, w: int, h: int, a: int, b: int)
    requires
        0 <= a <= b,
    ensures
        count_outlets(dirs, w, h, a) <= count_outlets(dirs, w, h, b)
            <= count_outlets(dirs, w, h, a) + (b - a),
    decreases b - a,
{
    if a < b {
        lemma_count_outlets_diff(dirs, w, h, a, b - 1);
    }
}

/// A terminal found with some fuel is found with any larger fuel, and is an
/// outlet within the raster when the start cell is.
proof fn lemma_terminal_stable(dirs: Seq<u8>, w: int, h: int, i: int, fuel: int)
    requires
        w >= 1,
        h >= 1,
        dirs.len() == w * h,
        0 <= i < w * h,
    ensures
        ({
            let t = terminal_of(dirs, w, h, i, fuel);
            t is Some ==> {
                let o = t->Some_0;
                0 <= o < w * h && is_outlet(dirs, w, h, o)
                    && terminal_of(dirs, w, h, o, fuel) == Some(o)
            }
        }),
    decreases fuel,
{
    match downstream_of(dirs, w, h, i) {
        Option::None => {},
        Option::Some(j) => {
            if fuel > 0 {
                lemma_downstream_in_range(dirs, w, h, i);
                lemma_terminal_stable(dirs, w, h, j, fuel - 1);
                let t = terminal_of(dirs, w, h, i, fuel);
                if t is Some {
                    let o = t->Some_0;
                    lemma_terminal_fuel_monotone(dirs, w, h, o, fuel - 1, fuel);
                }
            }
        },
    }
}

/// Whatever a cell drains to lies on the raster.
proof fn lemma_downstream_in_range(dirs: Seq<u8>, w: int, h: int, i: int)
    requires
        w >= 1,
        0 <= i < w * h,
    ensures
        ({
            let d = downstream_of(dirs, w, h, i);
            d is Some ==> 0 <= d->Some_0 < w * h
        }),
{
    let d = downstream_of(dirs, w, h, i);
    if d is Some {
        let code = dirs[i] as int;
        let nr = i / w + crate::flow::d8_dr(code);
        let nc = i % w + crate::flow::d8_dc(code);
        crate::regime::lemma_cell_index_in_range(nr, nc, w, h);
    }
}

/// An already-terminal cell stays terminal at any fuel.
proof fn lemma_terminal_fuel_monotone(dirs: Seq<u8>, w: int, h: int, o: int, f1: int, f2: int)
    requires
        terminal_of(dirs, w, h, o, f1) == Some(o),
        downstream_of(dirs, w, h, o) is None,
    ensures
        terminal_of(dirs, w, h, o, f2) == Some(o),
{
}

/// Lift the loop facts to the final postconditions.
proof fn lemma_partition_postconditions(
    dirs: Seq<u8>,
    w: int,
    h: int,
    ids: Seq<u32>,
    areas: Seq<u32>,
    n: int,
    n_outlets: int,
    total: int,
)
    requires
        ids.len() == n,
        areas.len() == total,
        0 <= n_outlets <= total,
        forall|j: int| 0 <= j < n ==> (#[trigger] ids[j] as int) < total,
        forall|b: int| 0 <= b < total ==> #[trigger] areas[b] as int == count_id(ids, b as u32, n),
        forall|j: int| #![trigger ids[j]] 0 <= j < n ==> {
            let t = terminal_of(dirs, w, h, j, n);
            t is None ==> n_outlets <= ids[j] as int
        },
        forall|j1: int, j2: int|
            0 <= j1 < n && 0 <= j2 < n && j1 != j2 && #[trigger] ids[j1] == #[trigger] ids[j2]
            ==> (ids[j1] as int) < n_outlets,
    ensures
        forall|j: int| #![trigger ids[j]] 0 <= j < n ==> {
            let t = terminal_of(dirs, w, h, j, n);
            t is None ==> areas[ids[j] as int] == 1
        },
{
    assert forall|j: int| #![trigger ids[j]] 0 <= j < n && terminal_of(dirs, w, h, j, n) is None
        implies areas[ids[j] as int] == 1 by {
        let b = ids[j];
        lemma_count_id_unique(ids, b, n, j, n_outlets);
    }
}

/// If only cell `j` can carry id `b`, the count of `b` over all cells is one.
proof fn lemma_count_id_unique(ids: Seq<u32>, b: u32, k: int, j: int, n_outlets: int)
    requires
        0 <= j < ids.len(),
        k <= ids.len(),
        ids[j] == b,
        b as int >= n_outlets,
        forall|j1: int, j2: int|
            0 <= j1 < ids.len() && 0 <= j2 < ids.len() && j1 != j2
                && #[trigger] ids[j1] == #[trigger] ids[j2]
            ==> (ids[j1] as int) < n_outlets,
    ensures
        count_id(ids, b, k) == if j < k { 1int } else { 0int },
    decreases k,
{
    if k > 0 {
        lemma_count_id_unique(ids, b, k - 1, j, n_outlets);
    }
}

/// The outlet a cell's flow path reaches within `fuel` steps, if any.
fn walk_terminal(flow: &FlowField, start: usize, fuel: usize) -> (found: Option<usize>)
    requires
        flow.wf(),
        flow.width >= 1,
        start < flow.width * flow.height,
    ensures
        ({
            let t = terminal_of(
                flow.direction@,
                flow.width as int,
                flow.height as int,
                start as int,
                fuel as int,
            );
            match found {
                Some(o) => t == Some(o as int) && o < flow.width * flow.height,
                None => t is None,
            }
        }),
{
    let mut cur = start;
    let mut f = fuel;
    while f > 0
        invariant
            flow.wf(),
            flow.width >= 1,
            cur < flow.width * flow.height,
            f <= fuel,
            terminal_of(
                flow.direction@,
                flow.width as int,
                flow.height as int,
                start as int,
                fuel as int,
            ) == terminal_of(
                flow.direction@,
                flow.width as int,
                flow.height as int,
                cur as int,
                f as int,
            ),
        decreases f,
    {
        match flow.downstream_index(cur) {
            Option::None => {
                return Some(cur);
            },
            Option::Some(j) => {
                cur = j;
                f = f - 1;
            },
        }
    }
    match flow.downstream_index(cur) {
        Option::None => Some(cur),
        Option::Some(_) => None,
    }
}

} // verus!

//! Stream network extraction and Strahler order assignment.
//!
//! A cell is a stream cell when its flow accumulation reaches the
//! class-dependent threshold. Strahler orders are assigned in ascending
//! accumulation order: a stream cell without stream donors is a source of
//! order 1; otherwise the cell inherits the maximum donor order, raised by one
//! when two or more donors attain that maximum.
//!
//! A donor of cell `i` can only sit in one of the eight neighbouring cells,
//! one per direction code, so the donor statistics below are indexed by code.

use vstd::prelude::*;
use crate::flow::{d8_dr, d8_dc, donor_at, is_donor, lemma_donor_at_is_donor, FlowField};

verus! {

/// Default minimum upstream cell counts per terrain class.
pub const A_MIN_ALPINE: u32 = 200;
pub const A_MIN_FLUVIAL_HUMID: u32 = 100;
pub const A_MIN_FLUVIAL_ARID: u32 = 300;
pub const A_MIN_CRATONIC: u32 = 500;
pub const A_MIN_COASTAL: u32 = 400;

/// Stream network result.
pub struct StreamNetwork {
    /// `true` for every cell whose accumulation reaches the threshold.
    pub stream_cells: Vec<bool>,
    /// Strahler stream order (1-based); 0 for non-stream cells.
    pub orders: Vec<u8>,
    /// Highest Strahler order found in the network.
    pub max_order: u8,
}

/// Number of stream donors of `i` with direction codes below `c`.
pub open spec fn stream_donor_count(
    dirs: Seq<u8>,
    stream: Seq<bool>,
    w: int,
    h: int,
    i: int,
    c: int,
) -> int
    decreases c,
{
    if c <= 1 {
        0
    } else {
        stream_donor_count(dirs, stream, w, h, i, c - 1) + match donor_at(dirs, w, h, i, c - 1) {
            Option::Some(j) => if stream[j] { 1int } else { 0int },
            Option::None => 0int,
        }
    }
}

/// Largest order among the stream donors of `i` with codes below `c`
/// (0 when there are none).
pub open spec fn max_donor_order(
    orders: Seq<u8>,
    dirs: Seq<u8>,
    stream: Seq<bool>,
    w: int,
    h: int,
    i: int,
    c: int,
) -> int
    decreases c,
{
    if c <= 1 {
        0
    } else {
        let m = max_donor_order(orders, dirs, stream, w, h, i, c - 1);
        match donor_at(dirs, w, h, i, c - 1) {
            Option::Some(j) => if stream[j] && orders[j] > m { orders[j] as int } else { m },
            Option::None => m,
        }
    }
}

/// How many stream donors of `i` with codes below `c` have order exactly `v`.
pub open spec fn count_donor_order(
    orders: Seq<u8>,
    dirs: Seq<u8>,
    stream: Seq<bool>,
    w: int,
    h: int,
    i: int,
    v: int,
    c: int,
) -> int
    decreases c,
{
    if c <= 1 {
        0
    } else {
        count_donor_order(orders, dirs, stream, w, h, i, v, c - 1) + match donor_at(
            dirs,
            w,
            h,
            i,
            c - 1,
        ) {
            Option::Some(j) => if stream[j] && orders[j] == v { 1int } else { 0int },
            Option::None => 0int,
        }
    }
}

/// The Strahler order a stream cell receives once all its donors carry their
/// final orders: 1 at a source; otherwise the maximum donor order, raised by
/// one (saturating at 255) when it is attained at least twice.
pub open spec fn strahler_order_of(
    orders: Seq<u8>,
    dirs: Seq<u8>,
    stream: Seq<bool>,
    w: int,
    h: int,
    i: int,
) -> int {
    let nd = stream_donor_count(dirs, stream, w, h, i, 9);
    if nd == 0 {
        1
    } else {
        let mx = max_donor_order(orders, dirs, stream, w, h, i, 9);
        let cnt = count_donor_order(orders, dirs, stream, w, h, i, mx, 9);
        if cnt >= 2 {
            if mx >= 255 { 255 } else { mx + 1 }
        } else {
            mx
        }
    }
}

/// Donor statistics ignore order changes at cells that are not donors.
proof fn lemma_stats_ignore_non_donor(
    orders: Seq<u8>,
    dirs: Seq<u8>,
    stream: Seq<bool>,
    w: int,
    h: int,
    i: int,
    u: int,
    x: u8,
    c: int,
)
    requires
        0 <= u < orders.len(),
        orders.len() == w * h,
        forall|code: int| 1 <= code <= 8
            ==> #[trigger] donor_at(dirs, w, h, i, code) != Some(u),
        1 <= c <= 9,
    ensures
        max_donor_order(orders.update(u, x), dirs, stream, w, h, i, c)
            == max_donor_order(orders, dirs, stream, w, h, i, c),
        forall|v: int| count_donor_order(orders.update(u, x), dirs, stream, w, h, i, v, c)
            == #[trigger] count_donor_order(orders, dirs, stream, w, h, i, v, c),
    decreases c,
{
    if c > 1 {
        lemma_stats_ignore_non_donor(orders, dirs, stream, w, h, i, u, x, c - 1);
        match donor_at(dirs, w, h, i, c - 1) {
            Option::Some(j) => {
                assert(donor_at(dirs, w, h, i, c - 1) != Some(u));
                let jr = i / w - d8_dr(c - 1);
                let jc = i % w - d8_dc(c - 1);
                crate::regime::lemma_cell_index_in_range(jr, jc, w, h);
                assert(orders.update(u, x)[j] == orders[j]);
            },
            Option::None => {},
        }
        assert forall|v: int|
            count_donor_order(orders.update(u, x), dirs, stream, w, h, i, v, c)
                == #[trigger] count_donor_order(orders, dirs, stream, w, h, i, v, c) by {
            let inc_new: int = match donor_at(dirs, w, h, i, c - 1) {
                Option::Some(j) => if stream[j] && orders.update(u, x)[j] == v {
                    1int
                } else {
                    0int
                },
                Option::None => 0int,
            };
            let inc_old: int = match donor_at(dirs, w, h, i, c - 1) {
                Option::Some(j) => if stream[j] && orders[j] == v { 1int } else { 0int },
                Option::None => 0int,
            };
            assert(count_donor_order(orders.update(u, x), dirs, stream, w, h, i, v, c)
                == count_donor_order(orders.update(u, x), dirs, stream, w, h, i, v, c - 1)
                    + inc_new);
            assert(count_donor_order(orders, dirs, stream, w, h, i, v, c)
                == count_donor_order(orders, dirs, stream, w, h, i, v, c - 1) + inc_old);
            assert(inc_new == inc_old);
        }
    }
}

/// No donor carries an order above the donor maximum.
proof fn lemma_count_above_max_is_zero(
    orders: Seq<u8>,
    dirs: Seq<u8>,
    stream: Seq<bool>,
    w: int,
    h: int,
    i: int,
    v: int,
    c: int,
)
    requires
        1 <= c <= 9,
        v > max_donor_order(orders, dirs, stream, w, h, i, c),
    ensures
        count_donor_order(orders, dirs, stream, w, h, i, v, c) == 0,
    decreases c,
{
    if c > 1 {
        lemma_count_above_max_is_zero(orders, dirs, stream, w, h, i, v, c - 1);
    }
}


/// Stream-donor counts are never negative.
proof fn lemma_stream_donor_count_nonneg(
    dirs: Seq<u8>,
    stream: Seq<bool>,
    w: int,
    h: int,
    i: int,
    c: int,
)
    ensures
        stream_donor_count(dirs, stream, w, h, i, c) >= 0,
    decreases c,
{
    if c > 1 {
        lemma_stream_donor_count_nonneg(dirs, stream, w, h, i, c - 1);
    }
}

/// A positive stream-donor count names at least one donor code.
proof fn lemma_positive_count_has_donor(
    dirs: Seq<u8>,
    stream: Seq<bool>,
    w: int,
    h: int,
    i: int,
    c: int,
)
    requires
        1 <= c <= 9,
        stream_donor_count(dirs, stream, w, h, i, c) > 0,
    ensures
        exists|code: int| 1 <= code < c
            && #[trigger] donor_at(dirs, w, h, i, code) is Some
            && stream[donor_at(dirs, w, h, i, code)->Some_0],
    decreases c,
{
    if c > 1 {
        match donor_at(dirs, w, h, i, c - 1) {
            Option::Some(j) => {
                if stream[j] {
                    assert(donor_at(dirs, w, h, i, c - 1) is Some);
                } else {
                    lemma_positive_count_has_donor(dirs, stream, w, h, i, c - 1);
                }
            },
            Option::None => {
                lemma_positive_count_has_donor(dirs, stream, w, h, i, c - 1);
            },
        }
    }
}

/// The donor maximum dominates the order of every stream donor.
proof fn lemma_max_donor_order_dominates(
    orders: Seq<u8>,
    dirs: Seq<u8>,
    stream: Seq<bool>,
    w: int,
    h: int,
    i: int,
    code: int,
    c: int,
)
    requires
        1 <= code < c <= 9,
        donor_at(dirs, w, h, i, code) is Some,
        stream[donor_at(dirs, w, h, i, code)->Some_0],
    ensures
        max_donor_order(orders, dirs, stream, w, h, i, c)
            >= orders[donor_at(dirs, w, h, i, code)->Some_0],
    decreases c,
{
    if code < c - 1 {
        lemma_max_donor_order_dominates(orders, dirs, stream, w, h, i, code, c - 1);
    }
}

/// On a consistently accumulated flow field — every stream donor carries
/// strictly smaller accumulation than the cell it feeds — every stream cell
/// whose orders satisfy the Strahler recurrence has order at least one:
/// sources are order 1 and a junction never orders below its donors.
pub proof fn lemma_stream_orders_positive(
    orders: Seq<u8>,
    dirs: Seq<u8>,
    stream: Seq<bool>,
    acc: Seq<u32>,
    w: int,
    h: int,
    t: int,
)
    requires
        w >= 1,
        dirs.len() == w * h,
        stream.len() == w * h,
        orders.len() == w * h,
        acc.len() == w * h,
        0 <= t < w * h,
        stream[t],
        forall|i: int| 0 <= i < w * h && #[trigger] stream[i]
            ==> orders[i] as int == strahler_order_of(orders, dirs, stream, w, h, i),
        forall|j: int, i: int|
            #[trigger] is_donor(dirs, w, h, j, i) && 0 <= i < w * h && stream[j] && stream[i]
            ==> acc[j] < acc[i],
    ensures
        orders[t] >= 1,
    decreases acc[t] as int,
{
    if stream_donor_count(dirs, stream, w, h, t, 9) == 0 {
        assert(orders[t] as int == 1);
    } else {
        lemma_stream_donor_count_nonneg(dirs, stream, w, h, t, 9);
        lemma_positive_count_has_donor(dirs, stream, w, h, t, 9);
        let code = choose|code: int| 1 <= code < 9
            && #[trigger] donor_at(dirs, w, h, t, code) is Some
            && stream[donor_at(dirs, w, h, t, code)->Some_0];
        let j = donor_at(dirs, w, h, t, code)->Some_0;
        lemma_donor_at_is_donor(dirs, w, h, t, code);
        assert(acc[j] < acc[t]);
        lemma_stream_orders_positive(orders, dirs, stream, acc, w, h, j);
        lemma_max_donor_order_dominates(orders, dirs, stream, w, h, t, code, 9);
        assert(max_donor_order(orders, dirs, stream, w, h, t, 9) >= 1);
    }
}

/// Donor statistics of cell `i` over the current orders raster: the number of
/// stream donors, their maximum order, and how often that maximum occurs.
fn scan_donor_stats(
    flow: &FlowField,
    stream: &Vec<bool>,
    orders: &Vec<u8>,
    i: usize,
) -> (stats: (u32, u8, u32))
    requires
        flow.wf(),
        flow.width >= 1,
        stream@.len() == flow.width * flow.height,
        orders@.len() == flow.width * flow.height,
        i < flow.width * flow.height,
    ensures
        stats.0 == stream_donor_count(
            flow.direction@, stream@, flow.width as int, flow.height as int, i as int, 9),
        stats.1 as int == max_donor_order(
            orders@, flow.direction@, stream@, flow.width as int, flow.height as int, i as int, 9),
        stats.2 == count_donor_order(
            orders@, flow.direction@, stream@, flow.width as int, flow.height as int, i as int,
            stats.1 as int, 9),
{
    let w = flow.width;
    let h = flow.height;
    let ghost dirs = flow.direction@;
    let r = i / w;
    let c = i % w;
    proof {
        vstd::arithmetic::div_mod::lemma_fundamental_div_mod(i as int, w as int);
        vstd::arithmetic::div_mod::lemma_mod_bound(i as int, w as int);
        assert(r < h) by (nonlinear_arith)
            requires
                i as int == w as int * (i as int / w as int) + i as int % w as int,
                i as int % w as int >= 0,
                (i as int) < w as int * h as int,
                w as int >= 1,
                r == i as int / w as int,
        ;
    }
    let mut nd: u32 = 0;
    let mut mx: u8 = 0;
    let mut cnt: u32 = 0;
    let mut code: u8 = 1;
    while code <= 8
        invariant
            1 <= code <= 9,
            flow.wf(),
            w == flow.width,
            h == flow.height,
            1 <= w,
            dirs == flow.direction@,
            stream@.len() == w * h,
            orders@.len() == w * h,
            i < w * h,
            r == i as int / w as int,
            c == i as int % w as int,
            r < h,
            c < w,
            nd == stream_donor_count(dirs, stream@, w as int, h as int, i as int, code as int),
            nd < code,
            mx as int == max_donor_order(
                orders@, dirs, stream@, w as int, h as int, i as int, code as int),
            cnt == count_donor_order(
                orders@, dirs, stream@, w as int, h as int, i as int, mx as int, code as int),
            cnt < code,
        decreases 9 - code,
    {
        proof {
            assert(r as int <= 0xffff_ffff_ffff_ffffu64 as int);
            assert(c as int <= 0xffff_ffff_ffff_ffffu64 as int);
        }
        let (dr, dc) = crate::flow::d8_offset(code);
        let jr = r as i128 - dr as i128;
        let jc = c as i128 - dc as i128;
        if 0 <= jr && jr < h as i128 && 0 <= jc && jc < w as i128 {
            proof {
                crate::regime::lemma_cell_index_in_range(jr as int, jc as int, w as int, h as int);
            }
            let j = (jr as usize) * w + (jc as usize);
            if flow.direction[j] == code {
                proof {
                    assert(donor_at(dirs, w as int, h as int, i as int, code as int)
                        == Some(j as int));
                }
                if stream[j] {
                    nd = nd + 1;
                    let ord_j = orders[j];
                    if ord_j > mx {
                        proof {
                            lemma_count_above_max_is_zero(
                                orders@, dirs, stream@, w as int, h as int, i as int,
                                ord_j as int, code as int);
                        }
                        mx = ord_j;
                        cnt = 1;
                    } else if ord_j == mx {
                        cnt = cnt + 1;
                    }
                }
            } else {
                proof {
                    assert(donor_at(dirs, w as int, h as int, i as int, code as int) is None);
                }
            }
        } else {
            proof {
                assert(donor_at(dirs, w as int, h as int, i as int, code as int) is None);
            }
        }
        code = code + 1;
    }
    (nd, mx, cnt)
}

/// `a` drains strictly before `b` in processing order: smaller accumulation,
/// with the raster index as tie-break.
pub open spec fn key_lt(acc: Seq<u32>, a: int, b: int) -> bool {
    acc[a] < acc[b] || (acc[a] == acc[b] && a < b)
}

/// Extract a stream network and assign Strahler orders.
///
/// `a_min` — minimum upstream cell count for a cell to be a stream cell.
///
/// For every stream cell whose stream donors all carry strictly smaller
/// accumulation — which holds of any consistently accumulated flow field —
/// the assigned order satisfies the Strahler recurrence over its donors.
pub fn extract_stream_network(flow: &FlowField, a_min: u32) -> (net: StreamNetwork)
    requires
        flow.wf(),
    ensures
        net.stream_cells@.len() == flow.width * flow.height,
        net.orders@.len() == flow.width * flow.height,
        forall|i: int| 0 <= i < net.stream_cells@.len()
            ==> #[trigger] net.stream_cells@[i] == (flow.accumulation@[i] >= a_min),
        forall|i: int| 0 <= i < net.orders@.len() && !net.stream_cells@[i]
            ==> #[trigger] net.orders@[i] == 0,
        forall|i: int| 0 <= i < net.orders@.len()
            ==> #[trigger] net.orders@[i] <= net.max_order,
        net.orders@.len() > 0 ==> exists|i: int|
            0 <= i < net.orders@.len() && #[trigger] net.orders@[i] == net.max_order,
        net.orders@.len() == 0 ==> net.max_order == 0,
        forall|i: int|
            #![trigger net.orders@[i]]
            0 <= i < net.orders@.len() && net.stream_cells@[i]
                && (forall|j: int|
                    #[trigger] is_donor(flow.direction@, flow.width as int, flow.height as int,
                        j, i)
                        && net.stream_cells@[j]
                    ==> flow.accumulation@[j] < flow.accumulation@[i])
            ==> net.orders@[i] as int == strahler_order_of(
                net.orders@,
                flow.direction@,
                net.stream_cells@,
                flow.width as int,
                flow.height as int,
                i,
            ),
{
    let w = flow.width;
    let h = flow.height;
    let n = w * h;
    let ghost dirs = flow.direction@;
    let ghost acc = flow.accumulation@;

    // Stream mask.
    let mut stream_cells: Vec<bool> = Vec::new();
    let mut i: usize = 0;
    while i < n
        invariant
            i <= n,
            n == w * h,
            flow.wf(),
            flow.width == w,
            flow.height == h,
            acc == flow.accumulation@,
            stream_cells@.len() == i,
            forall|k: int| 0 <= k < i ==> #[trigger] stream_cells@[k] == (acc[k] >= a_min),
        decreases n - i,
    {
        stream_cells.push(flow.accumulation[i] >= a_min);
        i = i + 1;
    }

    // Zero orders.
    let mut orders: Vec<u8> = Vec::new();
    let mut i: usize = 0;
    while i < n
        invariant
            i <= n,
            orders@.len() == i,
            forall|k: int| 0 <= k < i ==> #[trigger] orders@[k] == 0,
        decreases n - i,
    {
        orders.push(0);
        i = i + 1;
    }

    // Stream cells in ascending (accumulation, index) order.
    let mut sorted: Vec<usize> = Vec::new();
    let mut i: usize = 0;
    while i < n
        invariant
            i <= n,
            n == w * h,
            flow.wf(),
            flow.width == w,
            flow.height == h,
            acc == flow.accumulation@,
            stream_cells@.len() == n,
            forall|k: int| 0 <= k < n ==> #[trigger] stream_cells@[k] == (acc[k] >= a_min),
            forall|q: int| 0 <= q < sorted@.len()
                ==> (#[trigger] sorted@[q] as int) < i && stream_cells@[sorted@[q] as int],
            forall|q1: int, q2: int| 0 <= q1 < q2 < sorted@.len()
                ==> key_lt(acc, sorted@[q1] as int, sorted@[q2] as int),
            forall|t: int| 0 <= t < i && stream_cells@[t]
                ==> exists|q: int| 0 <= q < sorted@.len() && #[trigger] sorted@[q] as int == t,
        decreases n - i,
    {
        if stream_cells[i] {
            let a_i = flow.accumulation[i];
            let mut pos: usize = 0;
            while pos < sorted.len()
                && (flow.accumulation[sorted[pos]] < a_i
                    || (flow.accumulation[sorted[pos]] == a_i && sorted[pos] < i))
                invariant
                    pos <= sorted@.len(),
                    i < n,
                    n == w * h,
                    flow.wf(),
                    flow.width == w,
                    flow.height == h,
                    acc == flow.accumulation@,
                    a_i == acc[i as int],
                    forall|q: int| 0 <= q < sorted@.len()
                        ==> (#[trigger] sorted@[q] as int) < i,
                    forall|q: int| 0 <= q < pos ==> key_lt(acc, #[trigger] sorted@[q] as int,
                        i as int),
                decreases sorted@.len() - pos,
            {
                pos = pos + 1;
            }
            let ghost before = sorted@;
            sorted.insert(pos, i);
            proof {
                assert(sorted@ == before.insert(pos as int, i as usize));
                assert forall|t: int| 0 <= t < i + 1 && stream_cells@[t]
                    implies exists|q: int|
                        0 <= q < sorted@.len() && #[trigger] sorted@[q] as int == t by {
                    if t == i {
                        assert(sorted@[pos as int] as int == t);
                    } else {
                        let q0 = choose|q0: int|
                            0 <= q0 < before.len() && #[trigger] before[q0] as int == t;
                        if q0 < pos {
                            assert(sorted@[q0] as int == t);
                        } else {
                            assert(sorted@[q0 + 1] as int == t);
                        }
                    }
                }
                if (pos as int) < before.len() {
                    assert(!key_lt(acc, before[pos as int] as int, i as int));
                    assert((before[pos as int] as int) < i as int);
                    assert(key_lt(acc, i as int, before[pos as int] as int));
                }
                assert forall|q: int| pos <= q < before.len()
                    implies key_lt(acc, i as int, #[trigger] before[q] as int) by {
                    if q > pos {
                        assert(key_lt(acc, before[pos as int] as int, before[q] as int));
                    }
                }
                assert forall|q1: int, q2: int| 0 <= q1 < q2 < sorted@.len()
                    implies key_lt(acc, sorted@[q1] as int, sorted@[q2] as int) by {
                    if q1 < pos {
                        assert(sorted@[q1] == before[q1]);
                    } else if q1 == pos {
                        assert(sorted@[q1] == i as usize);
                    } else {
                        assert(sorted@[q1] == before[q1 - 1]);
                    }
                    if q2 < pos {
                        assert(sorted@[q2] == before[q2]);
                    } else if q2 == pos {
                        assert(sorted@[q2] == i as usize);
                    } else {
                        assert(sorted@[q2] == before[q2 - 1]);
                    }
                }
            }
        }
        i = i + 1;
    }

    // Assign orders in ascending accumulation order.
    let ghost mut done: Seq<bool> = Seq::new(n as nat, |j: int| false);
    let m = sorted.len();
    let mut p: usize = 0;
    while p < m
        invariant
            p <= m,
            m == sorted@.len(),
            n == w * h,
            flow.wf(),
            flow.width == w,
            flow.height == h,
            dirs == flow.direction@,
            acc == flow.accumulation@,
            stream_cells@.len() == n,
            orders@.len() == n,
            done.len() == n,
            forall|k: int| 0 <= k < n ==> #[trigger] stream_cells@[k] == (acc[k] >= a_min),
            forall|q: int| 0 <= q < m
                ==> (#[trigger] sorted@[q] as int) < n && stream_cells@[sorted@[q] as int],
            forall|q1: int, q2: int| 0 <= q1 < q2 < m
                ==> key_lt(acc, sorted@[q1] as int, sorted@[q2] as int),
            forall|t: int| 0 <= t < n && stream_cells@[t]
                ==> exists|q: int| 0 <= q < m && #[trigger] sorted@[q] as int == t,
            forall|t: int| 0 <= t < n
                ==> (#[trigger] done[t] <==> exists|q: int|
                    0 <= q < p && #[trigger] sorted@[q] as int == t),
            forall|t: int| 0 <= t < n && !done[t] ==> #[trigger] orders@[t] == 0,
            forall|t: int|
                #![trigger done[t]]
                0 <= t < n && done[t]
                    && (forall|j: int|
                        #[trigger] is_donor(dirs, w as int, h as int, j, t) && stream_cells@[j]
                        ==> acc[j] < acc[t])
                ==> orders@[t] as int == strahler_order_of(
                    orders@, dirs, stream_cells@, w as int, h as int, t),
        decreases m - p,
    {
        let i = sorted[p];
        proof {
            assert(w * h > 0);
            assert(w >= 1) by (nonlinear_arith)
                requires w * h > 0;
            assert(!done[i as int]) by {
                if done[i as int] {
                    let q = choose|q: int| 0 <= q < p && #[trigger] sorted@[q] as int == i as int;
                    assert(key_lt(acc, sorted@[q] as int, sorted@[p as int] as int));
                }
            }
        }
        let (nd, mx, cnt) = scan_donor_stats(flow, &stream_cells, &orders, i);
        let ord: u8 = if nd == 0 {
            1
        } else if cnt >= 2 {
            if mx == 255 { 255 } else { mx + 1 }
        } else {
            mx
        };
        let ghost old_orders = orders@;
        orders.set(i, ord);
        proof {
            assert(orders@ == old_orders.update(i as int, ord));
            let wi = w as int;
            let hi = h as int;
            // A later cell is never a donor of an earlier one whose donors all
            // carry smaller accumulation, so the statistics of settled cells
            // are untouched.
            assert forall|t: int|
                #![trigger done[t]]
                0 <= t < n && (done[t] || t == i as int)
                    && (forall|j: int|
                        #[trigger] is_donor(dirs, wi, hi, j, t) && stream_cells@[j]
                        ==> acc[j] < acc[t])
                implies orders@[t] as int == strahler_order_of(
                    orders@, dirs, stream_cells@, wi, hi, t) by {
                assert forall|code: int| 1 <= code <= 8
                    implies #[trigger] donor_at(dirs, wi, hi, t, code) != Some(i as int) by {
                    if donor_at(dirs, wi, hi, t, code) == Some(i as int) {
                        lemma_donor_at_is_donor(dirs, wi, hi, t, code);
                        assert(acc[i as int] < acc[t]);
                        if done[t] {
                            let q = choose|q: int|
                                0 <= q < p && #[trigger] sorted@[q] as int == t;
                            assert(key_lt(acc, sorted@[q] as int, sorted@[p as int] as int));
                            assert(false);
                        } else {
                            assert(false);
                        }
                    }
                }
                lemma_stats_ignore_non_donor(
                    old_orders, dirs, stream_cells@, wi, hi, t, i as int, ord, 9);
                if t == i as int {
                    assert(orders@[t] == ord);
                } else {
                    assert(orders@[t] == old_orders[t]);
                }
            }
            done = done.update(i as int, true);
            assert forall|t: int| 0 <= t < n
                implies (#[trigger] done[t] <==> exists|q: int|
                    0 <= q < p + 1 && #[trigger] sorted@[q] as int == t) by {
                if t == i as int {
                    assert(sorted@[p as int] as int == t);
                }
            }
        }
        p = p + 1;
    }

    // Highest order in the network.
    let mut max_order: u8 = 0;
    let mut i: usize = 0;
    while i < n
        invariant
            i <= n,
            orders@.len() == n,
            forall|k: int| 0 <= k < i ==> #[trigger] orders@[k] <= max_order,
            i > 0 ==> exists|k: int| 0 <= k < i && #[trigger] orders@[k] == max_order,
            i == 0 ==> max_order == 0,
        decreases n - i,
    {
        if orders[i] > max_order {
            max_order = orders[i];
        } else if i == 0 {
            max_order = orders[0];
        }
        i = i + 1;
    }

    proof {
        let wi = w as int;
        let hi = h as int;
        assert forall|t: int| 0 <= t < n && !stream_cells@[t]
            implies #[trigger] orders@[t] == 0 by {
            if done[t] {
                let q = choose|q: int| 0 <= q < p && #[trigger] sorted@[q] as int == t;
                assert(stream_cells@[sorted@[q] as int]);
            }
        }
        assert forall|t: int|
            #![trigger orders@[t]]
            0 <= t < n && stream_cells@[t]
                && (forall|j: int|
                    #[trigger] is_donor(dirs, wi, hi, j, t) && stream_cells@[j]
                    ==> acc[j] < acc[t])
            implies orders@[t] as int == strahler_order_of(
                orders@, dirs, stream_cells@, wi, hi, t) by {
            let q = choose|q: int| 0 <= q < m && #[trigger] sorted@[q] as int == t;
            assert(done[t]);
        }
    }
    StreamNetwork { stream_cells, orders, max_order }
}

} // verus!

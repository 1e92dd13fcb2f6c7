use terra_core::basins::delineate_basins;
use terra_core::flow::{accumulate_flow, d8_offset, is_glacial_head, FlowField};
use terra_core::stream_network::{extract_stream_network, A_MIN_FLUVIAL_HUMID};

fn empty_flow(width: usize, height: usize) -> FlowField {
    let n = width * height;
    FlowField { direction: vec![0u8; n], accumulation: vec![1u32; n], width, height }
}

/// Direct flow-field encoding of a Strahler-3 network:
///
/// two pairs of sources merge into two order-2 channels, which merge again
/// into a single order-3 outlet at (3,2).
#[test]
fn strahler_3_explicit_topology() {
    let rows = 4usize;
    let cols = 5usize;
    let n = rows * cols;
    let idx = |r: usize, c: usize| r * cols + c;

    let mut direction = vec![0u8; n];
    let mut accumulation = vec![1u32; n];

    // s1(0,0)->S->(1,0);  s2(0,1)->SW->(1,0)
    direction[idx(0, 0)] = 5;
    direction[idx(0, 1)] = 6;
    // s3(0,3)->SE->(1,4); s4(0,4)->S->(1,4)
    direction[idx(0, 3)] = 4;
    direction[idx(0, 4)] = 5;
    // mA(1,0)->SE->(2,1); mB(1,4)->SW->(2,3)
    direction[idx(1, 0)] = 4;
    direction[idx(1, 4)] = 6;
    // (2,1)->SE->(3,2);  (2,3)->SW->(3,2)
    direction[idx(2, 1)] = 4;
    direction[idx(2, 3)] = 6;
    // (3,2) = outlet, direction stays 0

    // Accumulation manually computed:
    accumulation[idx(1, 0)] = 3; // s1+s2+self
    accumulation[idx(1, 4)] = 3; // s3+s4+self
    accumulation[idx(2, 1)] = 4; // mA+self
    accumulation[idx(2, 3)] = 4; // mB+self
    accumulation[idx(3, 2)] = 9; // (2,1)+(2,3)+self

    let flow = FlowField { direction, accumulation, width: cols, height: rows };
    let net = extract_stream_network(&flow, 1);

    assert_eq!(net.max_order, 3, "Expected Strahler order 3, got {}", net.max_order);
    assert_eq!(net.orders[idx(1, 0)], 2, "mA (1,0) should be order 2");
    assert_eq!(net.orders[idx(1, 4)], 2, "mB (1,4) should be order 2");
    assert_eq!(net.orders[idx(3, 2)], 3, "(3,2) should be order 3");
}

#[test]
fn stream_mask_follows_threshold() {
    let mut flow = empty_flow(4, 2);
    flow.accumulation = vec![1, 99, 100, 101, 250, 0, 100, 7];
    let net = extract_stream_network(&flow, A_MIN_FLUVIAL_HUMID);
    let expected = [false, false, true, true, true, false, true, false];
    assert_eq!(net.stream_cells, expected.to_vec());
}

#[test]
fn non_stream_cells_have_order_zero() {
    let rows = 4usize;
    let cols = 5usize;
    let idx = |r: usize, c: usize| r * cols + c;
    let mut flow = empty_flow(cols, rows);
    flow.direction[idx(0, 0)] = 5;
    flow.accumulation[idx(1, 0)] = 2;
    let net = extract_stream_network(&flow, 2);
    for i in 0..rows * cols {
        if !net.stream_cells[i] {
            assert_eq!(net.orders[i], 0, "non-stream cell {i} should have order 0");
        }
    }
}

#[test]
fn isolated_stream_cells_are_sources() {
    // Every cell a sink with accumulation 1: all stream cells at threshold 1,
    // none has a donor, so every order is 1.
    let net = extract_stream_network(&empty_flow(3, 3), 1);
    assert!(net.orders.iter().all(|&o| o == 1));
    assert_eq!(net.max_order, 1);
}

#[test]
fn empty_network_for_empty_grid() {
    let net = extract_stream_network(&empty_flow(0, 5), 1);
    assert!(net.stream_cells.is_empty());
    assert!(net.orders.is_empty());
    assert_eq!(net.max_order, 0);
}

#[test]
fn basin_areas_sum_to_grid_size() {
    // The Strahler-3 topology: one outlet at (3,2) plus sinks everywhere else.
    let rows = 4usize;
    let cols = 5usize;
    let n = rows * cols;
    let idx = |r: usize, c: usize| r * cols + c;
    let mut direction = vec![0u8; n];
    direction[idx(0, 0)] = 5;
    direction[idx(0, 1)] = 6;
    direction[idx(0, 3)] = 4;
    direction[idx(0, 4)] = 5;
    direction[idx(1, 0)] = 4;
    direction[idx(1, 4)] = 6;
    direction[idx(2, 1)] = 4;
    direction[idx(2, 3)] = 6;
    let flow = FlowField { direction, accumulation: vec![1; n], width: cols, height: rows };
    let part = delineate_basins(&flow);
    assert_eq!(part.basin_id.len(), n);
    let total: u64 = part.areas.iter().map(|&a| a as u64).sum();
    assert_eq!(total, n as u64, "sum of basin areas must equal total cells");
    // The outlet's basin holds the outlet and its eight upstream cells.
    let outlet_basin = part.basin_id[idx(3, 2)];
    assert_eq!(part.areas[outlet_basin as usize], 9);
    // Every cell of the network shares that basin.
    for (r, c) in [(0, 0), (0, 1), (0, 3), (0, 4), (1, 0), (1, 4), (2, 1), (2, 3)] {
        assert_eq!(part.basin_id[idx(r, c)], outlet_basin);
    }
}

#[test]
fn flow_cycle_cells_become_singleton_basins() {
    // Two cells pointing at each other never reach an outlet.
    let mut direction = vec![0u8; 4];
    direction[0] = 3; // (0,0) -> E -> (0,1)
    direction[1] = 7; // (0,1) -> W -> (0,0)
    let flow = FlowField { direction, accumulation: vec![1; 4], width: 4, height: 1 };
    let part = delineate_basins(&flow);
    let total: u64 = part.areas.iter().map(|&a| a as u64).sum();
    assert_eq!(total, 4);
    assert_ne!(part.basin_id[0], part.basin_id[1]);
    assert_eq!(part.areas[part.basin_id[0] as usize], 1);
    assert_eq!(part.areas[part.basin_id[1] as usize], 1);
}

#[test]
fn outlets_are_numbered_in_raster_order() {
    // All sinks: every cell is its own outlet, numbered 0..n.
    let flow = empty_flow(3, 2);
    let part = delineate_basins(&flow);
    for i in 0..6u32 {
        assert_eq!(part.basin_id[i as usize], i);
        assert_eq!(part.areas[i as usize], 1);
    }
}

#[test]
fn basins_of_empty_grid() {
    let part = delineate_basins(&empty_flow(0, 3));
    assert!(part.basin_id.is_empty());
    assert!(part.areas.is_empty());
}

#[test]
fn d8_offsets_match_encoding() {
    // 1 = N, 2 = NE, 3 = E, 4 = SE, 5 = S, 6 = SW, 7 = W, 8 = NW.
    assert_eq!(d8_offset(1), (-1, 0));
    assert_eq!(d8_offset(2), (-1, 1));
    assert_eq!(d8_offset(3), (0, 1));
    assert_eq!(d8_offset(4), (1, 1));
    assert_eq!(d8_offset(5), (1, 0));
    assert_eq!(d8_offset(6), (1, -1));
    assert_eq!(d8_offset(7), (0, -1));
    assert_eq!(d8_offset(8), (-1, -1));
}

#[test]
fn downstream_respects_raster_edges() {
    // A 2x2 grid whose north-west cell points north: off the raster, a sink.
    let mut flow = empty_flow(2, 2);
    flow.direction[0] = 1;
    flow.direction[3] = 8; // south-east cell points north-west
    assert_eq!(flow.downstream_index(0), None);
    assert_eq!(flow.downstream_index(1), None);
    assert_eq!(flow.downstream_index(3), Some(0));
}

#[test]
fn glacial_head_has_no_glacial_donor() {
    // Column of flow: (0,0) -> S -> (1,0) -> S -> (2,0), all glacial.
    let cols = 2usize;
    let mut flow = empty_flow(cols, 3);
    flow.direction[0] = 5;
    flow.direction[cols] = 5;
    let glacial = vec![true, false, true, false, true, false];
    assert!(is_glacial_head(&glacial, &flow, 0, cols), "top of the channel is a head");
    assert!(!is_glacial_head(&glacial, &flow, 2 * cols, cols), "fed cell is not a head");
    // A cell whose donor is not glacial is still a head.
    let sparse = vec![false, false, true, false, true, false];
    assert!(is_glacial_head(&sparse, &flow, cols, cols));
}

#[test]
fn accumulation_counts_upstream_cells() {
    // The Strahler-3 topology: every cell's accumulation is one plus its
    // donors' total, so the outlet gathers the whole network.
    let rows = 4usize;
    let cols = 5usize;
    let n = rows * cols;
    let idx = |r: usize, c: usize| r * cols + c;
    let mut direction = vec![0u8; n];
    direction[idx(0, 0)] = 5;
    direction[idx(0, 1)] = 6;
    direction[idx(0, 3)] = 4;
    direction[idx(0, 4)] = 5;
    direction[idx(1, 0)] = 4;
    direction[idx(1, 4)] = 6;
    direction[idx(2, 1)] = 4;
    direction[idx(2, 3)] = 6;
    let acc = accumulate_flow(&direction, cols, rows).unwrap();
    assert_eq!(acc[idx(0, 0)], 1);
    assert_eq!(acc[idx(1, 0)], 3);
    assert_eq!(acc[idx(1, 4)], 3);
    assert_eq!(acc[idx(2, 1)], 4);
    assert_eq!(acc[idx(2, 3)], 4);
    assert_eq!(acc[idx(3, 2)], 9);
}

#[test]
fn accumulation_of_a_chain() {
    // A west-to-east chain: accumulation grows by one per step.
    let direction = vec![3u8, 3, 3, 0];
    let acc = accumulate_flow(&direction, 4, 1).unwrap();
    assert_eq!(acc, vec![1, 2, 3, 4]);
}

#[test]
fn accumulation_refuses_a_cycle() {
    // Two cells pointing at each other never settle.
    let mut direction = vec![0u8; 4];
    direction[0] = 3;
    direction[1] = 7;
    assert!(accumulate_flow(&direction, 4, 1).is_none());
}

#[test]
fn accumulation_of_empty_grid() {
    let acc = accumulate_flow(&Vec::new(), 0, 3).unwrap();
    assert!(acc.is_empty());
}

#[test]
fn every_listed_basin_is_non_empty() {
    // A mixed raster: an outlet-fed network, plain sinks, and a flow cycle.
    let mut direction = vec![0u8; 8];
    direction[0] = 3; // (0,0) -> E -> (0,1)
    direction[1] = 3; // (0,1) -> E -> (0,2)
    direction[5] = 3; // (0,5) -> E -> (0,6)
    direction[6] = 7; // (0,6) -> W -> (0,5): a two-cell cycle
    let flow = FlowField { direction, accumulation: vec![1; 8], width: 8, height: 1 };
    let part = delineate_basins(&flow);
    assert!(!part.areas.is_empty());
    assert!(part.areas.iter().all(|&a| a >= 1), "every listed basin id is used");
    let total: u64 = part.areas.iter().map(|&a| a as u64).sum();
    assert_eq!(total, 8);
}

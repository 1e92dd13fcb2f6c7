//! Continental crust assignment and margin classification.
//!
//! Crust is classified from the normalised lithospheric age and from proximity
//! to subduction arcs. Age is carried here in thousandths (0 = at a ridge,
//! 1000 = oldest crust); the caller derives it from the ridge distance field.

use vstd::prelude::*;

verus! {

/// Classification of a grid cell's crust type.
#[derive(Debug, Clone, Copy, PartialEq, Eq, Structural)]
pub enum CrustType {
    Oceanic,
    Continental,
    ActiveMargin,
    PassiveMargin,
}

/// Normalised age (thousandths) below which crust stays oceanic.
pub const CONTINENTAL_AGE_THRESHOLD_MILLI: u32 = 500;

/// Normalised age (thousandths) above which old stable crust is cratonic.
pub const CRATON_AGE_THRESHOLD_MILLI: u32 = 800;

/// Normalised age (thousandths) at which old oceanic crust initiates subduction.
pub const SUBDUCTION_AGE_THRESHOLD_MILLI: u32 = 650;

/// The crust type a cell receives: young crust is oceanic; old crust near a
/// subduction arc is an active margin; very old crust far from arcs is
/// continental basement; the rest is a passive margin.
pub open spec fn crust_of(age_milli: u32, near_subduction: bool) -> CrustType {
    if age_milli < CONTINENTAL_AGE_THRESHOLD_MILLI {
        CrustType::Oceanic
    } else if near_subduction {
        CrustType::ActiveMargin
    } else if age_milli > CRATON_AGE_THRESHOLD_MILLI {
        CrustType::Continental
    } else {
        CrustType::PassiveMargin
    }
}

/// Classify a single cell from its normalised age and arc proximity.
pub fn classify_crust_cell(age_milli: u32, near_subduction: bool) -> (crust: CrustType)
    ensures
        crust == crust_of(age_milli, near_subduction),
{
    if age_milli < CONTINENTAL_AGE_THRESHOLD_MILLI {
        CrustType::Oceanic
    } else if near_subduction {
        CrustType::ActiveMargin
    } else if age_milli > CRATON_AGE_THRESHOLD_MILLI {
        CrustType::Continental
    } else {
        CrustType::PassiveMargin
    }
}

/// Assign crust type to every cell in the `width × height` grid.
///
/// `age_milli[i]` is the normalised lithospheric age of cell `i` in
/// thousandths; `near_subduction[i]` says whether cell `i` lies within the
/// active-margin radius (5°) of some subduction arc.
pub fn assign_continental_crust(
    age_milli: &Vec<u32>,
    near_subduction: &Vec<bool>,
    width: usize,
    height: usize,
) -> (crust_field: Vec<CrustType>)
    requires
        width * height <= usize::MAX,
        age_milli@.len() == width * height,
        near_subduction@.len() == width * height,
    ensures
        crust_field@.len() == width * height,
        forall|i: int| 0 <= i < crust_field@.len()
            ==> crust_field@[i] == crust_of(age_milli@[i], near_subduction@[i]),
{
    let n = width * height;
    let mut result: Vec<CrustType> = Vec::new();
    let mut i: usize = 0;
    while i < n
        invariant
            i <= n,
            age_milli@.len() == n,
            near_subduction@.len() == n,
            result@.len() == i,
            forall|k: int| 0 <= k < i
                ==> result@[k] == crust_of(age_milli@[k], near_subduction@[k]),
        decreases n - i,
    {
        result.push(classify_crust_cell(age_milli[i], near_subduction[i]));
        i = i + 1;
    }
    result
}

/// Returns `true` if the cell is any form of continental crust.
pub fn is_continental(crust: CrustType) -> (continental: bool)
    ensures
        continental == (crust != CrustType::Oceanic),
{
    match crust {
        CrustType::Continental => true,
        CrustType::ActiveMargin => true,
        CrustType::PassiveMargin => true,
        CrustType::Oceanic => false,
    }
}

/// Cell `(r, c)` is old enough to initiate subduction.
pub open spec fn is_subduction_site(age_milli: Seq<u32>, width: int, r: int, c: int) -> bool {
    age_milli[r * width + c] >= SUBDUCTION_AGE_THRESHOLD_MILLI
}

/// All grid cells whose normalised age reaches the subduction-initiation
/// threshold: every such cell, each once, in raster order.
pub fn find_subduction_sites(
    age_milli: &Vec<u32>,
    width: usize,
    height: usize,
) -> (sites: Vec<(usize, usize)>)
    requires
        width * height <= usize::MAX,
        age_milli@.len() == width * height,
    ensures
        forall|k: int| 0 <= k < sites@.len() ==> {
            let (r, c) = #[trigger] sites@[k];
            r < height && c < width
                && is_subduction_site(age_milli@, width as int, r as int, c as int)
        },
        forall|r: int, c: int|
            0 <= r < height && 0 <= c < width
                && #[trigger] is_subduction_site(age_milli@, width as int, r, c)
            ==> sites@.contains((r as usize, c as usize)),
        forall|k1: int, k2: int| 0 <= k1 < k2 < sites@.len()
            ==> (#[trigger] sites@[k1]).0 < (#[trigger] sites@[k2]).0
                || (sites@[k1].0 == sites@[k2].0 && sites@[k1].1 < sites@[k2].1),
{
    let mut sites: Vec<(usize, usize)> = Vec::new();
    let mut r: usize = 0;
    while r < height
        invariant
            r <= height,
            width * height <= usize::MAX,
            age_milli@.len() == width * height,
            forall|k: int| 0 <= k < sites@.len() ==> {
                let (rr, cc) = #[trigger] sites@[k];
                rr < r && cc < width
                    && is_subduction_site(age_milli@, width as int, rr as int, cc as int)
            },
            forall|rr: int, cc: int|
                0 <= rr < r && 0 <= cc < width
                    && #[trigger] is_subduction_site(age_milli@, width as int, rr, cc)
                ==> sites@.contains((rr as usize, cc as usize)),
            forall|k1: int, k2: int| 0 <= k1 < k2 < sites@.len()
                ==> (#[trigger] sites@[k1]).0 < (#[trigger] sites@[k2]).0
                    || (sites@[k1].0 == sites@[k2].0 && sites@[k1].1 < sites@[k2].1),
        decreases height - r,
    {
        let mut c: usize = 0;
        while c < width
            invariant
                c <= width,
                r < height,
                width * height <= usize::MAX,
                age_milli@.len() == width * height,
                forall|k: int| 0 <= k < sites@.len() ==> {
                    let (rr, cc) = #[trigger] sites@[k];
                    (rr < r || (rr == r && cc < c)) && cc < width
                        && is_subduction_site(age_milli@, width as int, rr as int, cc as int)
                },
                forall|rr: int, cc: int|
                    (0 <= rr < r || (rr == r && 0 <= cc < c)) && 0 <= cc < width
                        && #[trigger] is_subduction_site(age_milli@, width as int, rr, cc)
                    ==> sites@.contains((rr as usize, cc as usize)),
                forall|k1: int, k2: int| 0 <= k1 < k2 < sites@.len()
                    ==> (#[trigger] sites@[k1]).0 < (#[trigger] sites@[k2]).0
                        || (sites@[k1].0 == sites@[k2].0 && sites@[k1].1 < sites@[k2].1),
            decreases width - c,
        {
            proof {
                crate::regime::lemma_cell_index_in_range(
                    r as int,
                    c as int,
                    width as int,
                    height as int,
                );
            }
            if age_milli[r * width + c] >= SUBDUCTION_AGE_THRESHOLD_MILLI {
                let ghost before = sites@;
                sites.push((r, c));
                proof {
                    assert forall|rr: int, cc: int|
                        (0 <= rr < r || (rr == r && 0 <= cc < c + 1)) && 0 <= cc < width
                            && #[trigger] is_subduction_site(age_milli@, width as int, rr, cc)
                        implies sites@.contains((rr as usize, cc as usize)) by {
                        if rr == r && cc == c {
                            assert(sites@[sites@.len() - 1] == (r, c));
                        } else {
                            assert(before.contains((rr as usize, cc as usize)));
                            let k0 = choose|k0: int| 0 <= k0 < before.len()
                                && before[k0] == (rr as usize, cc as usize);
                            assert(sites@[k0] == (rr as usize, cc as usize));
                        }
                    }
                }
            }
            c = c + 1;
        }
        r = r + 1;
    }
    sites
}

/// Convenience: check the crust field directly.
pub fn is_continental_cell(crust_field: &Vec<CrustType>, idx: usize) -> (continental: bool)
    requires
        idx < crust_field@.len(),
    ensures
        continental == (crust_field@[idx as int] != CrustType::Oceanic),
{
    is_continental(crust_field[idx])
}

} // verus!

//! Geomorphon landform classification tables.
//!
//! A geomorphon is an 8-direction ternary pattern around a cell: looking out
//! in each compass direction, the terrain is higher (+1), level (0) or lower
//! (−1) than the cell, judged against a flat-angle threshold. The line-of-sight
//! search that produces the pattern is floating-point work done by the caller;
//! this module holds the verified mapping from patterns to the ten canonical
//! landform classes, the canonical rotation code, and the class histogram.

use vstd::prelude::*;

verus! {

/// The ten canonical geomorphon landform classes.
#[derive(Debug, Clone, Copy, PartialEq, Eq, Structural)]
pub enum Geomorphon {
    Flat,
    Peak,
    Ridge,
    Shoulder,
    Spur,
    Slope,
    Hollow,
    Footslope,
    Valley,
    Pit,
}

/// Position of a class in the histogram.
pub open spec fn geomorphon_index(g: Geomorphon) -> int {
    match g {
        Geomorphon::Flat => 0,
        Geomorphon::Peak => 1,
        Geomorphon::Ridge => 2,
        Geomorphon::Shoulder => 3,
        Geomorphon::Spur => 4,
        Geomorphon::Slope => 5,
        Geomorphon::Hollow => 6,
        Geomorphon::Footslope => 7,
        Geomorphon::Valley => 8,
        Geomorphon::Pit => 9,
    }
}

impl Geomorphon {
    /// Histogram position of this class.
    pub fn index(self) -> (i: usize)
        ensures
            i == geomorphon_index(self),
            i < 10,
    {
        match self {
            Geomorphon::Flat => 0,
            Geomorphon::Peak => 1,
            Geomorphon::Ridge => 2,
            Geomorphon::Shoulder => 3,
            Geomorphon::Spur => 4,
            Geomorphon::Slope => 5,
            Geomorphon::Hollow => 6,
            Geomorphon::Footslope => 7,
            Geomorphon::Valley => 8,
            Geomorphon::Pit => 9,
        }
    }
}

/// How many of the first `n` elements of `s` equal `v`.
pub open spec fn count_eq(s: Seq<i8>, v: i8, n: int) -> int
    decreases n,
{
    if n <= 0 {
        0
    } else {
        count_eq(s, v, n - 1) + if s[n - 1] == v { 1int } else { 0int }
    }
}

/// The landform class of a pattern with `p` concave (+1) and `m` convex (−1)
/// directions, after the published decision table.
pub open spec fn class_of_counts(p: int, m: int) -> Geomorphon {
    if p == 0 && m == 0 {
        Geomorphon::Flat
    } else if p == 8 || (p == 7 && m == 0) {
        Geomorphon::Pit
    } else if m == 8 || (p == 0 && m == 7) {
        Geomorphon::Peak
    } else if m == 0 && p >= 6 {
        Geomorphon::Valley
    } else if p == 0 && m >= 6 {
        Geomorphon::Ridge
    } else if m <= 1 && p >= 4 {
        Geomorphon::Footslope
    } else if p <= 1 && m >= 4 {
        Geomorphon::Shoulder
    } else if p > m {
        Geomorphon::Hollow
    } else if m > p {
        Geomorphon::Spur
    } else {
        Geomorphon::Slope
    }
}

/// Map an 8-direction ternary pattern (+1 looking up, −1 looking down,
/// 0 level) to its landform class.
pub fn ternary_to_class(pattern: &[i8; 8]) -> (class: Geomorphon)
    ensures
        class == class_of_counts(count_eq(pattern@, 1i8, 8), count_eq(pattern@, -1i8, 8)),
{
    let mut n_pos: u8 = 0;
    let mut n_neg: u8 = 0;
    let mut i: usize = 0;
    while i < 8
        invariant
            i <= 8,
            n_pos == count_eq(pattern@, 1i8, i as int),
            n_neg == count_eq(pattern@, -1i8, i as int),
            n_pos <= i,
            n_neg <= i,
        decreases 8 - i,
    {
        if pattern[i] == 1 {
            n_pos = n_pos + 1;
        } else if pattern[i] == -1 {
            n_neg = n_neg + 1;
        }
        i = i + 1;
    }
    let p = n_pos;
    let m = n_neg;
    if p == 0 && m == 0 {
        Geomorphon::Flat
    } else if p == 8 || (p == 7 && m == 0) {
        Geomorphon::Pit
    } else if m == 8 || (p == 0 && m == 7) {
        Geomorphon::Peak
    } else if m == 0 && p >= 6 {
        Geomorphon::Valley
    } else if p == 0 && m >= 6 {
        Geomorphon::Ridge
    } else if m <= 1 && p >= 4 {
        Geomorphon::Footslope
    } else if p <= 1 && m >= 4 {
        Geomorphon::Shoulder
    } else if p > m {
        Geomorphon::Hollow
    } else if m > p {
        Geomorphon::Spur
    } else {
        Geomorphon::Slope
    }
}

/// Base-3 value of the first `n` digits of a ternary pattern, most significant
/// digit first, each digit being the element plus one.
pub open spec fn encode_prefix(s: Seq<i8>, n: int) -> int
    decreases n,
{
    if n <= 0 {
        0
    } else {
        encode_prefix(s, n - 1) * 3 + (s[n - 1] + 1)
    }
}

/// The pattern rotated left by `k` places.
pub open spec fn rotated(s: Seq<i8>, k: int) -> Seq<i8> {
    s.subrange(k, 8) + s.subrange(0, k)
}

/// A ternary pattern: eight elements, each −1, 0 or +1.
pub open spec fn ternary_pattern(s: Seq<i8>) -> bool {
    s.len() == 8 && forall|k: int| 0 <= k < 8 ==> -1 <= #[trigger] s[k] <= 1
}

/// `3^n`.
pub open spec fn pow3(n: nat) -> int
    decreases n,
{
    if n == 0 {
        1
    } else {
        3 * pow3((n - 1) as nat)
    }
}

proof fn lemma_pow3_monotone(a: nat, b: nat)
    requires
        a <= b,
    ensures
        1 <= pow3(a) <= pow3(b),
    decreases b,
{
    if a < b {
        lemma_pow3_monotone(a, (b - 1) as nat);
    } else if b > 0 {
        lemma_pow3_monotone((a - 1) as nat, (b - 1) as nat);
    }
}

/// A prefix of length `n` of a ternary pattern encodes within `[0, 3^n)`.
proof fn lemma_encode_prefix_bound(s: Seq<i8>, n: int)
    requires
        0 <= n <= 8,
        ternary_pattern(s),
    ensures
        0 <= encode_prefix(s, n) <= pow3(n as nat) - 1,
    decreases n,
{
    if n > 0 {
        lemma_encode_prefix_bound(s, n - 1);
        assert(pow3(n as nat) == 3 * pow3((n - 1) as nat));
    }
}

/// The canonical code of a ternary pattern: the smallest base-3 encoding over
/// all eight rotations of the pattern.
pub fn canonical_code(pattern: &[i8; 8]) -> (code: u32)
    requires
        ternary_pattern(pattern@),
    ensures
        forall|k: int| 0 <= k < 8 ==> code <= encode_prefix(#[trigger] rotated(pattern@, k), 8),
        exists|k: int| 0 <= k < 8 && code == encode_prefix(#[trigger] rotated(pattern@, k), 8),
{
    let mut best: u32 = 0;
    let mut k: usize = 0;
    while k < 8
        invariant
            k <= 8,
            ternary_pattern(pattern@),
            k > 0 ==> forall|kk: int| 0 <= kk < k
                ==> best <= encode_prefix(#[trigger] rotated(pattern@, kk), 8),
            k > 0 ==> exists|kk: int| 0 <= kk < k
                && best == encode_prefix(#[trigger] rotated(pattern@, kk), 8),
        decreases 8 - k,
    {
        let c = encode_rotation(pattern, k);
        if k == 0 || c < best {
            best = c;
        }
        k = k + 1;
    }
    best
}

/// Base-3 encoding of the pattern rotated left by `k` places.
fn encode_rotation(pattern: &[i8; 8], k: usize) -> (code: u32)
    requires
        ternary_pattern(pattern@),
        k < 8,
    ensures
        code == encode_prefix(rotated(pattern@, k as int), 8),
{
    let ghost rot = rotated(pattern@, k as int);
    proof {
        assert(rot.len() == 8);
        assert(forall|j: int| 0 <= j < 8 ==> -1 <= #[trigger] rot[j] <= 1);
    }
    let mut code: u32 = 0;
    let mut j: usize = 0;
    while j < 8
        invariant
            j <= 8,
            k < 8,
            ternary_pattern(pattern@),
            rot == rotated(pattern@, k as int),
            code == encode_prefix(rot, j as int),
        decreases 8 - j,
    {
        proof {
            lemma_encode_prefix_bound(rot, j as int);
            lemma_pow3_monotone(j as nat, 7);
            assert(pow3(7) == 2187) by {
                reveal_with_fuel(pow3, 9);
            }
        }
        let idx = if j + k < 8 { j + k } else { j + k - 8 };
        let digit = pattern[idx];
        proof {
            assert(rot[j as int] == pattern@[idx as int]);
        }
        code = code * 3 + ((digit + 1) as u32);
        j = j + 1;
    }
    code
}

/// How many of the first `n` classes in `s` sit at histogram position `k`.
pub open spec fn count_class(s: Seq<Geomorphon>, k: int, n: int) -> int
    decreases n,
{
    if n <= 0 {
        0
    } else {
        count_class(s, k, n - 1) + if geomorphon_index(s[n - 1]) == k { 1int } else { 0int }
    }
}

/// The ten-class histogram of a classified raster, as raw counts. The counts
/// sum to the number of cells: every cell lands in exactly one class.
pub fn geomorphon_histogram(classes: &Vec<Geomorphon>) -> (hist: Vec<u32>)
    requires
        classes@.len() <= u32::MAX,
    ensures
        hist@.len() == 10,
        forall|k: int| 0 <= k < 10 ==> hist@[k] == count_class(classes@, k, classes@.len() as int),
        hist@[0] + hist@[1] + hist@[2] + hist@[3] + hist@[4] + hist@[5] + hist@[6] + hist@[7]
            + hist@[8] + hist@[9] == classes@.len(),
{
    let mut hist: Vec<u32> = Vec::new();
    let mut z: usize = 0;
    while z < 10
        invariant
            z <= 10,
            hist@.len() == z,
            forall|k: int| 0 <= k < z ==> hist@[k] == 0,
        decreases 10 - z,
    {
        hist.push(0);
        z = z + 1;
    }
    let n = classes.len();
    let mut i: usize = 0;
    while i < n
        invariant
            i <= n,
            n == classes@.len(),
            n <= u32::MAX,
            hist@.len() == 10,
            forall|k: int| 0 <= k < 10 ==> hist@[k] == count_class(classes@, k, i as int),
            hist@[0] + hist@[1] + hist@[2] + hist@[3] + hist@[4] + hist@[5] + hist@[6]
                + hist@[7] + hist@[8] + hist@[9] == i,
        decreases n - i,
    {
        let idx = classes[i].index();
        proof {
            lemma_count_class_bounded(classes@, geomorphon_index(classes@[i as int]), i as int);
        }
        let updated = hist[idx] + 1;
        hist.set(idx, updated);
        i = i + 1;
    }
    hist
}

/// A class count over a prefix never exceeds the prefix length.
proof fn lemma_count_class_bounded(s: Seq<Geomorphon>, k: int, n: int)
    requires
        0 <= n <= s.len(),
    ensures
        0 <= count_class(s, k, n) <= n,
    decreases n,
{
    if n > 0 {
        lemma_count_class_bounded(s, k, n - 1);
    }
}

/// Reference ten-class geomorphon histogram per terrain class, in
/// ten-thousandths. Order: Flat, Peak, Ridge, Shoulder, Spur, Slope, Hollow,
/// Footslope, Valley, Pit.
pub fn reference_hist_permyriad(tc: crate::terrain::TerrainClass) -> (hist: [u32; 10])
    ensures
        hist@.len() == 10,
        hist@ == (match tc {
            crate::terrain::TerrainClass::Alpine =>
                seq![1046u32, 68, 715, 188, 1422, 4195, 1292, 294, 755, 24],
            crate::terrain::TerrainClass::Coastal =>
                seq![5484u32, 16, 374, 930, 341, 1262, 304, 777, 495, 17],
            crate::terrain::TerrainClass::Cratonic =>
                seq![6938u32, 29, 238, 524, 251, 960, 187, 642, 214, 17],
            crate::terrain::TerrainClass::FluvialArid =>
                seq![1543u32, 80, 759, 473, 1183, 3479, 1032, 634, 782, 35],
            crate::terrain::TerrainClass::FluvialHumid =>
                seq![4525u32, 35, 518, 756, 583, 1828, 469, 599, 650, 37],
        }),
{
    let hist: [u32; 10] = match tc {
        crate::terrain::TerrainClass::Alpine =>
            [1046, 68, 715, 188, 1422, 4195, 1292, 294, 755, 24],
        crate::terrain::TerrainClass::Coastal =>
            [5484, 16, 374, 930, 341, 1262, 304, 777, 495, 17],
        crate::terrain::TerrainClass::Cratonic =>
            [6938, 29, 238, 524, 251, 960, 187, 642, 214, 17],
        crate::terrain::TerrainClass::FluvialArid =>
            [1543, 80, 759, 473, 1183, 3479, 1032, 634, 782, 35],
        crate::terrain::TerrainClass::FluvialHumid =>
            [4525, 35, 518, 756, 583, 1828, 469, 599, 650, 37],
    };
    proof {
        assert(hist@ =~= (match tc {
            crate::terrain::TerrainClass::Alpine =>
                seq![1046u32, 68, 715, 188, 1422, 4195, 1292, 294, 755, 24],
            crate::terrain::TerrainClass::Coastal =>
                seq![5484u32, 16, 374, 930, 341, 1262, 304, 777, 495, 17],
            crate::terrain::TerrainClass::Cratonic =>
                seq![6938u32, 29, 238, 524, 251, 960, 187, 642, 214, 17],
            crate::terrain::TerrainClass::FluvialArid =>
                seq![1543u32, 80, 759, 473, 1183, 3479, 1032, 634, 782, 35],
            crate::terrain::TerrainClass::FluvialHumid =>
                seq![4525u32, 35, 518, 756, 583, 1828, 469, 599, 650, 37],
        }));
    }
    hist
}

} // verus!

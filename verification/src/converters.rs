//! Domain converters: bijective (up to rounding) maps between an integer
//! index domain and a physical fixed-point domain.
//!
//! A file carries three converter instances: frame index to retention time,
//! scan index to ion mobility, and time-of-flight index to m/z. Each is
//! read-only after construction. Two calibration models are supported: an
//! affine model and a table model (a general monotone piecewise map sampled
//! at every index). Both are strictly increasing over their index domain; a
//! physically decreasing axis is held with its sign folded into the
//! fixed-point values by the adapter that fills them in.

use vstd::arithmetic::div_mod::{
    lemma_div_is_ordered, lemma_div_multiples_vanish_fancy, lemma_div_pos_is_pos,
};
use vstd::arithmetic::mul::{lemma_mul_inequality, lemma_mul_strict_inequality};
use vstd::prelude::*;

verus! {

/// Largest magnitude allowed for the affine intercept (2^50).
pub const COEF_MAX: i64 = 0x4_0000_0000_0000;

/// Largest affine slope (2^20 micro-units per index step).
pub const SLOPE_MAX: i64 = 0x10_0000;

/// Largest magnitude a converted value can take (2^53).
pub const VAL_MAX: i64 = 0x20_0000_0000_0000;

/// Largest magnitude accepted for an inversion query (2^54).
pub const QUERY_MAX: i64 = 0x40_0000_0000_0000;

/// A stateless-after-construction map between an integer index domain and a
/// physical fixed-point domain.
#[derive(Debug)]
pub enum DomainConverter {
    /// value = `intercept + slope * index`, for indices up to `u32::MAX`.
    Linear { intercept: i64, slope: i64 },
    /// value = `values[index]`, one sample per index; strictly increasing.
    Table { values: Vec<i64> },
}

impl DomainConverter {
    /// Calibration coefficients are in range and the map is strictly
    /// increasing with values bounded by [`VAL_MAX`].
    pub open spec fn wf(&self) -> bool {
        match self {
            DomainConverter::Linear { intercept, slope } => {
                &&& -COEF_MAX <= *intercept <= COEF_MAX
                &&& 1 <= *slope <= SLOPE_MAX
            },
            DomainConverter::Table { values } => {
                &&& 1 <= values@.len() <= u32::MAX
                &&& forall|i: int, j: int|
                    0 <= i < j < values@.len() ==> values@[i] < values@[j]
                &&& forall|i: int| 0 <= i < values@.len() ==> -VAL_MAX <= #[trigger] values@[i] <= VAL_MAX
            },
        }
    }

    /// The indices the converter accepts.
    pub open spec fn in_domain(&self, i: int) -> bool {
        match self {
            DomainConverter::Linear { .. } => 0 <= i <= u32::MAX,
            DomainConverter::Table { values } => 0 <= i < values@.len(),
        }
    }

    /// The physical value of index `i`.
    pub open spec fn convert_spec(&self, i: int) -> int {
        match self {
            DomainConverter::Linear { intercept, slope } => *intercept + *slope * i,
            DomainConverter::Table { values } => values@[i] as int,
        }
    }

    /// The index a physical value maps back to: the affine model rounds to
    /// the nearest index and clamps to the 32-bit index range; the table
    /// model returns the first index whose sample is at least `v`, or the
    /// last index when every sample is below `v`.
    pub open spec fn invert_spec(&self, v: int) -> int {
        match self {
            DomainConverter::Linear { intercept, slope } => {
                if v <= *intercept {
                    0
                } else {
                    let q = (v - *intercept + *slope / 2) / (*slope as int);
                    if q > u32::MAX { u32::MAX as int } else { q }
                }
            },
            DomainConverter::Table { values } => table_invert_spec(values@, v),
        }
    }

    /// Whether the coefficients are in range and the table, if any, is
    /// strictly increasing.
    #[verifier::loop_isolation(false)]
    pub fn is_well_formed(&self) -> (b: bool)
        ensures
            b == self.wf(),
    {
        match self {
            DomainConverter::Linear { intercept, slope } => {
                -COEF_MAX <= *intercept && *intercept <= COEF_MAX && 1 <= *slope
                    && *slope <= SLOPE_MAX
            },
            DomainConverter::Table { values } => {
                if values.len() < 1 || values.len() > u32::MAX as usize {
                    return false;
                }
                let mut k: usize = 0;
                while k + 1 < values.len()
                    invariant
                        k < values.len(),
                        forall|i: int| 0 <= i < k ==> #[trigger] values@[i] < values@[i + 1],
                        forall|i: int| 0 <= i < k ==> -VAL_MAX <= #[trigger] values@[i] <= VAL_MAX,
                    decreases values.len() - k,
                {
                    if values[k] < -VAL_MAX || values[k] > VAL_MAX {
                        return false;
                    }
                    if values[k] >= values[k + 1] {
                        return false;
                    }
                    k = k + 1;
                }
                if values[k] < -VAL_MAX || values[k] > VAL_MAX {
                    return false;
                }
                proof {
                    lemma_adjacent_increasing_implies_sorted(values@);
                }
                true
            },
        }
    }

    /// Whether index `i` is in the converter's domain.
    pub fn accepts_index(&self, i: usize) -> (b: bool)
        ensures
            b == self.in_domain(i as int),
    {
        match self {
            DomainConverter::Linear { .. } => i <= u32::MAX as usize,
            DomainConverter::Table { values } => i < values.len(),
        }
    }

    /// Maps index `i` to its physical value (fixed-point micro-units).
    pub fn convert(&self, i: usize) -> (r: i64)
        requires
            self.wf(),
            self.in_domain(i as int),
        ensures
            r == self.convert_spec(i as int),
            -VAL_MAX <= r <= VAL_MAX,
    {
        match self {
            DomainConverter::Linear { intercept, slope } => {
                proof {
                    lemma_mul_inequality(i as int, u32::MAX as int, *slope as int);
                    lemma_mul_inequality(1, *slope as int, i as int);
                    assert(u32::MAX * *slope <= u32::MAX * SLOPE_MAX) by (nonlinear_arith)
                        requires
                            1 <= *slope <= SLOPE_MAX,
                    ;
                }
                let prod: i64 = *slope * (i as i64);
                *intercept + prod
            },
            DomainConverter::Table { values } => values[i],
        }
    }

    /// Maps a physical value back to the nearest index, clamped to the
    /// converter's domain.
    #[verifier::loop_isolation(false)]
    pub fn invert(&self, v: i64) -> (r: usize)
        requires
            self.wf(),
            -QUERY_MAX <= v <= QUERY_MAX,
        ensures
            r == self.invert_spec(v as int),
            self.in_domain(r as int),
    {
        match self {
            DomainConverter::Linear { intercept, slope } => {
                if v <= *intercept {
                    return 0;
                }
                let num: u64 = (v - *intercept) as u64;
                let half: u64 = (*slope / 2) as u64;
                let q: u64 = (num + half) / (*slope as u64);
                proof {
                    lemma_div_pos_is_pos(num + half, *slope as int);
                }
                if q > u32::MAX as u64 {
                    u32::MAX as usize
                } else {
                    q as usize
                }
            },
            DomainConverter::Table { values } => {
                let n: usize = values.len();
                let mut k: usize = 0;
                while k < n - 1
                    invariant
                        0 <= k < n,
                        forall|j: int| 0 <= j < k ==> #[trigger] values@[j] < v,
                    decreases n - k,
                {
                    if v <= values[k] {
                        proof {
                            lemma_table_invert_agrees(values@, v as int, k as int);
                        }
                        return k;
                    }
                    k = k + 1;
                }
                proof {
                    lemma_table_invert_agrees(values@, v as int, (n - 1) as int);
                }
                n - 1
            },
        }
    }
}

/// The first index of `vals` whose sample is at least `v`; the last index
/// when every sample is below `v`.
pub open spec fn table_invert_spec(vals: Seq<i64>, v: int) -> int
    decreases vals.len(),
{
    if vals.len() <= 1 {
        0
    } else if v <= vals[0] {
        0
    } else {
        1 + table_invert_spec(vals.drop_first(), v)
    }
}

/// Characterizes [`table_invert_spec`]: the result is in range, every
/// earlier sample is below `v`, and any result before the last index has a
/// sample at least `v`.
pub proof fn lemma_table_invert_props(vals: Seq<i64>, v: int)
    requires
        vals.len() >= 1,
    ensures
        0 <= table_invert_spec(vals, v) < vals.len(),
        forall|j: int| 0 <= j < table_invert_spec(vals, v) ==> vals[j] < v,
        table_invert_spec(vals, v) < vals.len() - 1 ==> v <= vals[table_invert_spec(vals, v)],
    decreases vals.len(),
{
    if vals.len() > 1 && v > vals[0] {
        lemma_table_invert_props(vals.drop_first(), v);
        let r = table_invert_spec(vals, v);
        assert forall|j: int| 0 <= j < r implies vals[j] < v by {
            if j > 0 {
                assert(vals.drop_first()[j - 1] < v);
            }
        }
    }
}

/// Any index that satisfies the characterization of [`table_invert_spec`]
/// equals it.
proof fn lemma_table_invert_agrees(vals: Seq<i64>, v: int, k: int)
    requires
        vals.len() >= 1,
        0 <= k < vals.len(),
        forall|j: int| 0 <= j < k ==> vals[j] < v,
        k < vals.len() - 1 ==> v <= vals[k],
    ensures
        k == table_invert_spec(vals, v),
{
    lemma_table_invert_props(vals, v);
    let r = table_invert_spec(vals, v);
    if k < r {
        assert(vals[k] < v);
    } else if r < k {
        assert(vals[r] < v);
    }
}

/// A table whose adjacent samples increase is strictly increasing overall.
proof fn lemma_adjacent_increasing_implies_sorted(vals: Seq<i64>)
    requires
        forall|i: int| 0 <= i < vals.len() - 1 ==> #[trigger] vals[i] < vals[i + 1],
    ensures
        forall|i: int, j: int| 0 <= i < j < vals.len() ==> vals[i] < vals[j],
{
    assert forall|i: int, j: int| 0 <= i < j < vals.len() implies vals[i] < vals[j] by {
        lemma_increase_upto(vals, i, j);
    }
}

/// Strict increase propagates from index `i` to any later index `j`.
proof fn lemma_increase_upto(vals: Seq<i64>, i: int, j: int)
    requires
        forall|k: int| 0 <= k < vals.len() - 1 ==> #[trigger] vals[k] < vals[k + 1],
        0 <= i < j < vals.len(),
    ensures
        vals[i] < vals[j],
    decreases j - i,
{
    if i + 1 < j {
        lemma_increase_upto(vals, i + 1, j);
    }
}

/// Converters are strictly monotonic: a larger index always maps to a
/// strictly larger physical value.
pub proof fn lemma_convert_monotonic(c: &DomainConverter, i: int, j: int)
    requires
        c.wf(),
        c.in_domain(i),
        c.in_domain(j),
        i < j,
    ensures
        c.convert_spec(i) < c.convert_spec(j),
{
    match c {
        DomainConverter::Linear { intercept, slope } => {
            lemma_mul_strict_inequality(i, j, *slope as int);
        },
        DomainConverter::Table { .. } => {},
    }
}

/// Round trip: inverting the physical value of an in-domain index recovers
/// that index exactly (the difference is zero, within any tolerance).
pub proof fn lemma_round_trip(c: &DomainConverter, i: int)
    requires
        c.wf(),
        c.in_domain(i),
    ensures
        c.invert_spec(c.convert_spec(i)) == i,
{
    match c {
        DomainConverter::Linear { intercept, slope } => {
            let s = *slope as int;
            let v = c.convert_spec(i);
            if i == 0 {
                assert(v == *intercept);
            } else {
                assert(s * i >= 1 * i) by {
                    lemma_mul_inequality(1, s, i);
                }
                assert(v - *intercept + s / 2 == s * i + s / 2);
                lemma_div_multiples_vanish_fancy(i, s / 2, s);
                assert((s * i + s / 2) / s == i);
            }
        },
        DomainConverter::Table { values } => {
            let v = values@[i] as int;
            lemma_table_invert_agrees(values@, v, i);
        },
    }
}

/// A converter's index domain is downward closed: if it accepts `n` it
/// accepts every index up to `n`.
pub proof fn lemma_domain_downward(c: &DomainConverter, s: int, n: int)
    requires
        c.in_domain(n),
        0 <= s <= n,
    ensures
        c.in_domain(s),
{
}

/// Inversion is monotonic: a larger physical value never maps back to a
/// smaller index.
pub proof fn lemma_invert_monotonic(c: &DomainConverter, v1: int, v2: int)
    requires
        c.wf(),
        v1 <= v2,
    ensures
        c.invert_spec(v1) <= c.invert_spec(v2),
{
    match c {
        DomainConverter::Linear { intercept, slope } => {
            let s = *slope as int;
            if *intercept < v1 {
                lemma_div_is_ordered(v1 - *intercept + s / 2, v2 - *intercept + s / 2, s);
                lemma_div_pos_is_pos(v1 - *intercept + s / 2, s);
            } else if *intercept < v2 {
                lemma_div_pos_is_pos(v2 - *intercept + s / 2, s);
            }
        },
        DomainConverter::Table { values } => {
            lemma_table_invert_props(values@, v1);
            lemma_table_invert_props(values@, v2);
            let r1 = table_invert_spec(values@, v1);
            let r2 = table_invert_spec(values@, v2);
            if r2 < r1 {
                assert(values@[r2] < v1);
            }
        },
    }
}

} // verus!

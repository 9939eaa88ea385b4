//! Quadrupole-window splitting: decides which sub-ranges of a frame's scan
//! axis belong to which isolation window.
//!
//! Two policies exist. The native policy uses the frame's own quadrupole
//! table verbatim: one group per table entry. The uniform-mobility policy
//! resamples the scan axis into uniform ion-mobility bins of width `step`
//! covering a total span of `span` (both in micro-1/K0), converts each
//! bin's boundaries through the scan-to-mobility converter and back, and
//! attaches to each resampled bin the native window with the largest scan
//! overlap (the first such window in scan order on a tie); a bin that
//! overlaps no native window carries no isolation window.

use crate::converters::{lemma_invert_monotonic, DomainConverter};
use crate::frames::{Frame, QuadrupoleSettings};
use crate::TimsError;
use vstd::arithmetic::div_mod::{lemma_div_multiples_vanish_fancy, lemma_fundamental_div_mod};
use vstd::arithmetic::mul::lemma_mul_inequality;
use vstd::prelude::*;

verus! {

/// Largest span or step accepted for the uniform-mobility policy (2^40
/// micro-1/K0).
pub const SPAN_MAX: i64 = 0x100_0000_0000;

/// One isolation window: center m/z and width in micro-m/z, collision
/// energy in micro-eV.
#[derive(Clone, Copy, Debug, PartialEq, Eq, Structural)]
pub struct IsolationWindow {
    pub mz: i64,
    pub width: i64,
    pub collision_energy: i64,
}

/// One scan-range group produced by a split: a half-open scan range and
/// the isolation window it belongs to, if any.
#[derive(Clone, Copy, Debug)]
pub struct ScanWindowGroup {
    pub scan_start: usize,
    pub scan_end: usize,
    pub window: Option<IsolationWindow>,
}

/// The splitting policy for multiplexed frames.
#[derive(Clone, Copy, Debug)]
pub enum SplitPolicy {
    /// Use the frame's own quadrupole table verbatim.
    Native,
    /// Resample the scan axis into uniform mobility bins of width `step`
    /// covering `span` in total (micro-1/K0).
    UniformMobility { span: i64, step: i64 },
}

impl SplitPolicy {
    /// Uniform-mobility parameters are positive and within machine range.
    pub open spec fn wf(&self) -> bool {
        match self {
            SplitPolicy::Native => true,
            SplitPolicy::UniformMobility { span, step } => {
                &&& 1 <= *span <= SPAN_MAX
                &&& 1 <= *step <= SPAN_MAX
            },
        }
    }

    /// The native policy.
    pub fn native() -> (r: SplitPolicy)
        ensures
            r == SplitPolicy::Native,
            r.wf(),
    {
        SplitPolicy::Native
    }

    /// Builds a uniform-mobility policy; a non-positive or out-of-range
    /// span or step is rejected at construction time.
    pub fn uniform(span: i64, step: i64) -> (r: Result<SplitPolicy, TimsError>)
        ensures
            r is Ok <==> (1 <= span <= SPAN_MAX && 1 <= step <= SPAN_MAX),
            r matches Ok(p) ==> p == (SplitPolicy::UniformMobility { span, step }) && p.wf(),
            r matches Err(e) ==> e == TimsError::InvalidConfiguration,
    {
        if span < 1 || span > SPAN_MAX || step < 1 || step > SPAN_MAX {
            Err(TimsError::InvalidConfiguration)
        } else {
            Ok(SplitPolicy::UniformMobility { span, step })
        }
    }
}

/// The isolation window recorded at group `g` of a quadrupole table.
pub open spec fn window_of(q: &QuadrupoleSettings, g: int) -> IsolationWindow {
    IsolationWindow {
        mz: q.isolation_mz@[g],
        width: q.isolation_width@[g],
        collision_energy: q.collision_energy@[g],
    }
}

/// The length of the overlap between native range `g` and the half-open
/// scan range `[a, b)`.
pub open spec fn overlap_len(q: &QuadrupoleSettings, g: int, a: int, b: int) -> int {
    let lo = if q.scan_starts@[g] > a {
        q.scan_starts@[g] as int
    } else {
        a
    };
    let hi = if q.scan_ends@[g] < b {
        q.scan_ends@[g] as int
    } else {
        b
    };
    if hi > lo {
        hi - lo
    } else {
        0
    }
}

/// The native window with the largest overlap with `[a, b)` among the
/// first `n` groups; the first such window in scan order on a tie; `None`
/// when no group overlaps.
pub open spec fn best_window_upto(
    q: &QuadrupoleSettings,
    a: int,
    b: int,
    n: int,
) -> Option<int>
    decreases n,
{
    if n <= 0 {
        None
    } else {
        let prev = best_window_upto(q, a, b, n - 1);
        if overlap_len(q, n - 1, a, b) > 0 {
            match prev {
                Option::None => Option::Some(n - 1),
                Option::Some(p) => {
                    if overlap_len(q, n - 1, a, b) > overlap_len(q, p, a, b) {
                        Option::Some(n - 1)
                    } else {
                        prev
                    }
                },
            }
        } else {
            prev
        }
    }
}

/// The native window assigned to the scan range `[a, b)`: the
/// overlap-weighted majority, the first in scan order on a tie.
pub open spec fn best_window(q: &QuadrupoleSettings, a: int, b: int) -> Option<int> {
    best_window_upto(q, a, b, q.group_count())
}

/// Picks the native window with the largest overlap with `[a, b)`, the
/// first in scan order on a tie; `None` when no window overlaps.
#[verifier::loop_isolation(false)]
pub fn pick_window(q: &QuadrupoleSettings, a: usize, b: usize) -> (r: Option<usize>)
    requires
        q.wf(),
    ensures
        r matches Some(g) ==> best_window(q, a as int, b as int) == Some(g as int) && g
            < q.scan_starts@.len(),
        r is None ==> best_window(q, a as int, b as int) is None,
{
    let n: usize = q.scan_starts.len();
    let mut best: Option<usize> = None;
    let mut best_ov: usize = 0;
    let mut g: usize = 0;
    while g < n
        invariant
            0 <= g <= n,
            best is None ==> best_window_upto(q, a as int, b as int, g as int) is None,
            best matches Some(p) ==> best_window_upto(q, a as int, b as int, g as int) == Some(
                p as int,
            ) && p < n && best_ov == overlap_len(q, p as int, a as int, b as int),
        decreases n - g,
    {
        let lo: usize = if q.scan_starts[g] > a {
            q.scan_starts[g]
        } else {
            a
        };
        let hi: usize = if q.scan_ends[g] < b {
            q.scan_ends[g]
        } else {
            b
        };
        let ov: usize = if hi > lo {
            hi - lo
        } else {
            0
        };
        if ov > 0 {
            match best {
                Option::None => {
                    best = Some(g);
                    best_ov = ov;
                },
                Option::Some(_) => {
                    if ov > best_ov {
                        best = Some(g);
                        best_ov = ov;
                    }
                },
            }
        }
        g = g + 1;
    }
    best
}

/// The groups the native policy yields: the quadrupole table verbatim.
pub open spec fn native_groups_spec(q: &QuadrupoleSettings) -> Seq<ScanWindowGroup> {
    Seq::new(
        q.group_count() as nat,
        |g: int|
            ScanWindowGroup {
                scan_start: q.scan_starts@[g],
                scan_end: q.scan_ends@[g],
                window: Some(window_of(q, g)),
            },
    )
}

/// Splits a frame with the native policy: each quadrupole table entry is
/// one group, with its own isolation window attached.
#[verifier::loop_isolation(false)]
pub fn split_native(frame: &Frame) -> (r: Vec<ScanWindowGroup>)
    requires
        frame.wf(),
    ensures
        r@ == native_groups_spec(&frame.quadrupole_settings),
{
    let q = &frame.quadrupole_settings;
    let n: usize = q.scan_starts.len();
    let mut out: Vec<ScanWindowGroup> = Vec::new();
    let mut g: usize = 0;
    while g < n
        invariant
            0 <= g <= n,
            out@.len() == g,
            forall|i: int| 0 <= i < g ==> out@[i] == native_groups_spec(q)[i],
        decreases n - g,
    {
        out.push(
            ScanWindowGroup {
                scan_start: q.scan_starts[g],
                scan_end: q.scan_ends[g],
                window: Some(
                    IsolationWindow {
                        mz: q.isolation_mz[g],
                        width: q.isolation_width[g],
                        collision_energy: q.collision_energy[g],
                    },
                ),
            },
        );
        g = g + 1;
    }
    proof {
        assert(out@ =~= native_groups_spec(q));
    }
    out
}

/// The first scan the quadrupole table covers: the table is sorted by
/// start, so this is entry zero's start.
pub open spec fn queried_lo(q: &QuadrupoleSettings) -> int {
    q.scan_starts@[0] as int
}

/// One past the last scan the quadrupole table covers: the ends are
/// non-decreasing, so this is the last entry's end.
pub open spec fn queried_hi(q: &QuadrupoleSettings) -> int {
    q.scan_ends@[q.group_count() - 1] as int
}

/// `x` clamped into `[lo, hi]`.
pub open spec fn clamp_spec(x: int, lo: int, hi: int) -> int {
    if x < lo {
        lo
    } else if x > hi {
        hi
    } else {
        x
    }
}

/// The number of uniform bins: `span / step`, rounded up.
pub open spec fn bin_count(span: int, step: int) -> int {
    (span + step - 1) / step
}

/// The `k`-th group the uniform-mobility policy yields: the mobility
/// interval `[im0 + k*step, im0 + min((k+1)*step, span))` mapped back to
/// scan indices (where `im0` is the mobility of the first covered scan),
/// clamped to the covered scan range, carrying the overlap-majority
/// native window.
pub open spec fn uniform_group(
    q: &QuadrupoleSettings,
    c: &DomainConverter,
    span: int,
    step: int,
    k: int,
) -> ScanWindowGroup {
    let lo = queried_lo(q);
    let hi = queried_hi(q);
    let im0 = c.convert_spec(lo);
    let ia = im0 + k * step;
    let ib_raw = im0 + (k + 1) * step;
    let ib = if ib_raw > im0 + span {
        im0 + span
    } else {
        ib_raw
    };
    let sa = clamp_spec(c.invert_spec(ia), lo, hi);
    let sb = clamp_spec(c.invert_spec(ib), lo, hi);
    ScanWindowGroup {
        scan_start: sa as usize,
        scan_end: sb as usize,
        window: match best_window(q, sa, sb) {
            Option::Some(g) => Option::Some(window_of(q, g)),
            Option::None => Option::None,
        },
    }
}

/// The groups the uniform-mobility policy yields: `bin_count` uniform
/// bins, or none at all for a frame without native windows.
pub open spec fn uniform_groups_spec(
    q: &QuadrupoleSettings,
    c: &DomainConverter,
    span: int,
    step: int,
) -> Seq<ScanWindowGroup> {
    if q.group_count() == 0 {
        Seq::empty()
    } else {
        Seq::new(bin_count(span, step) as nat, |k: int| uniform_group(q, c, span, step, k))
    }
}

/// In a well-formed quadrupole table an earlier range ends no later than
/// a later range starts.
pub proof fn lemma_quad_ordered(q: &QuadrupoleSettings, g1: int, g2: int)
    requires
        q.wf(),
        0 <= g1 < g2 < q.group_count(),
    ensures
        q.scan_ends@[g1] <= q.scan_starts@[g2],
    decreases g2 - g1,
{
    if g1 + 1 < g2 {
        lemma_quad_ordered(q, g1 + 1, g2);
    }
}

/// The covered scan range of a non-empty well-formed table is well
/// ordered: the first start is at most the last end.
pub proof fn lemma_queried_range(q: &QuadrupoleSettings)
    requires
        q.wf(),
        q.group_count() > 0,
    ensures
        queried_lo(q) <= queried_hi(q),
{
    if q.group_count() > 1 {
        lemma_quad_ordered(q, 0, q.group_count() - 1);
    }
}

/// Bounds used by the uniform split: the bin count is positive, at most
/// `span + step - 1`, and the bins tile the span: `bin_count * step`
/// reaches `span` but overshoots it by less than `step`.
pub proof fn lemma_bin_count_bounds(span: int, step: int)
    requires
        1 <= span,
        1 <= step,
    ensures
        1 <= bin_count(span, step) <= span + step - 1,
        span <= bin_count(span, step) * step <= span + step - 1,
        (bin_count(span, step) - 1) * step <= span - 1,
{
    let n = bin_count(span, step);
    lemma_fundamental_div_mod(span + step - 1, step);
    vstd::arithmetic::div_mod::lemma_mod_bound(span + step - 1, step);
    assert(step * n == span + step - 1 - ((span + step - 1) % step));
    assert(span <= step * n <= span + step - 1);
    assert(step * n == n * step) by (nonlinear_arith);
    assert(n >= 1) by (nonlinear_arith)
        requires
            1 <= step,
            n * step >= span >= 1,
    ;
    assert(n <= n * step) by (nonlinear_arith)
        requires
            1 <= step,
            n >= 1,
    ;
    assert((n - 1) * step == n * step - step) by (nonlinear_arith);
}

/// With a step wider than the whole span, the uniform policy produces
/// exactly one bin.
pub proof fn lemma_uniform_single_bin(span: int, step: int)
    requires
        1 <= span <= step,
    ensures
        bin_count(span, step) == 1,
{
    lemma_div_multiples_vanish_fancy(1, span - 1, step);
    assert(step * 1 + (span - 1) == span + step - 1);
}

/// Splits a frame with the uniform-mobility policy.
#[verifier::loop_isolation(false)]
pub fn split_uniform(
    frame: &Frame,
    span: i64,
    step: i64,
    im_converter: &DomainConverter,
) -> (r: Vec<ScanWindowGroup>)
    requires
        frame.wf(),
        im_converter.wf(),
        im_converter.in_domain(frame.num_scans()),
        1 <= span <= SPAN_MAX,
        1 <= step <= SPAN_MAX,
        bin_count(span as int, step as int) <= usize::MAX,
    ensures
        r@ == uniform_groups_spec(&frame.quadrupole_settings, im_converter, span as int,
            step as int),
        step >= span && frame.quadrupole_settings.scan_starts@.len() > 0 ==> r@.len() == 1,
{
    proof {
        if step >= span {
            lemma_uniform_single_bin(span as int, step as int);
        }
    }
    let q = &frame.quadrupole_settings;
    let count: usize = q.scan_starts.len();
    if count == 0 {
        let empty: Vec<ScanWindowGroup> = Vec::new();
        proof {
            assert(empty@ =~= uniform_groups_spec(q, im_converter, span as int, step as int));
        }
        return empty;
    }
    let lo: usize = q.scan_starts[0];
    let hi: usize = q.scan_ends[count - 1];
    proof {
        lemma_queried_range(q);
        crate::converters::lemma_domain_downward(im_converter, lo as int,
            frame.num_scans());
        lemma_bin_count_bounds(span as int, step as int);
    }
    let im0: i64 = im_converter.convert(lo);
    let nb64: u64 = ((span as u64) + (step as u64) - 1) / (step as u64);
    let nb: usize = nb64 as usize;
    let ghost nbi: int = bin_count(span as int, step as int);
    proof {
        assert(nb == nbi);
    }
    let mut out: Vec<ScanWindowGroup> = Vec::new();
    let mut k: usize = 0;
    while k < nb
        invariant
            0 <= k <= nb,
            out@.len() == k,
            forall|j: int|
                0 <= j < k ==> out@[j] == uniform_group(q, im_converter, span as int,
                    step as int, j),
        decreases nb - k,
    {
        proof {
            lemma_mul_inequality(k as int, nbi - 1, step as int);
            lemma_mul_inequality(k as int + 1, nbi, step as int);
        }
        let prod: i64 = (k as i64) * step;
        let prod2: i64 = (k as i64 + 1) * step;
        let ia: i64 = im0 + prod;
        let ib_raw: i64 = im0 + prod2;
        let lim: i64 = im0 + span;
        let ib: i64 = if ib_raw > lim {
            lim
        } else {
            ib_raw
        };
        let sa_raw: usize = im_converter.invert(ia);
        let sb_raw: usize = im_converter.invert(ib);
        let sa: usize = if sa_raw < lo {
            lo
        } else if sa_raw > hi {
            hi
        } else {
            sa_raw
        };
        let sb: usize = if sb_raw < lo {
            lo
        } else if sb_raw > hi {
            hi
        } else {
            sb_raw
        };
        let picked: Option<usize> = pick_window(q, sa, sb);
        let win: Option<IsolationWindow> = match picked {
            Option::Some(g) => Option::Some(
                IsolationWindow {
                    mz: q.isolation_mz[g],
                    width: q.isolation_width[g],
                    collision_energy: q.collision_energy[g],
                },
            ),
            Option::None => Option::None,
        };
        out.push(ScanWindowGroup { scan_start: sa, scan_end: sb, window: win });
        proof {
            assert(out@[k as int] == uniform_group(q, im_converter, span as int, step as int,
                k as int));
        }
        k = k + 1;
    }
    proof {
        assert(out@ =~= uniform_groups_spec(q, im_converter, span as int, step as int));
    }
    out
}

/// Splits a decoded frame into scan-range groups under the given policy.
pub fn split(frame: &Frame, policy: &SplitPolicy, im_converter: &DomainConverter) -> (r: Vec<
    ScanWindowGroup,
>)
    requires
        frame.wf(),
        policy.wf(),
        im_converter.wf(),
        im_converter.in_domain(frame.num_scans()),
        policy matches SplitPolicy::UniformMobility { span, step } ==> bin_count(span as int,
            step as int) <= usize::MAX,
    ensures
        r@ == split_groups_spec(frame, policy, im_converter),
{
    match policy {
        SplitPolicy::Native => split_native(frame),
        SplitPolicy::UniformMobility { span, step } => split_uniform(frame, *span, *step,
            im_converter),
    }
}

/// Window assignment depends only on the table's scan arrays, not on the
/// table value's identity.
pub proof fn lemma_best_window_congruent(
    q1: &QuadrupoleSettings,
    q2: &QuadrupoleSettings,
    a: int,
    b: int,
    n: int,
)
    requires
        q1.scan_starts@ == q2.scan_starts@,
        q1.scan_ends@ == q2.scan_ends@,
    ensures
        best_window_upto(q1, a, b, n) == best_window_upto(q2, a, b, n),
    decreases n,
{
    if n > 0 {
        lemma_best_window_congruent(q1, q2, a, b, n - 1);
    }
}

/// Split results depend only on the frame's quadrupole arrays, not on
/// the table value's identity.
pub proof fn lemma_split_groups_congruent(
    f1: &Frame,
    f2: &Frame,
    policy: &SplitPolicy,
    c: &DomainConverter,
)
    requires
        f1.quadrupole_settings.scan_starts@ == f2.quadrupole_settings.scan_starts@,
        f1.quadrupole_settings.scan_ends@ == f2.quadrupole_settings.scan_ends@,
        f1.quadrupole_settings.isolation_mz@ == f2.quadrupole_settings.isolation_mz@,
        f1.quadrupole_settings.isolation_width@ == f2.quadrupole_settings.isolation_width@,
        f1.quadrupole_settings.collision_energy@ == f2.quadrupole_settings.collision_energy@,
    ensures
        split_groups_spec(f1, policy, c) == split_groups_spec(f2, policy, c),
{
    let q1 = &f1.quadrupole_settings;
    let q2 = &f2.quadrupole_settings;
    assert forall|a: int, b: int| #[trigger] best_window(q1, a, b) == best_window(q2, a, b) by {
        lemma_best_window_congruent(q1, q2, a, b, q1.group_count());
    }
    match policy {
        SplitPolicy::Native => {
            assert(native_groups_spec(q1) =~= native_groups_spec(q2));
        },
        SplitPolicy::UniformMobility { span, step } => {
            assert(uniform_groups_spec(q1, c, *span as int, *step as int) =~= uniform_groups_spec(
                q2,
                c,
                *span as int,
                *step as int,
            ));
        },
    }
}

/// Whether scan `s` lies in some group of `gs`.
pub open spec fn covered_by_groups(gs: Seq<ScanWindowGroup>, s: int) -> bool {
    exists|k: int| 0 <= k < gs.len() && (#[trigger] gs[k]).scan_start <= s < gs[k].scan_end
}

/// Whether scan `s` lies in some native range of `q`.
pub open spec fn covered_by_native(q: &QuadrupoleSettings, s: int) -> bool {
    exists|g: int| 0 <= g < q.group_count() && #[trigger] q.scan_starts@[g] <= s < q.scan_ends@[g]
}

/// Windowing coverage of the native policy: the union of the returned
/// scan ranges is exactly the union of the native quadrupole ranges, and
/// the returned ranges are pairwise non-overlapping.
pub proof fn lemma_native_split_covers(q: &QuadrupoleSettings)
    requires
        q.wf(),
    ensures
        native_groups_spec(q).len() == q.group_count(),
        forall|s: int| covered_by_groups(native_groups_spec(q), s) == covered_by_native(q, s),
        forall|k1: int, k2: int|
            0 <= k1 < k2 < native_groups_spec(q).len() ==> #[trigger] native_groups_spec(
                q,
            )[k1].scan_end <= #[trigger] native_groups_spec(q)[k2].scan_start,
{
    let gs = native_groups_spec(q);
    assert forall|s: int| covered_by_groups(gs, s) == covered_by_native(q, s) by {
        if covered_by_groups(gs, s) {
            let k = choose|k: int| 0 <= k < gs.len() && (#[trigger] gs[k]).scan_start <= s < gs[k].scan_end;
            assert(q.scan_starts@[k] <= s < q.scan_ends@[k]);
        }
        if covered_by_native(q, s) {
            let g = choose|g: int|
                0 <= g < q.group_count() && #[trigger] q.scan_starts@[g] <= s < q.scan_ends@[g];
            assert(gs[g].scan_start <= s < gs[g].scan_end);
        }
    }
    assert forall|k1: int, k2: int|
        0 <= k1 < k2 < gs.len() implies #[trigger] gs[k1].scan_end
        <= #[trigger] gs[k2].scan_start by {
        lemma_quad_ordered(q, k1, k2);
    }
}

/// Ordering of the uniform-mobility groups: every group lies within the
/// covered scan range with a well-ordered range, and consecutive groups
/// do not overlap.
pub proof fn lemma_uniform_groups_ordered(
    q: &QuadrupoleSettings,
    c: &DomainConverter,
    span: int,
    step: int,
    k: int,
)
    requires
        q.wf(),
        c.wf(),
        q.group_count() > 0,
        1 <= span,
        1 <= step,
        0 <= k < bin_count(span, step),
    ensures
        queried_lo(q) <= uniform_groups_spec(q, c, span, step)[k].scan_start,
        uniform_groups_spec(q, c, span, step)[k].scan_start <= uniform_groups_spec(
            q,
            c,
            span,
            step,
        )[k].scan_end,
        uniform_groups_spec(q, c, span, step)[k].scan_end <= queried_hi(q),
        k + 1 < bin_count(span, step) ==> uniform_groups_spec(q, c, span, step)[k].scan_end
            <= uniform_groups_spec(q, c, span, step)[k + 1].scan_start,
{
    lemma_queried_range(q);
    lemma_bin_count_bounds(span, step);
    let lo = queried_lo(q);
    let hi = queried_hi(q);
    let im0 = c.convert_spec(lo);
    let ia = im0 + k * step;
    let ib_raw = im0 + (k + 1) * step;
    let ib = if ib_raw > im0 + span {
        im0 + span
    } else {
        ib_raw
    };
    assert(k * step <= (k + 1) * step) by (nonlinear_arith)
        requires
            step >= 1,
    ;
    lemma_mul_inequality(k, bin_count(span, step) - 1, step);
    assert(ia <= ib);
    lemma_invert_monotonic(c, ia, ib);
    if k + 1 < bin_count(span, step) {
        let ia2 = im0 + (k + 1) * step;
        assert(ib <= ia2);
        lemma_invert_monotonic(c, ib, ia2);
    }
}

/// The groups a split yields under each policy.
pub open spec fn split_groups_spec(
    frame: &Frame,
    policy: &SplitPolicy,
    c: &DomainConverter,
) -> Seq<ScanWindowGroup> {
    match policy {
        SplitPolicy::Native => native_groups_spec(&frame.quadrupole_settings),
        SplitPolicy::UniformMobility { span, step } => uniform_groups_spec(
            &frame.quadrupole_settings,
            c,
            *span as int,
            *step as int,
        ),
    }
}

} // verus!

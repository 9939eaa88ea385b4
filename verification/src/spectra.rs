//! Spectrum building: slices a frame's peak arrays for one scan-range
//! group, merges duplicate TOF indices by summing their intensities,
//! calibrates the distinct TOF indices to m/z, and applies the frame's
//! intensity correction factor.
//!
//! Peaks sharing one raw TOF index within a group collapse to a single
//! m/z entry; the output is sorted ascending by m/z (equivalently by TOF
//! index, as the m/z converter is strictly increasing). Corrected
//! intensities are in milli-counts: the raw sum times the frame's
//! milli-unit correction factor.

use crate::converters::DomainConverter;
use crate::frames::Frame;
use crate::splitter::ScanWindowGroup;
use crate::TimsError;
use vstd::prelude::*;

verus! {

/// The `(tof, intensity)` pairs of scan `s`, given a frame's offset,
/// TOF-index and intensity arrays.
pub open spec fn scan_pairs(
    offsets: Seq<usize>,
    tofs: Seq<u32>,
    ints: Seq<u32>,
    s: int,
) -> Seq<(u32, u32)> {
    Seq::new(
        (offsets[s + 1] - offsets[s]) as nat,
        |k: int| (tofs[offsets[s] + k], ints[offsets[s] + k]),
    )
}

/// The `(tof, intensity)` pairs of scans `[lo, hi)`, in scan order.
pub open spec fn range_pairs(
    offsets: Seq<usize>,
    tofs: Seq<u32>,
    ints: Seq<u32>,
    lo: int,
    hi: int,
) -> Seq<(u32, u32)>
    decreases hi - lo,
{
    if lo >= hi {
        Seq::empty()
    } else {
        range_pairs(offsets, tofs, ints, lo, hi - 1) + scan_pairs(offsets, tofs, ints, hi - 1)
    }
}

/// The `(tof, intensity)` pairs of scans `[lo, hi)` of a frame.
pub open spec fn frame_pairs(f: &Frame, lo: int, hi: int) -> Seq<(u32, u32)> {
    range_pairs(f.scan_offsets@, f.tof_indices@, f.intensities@, lo, hi)
}

/// The total raw intensity recorded at TOF index `t` among `pairs`.
pub open spec fn sum_for(pairs: Seq<(u32, u32)>, t: u32) -> int
    decreases pairs.len(),
{
    if pairs.len() == 0 {
        0
    } else {
        sum_for(pairs.drop_last(), t) + if pairs.last().0 == t {
            pairs.last().1 as int
        } else {
            0
        }
    }
}

/// Whether some pair carries TOF index `t`.
pub open spec fn contains_tof(pairs: Seq<(u32, u32)>, t: u32) -> bool {
    exists|i: int| 0 <= i < pairs.len() && (#[trigger] pairs[i]).0 == t
}

/// Appending one pair adds its intensity to its own TOF total and leaves
/// every other total unchanged.
proof fn lemma_sum_for_push(s: Seq<(u32, u32)>, p: (u32, u32), t: u32)
    ensures
        sum_for(s.push(p), t) == sum_for(s, t) + if p.0 == t {
            p.1 as int
        } else {
            0
        },
{
    assert(s.push(p).drop_last() =~= s);
    assert(s.push(p).last() == p);
}

/// Appending one pair extends the set of TOF indices by the pair's own.
proof fn lemma_contains_push(s: Seq<(u32, u32)>, p: (u32, u32), t: u32)
    ensures
        contains_tof(s.push(p), t) == (contains_tof(s, t) || p.0 == t),
{
    if contains_tof(s, t) {
        let i = choose|i: int| 0 <= i < s.len() && (#[trigger] s[i]).0 == t;
        assert(s.push(p)[i].0 == t);
    }
    if p.0 == t {
        assert(s.push(p)[s.len() as int].0 == t);
    }
    if contains_tof(s.push(p), t) && !(p.0 == t) {
        let i = choose|i: int| 0 <= i < s.push(p).len() && (#[trigger] s.push(p)[i]).0 == t;
        assert(i < s.len());
        assert(s[i].0 == t);
    }
}

/// A TOF index that appears nowhere has a zero total.
proof fn lemma_sum_for_absent(s: Seq<(u32, u32)>, t: u32)
    requires
        !contains_tof(s, t),
    ensures
        sum_for(s, t) == 0,
    decreases s.len(),
{
    if s.len() > 0 {
        assert(!contains_tof(s.drop_last(), t)) by {
            if contains_tof(s.drop_last(), t) {
                let i = choose|i: int|
                    0 <= i < s.drop_last().len() && (#[trigger] s.drop_last()[i]).0 == t;
                assert(s[i].0 == t);
            }
        }
        assert(s.last().0 != t) by {
            if s.last().0 == t {
                assert(s[s.len() - 1].0 == t);
            }
        }
        lemma_sum_for_absent(s.drop_last(), t);
    }
}

/// A TOF total is bounded by the pair count times the largest intensity.
proof fn lemma_sum_for_bound(s: Seq<(u32, u32)>, t: u32)
    ensures
        0 <= sum_for(s, t) <= s.len() * (u32::MAX as int),
    decreases s.len(),
{
    if s.len() == 0 {
    } else {
        lemma_sum_for_bound(s.drop_last(), t);
        assert((s.len() - 1) * (u32::MAX as int) + (u32::MAX as int) == s.len() * (
        u32::MAX as int)) by (nonlinear_arith);
    }
}

/// The pair count of a scan range is the difference of its offsets.
pub proof fn lemma_range_pairs_len(f: &Frame, lo: int, hi: int)
    requires
        f.wf(),
        0 <= lo <= hi <= f.num_scans(),
    ensures
        frame_pairs(f, lo, hi).len() == f.scan_offsets@[hi] - f.scan_offsets@[lo],
    decreases hi - lo,
{
    if lo < hi {
        lemma_range_pairs_len(f, lo, hi - 1);
    }
}

/// Every offset of a valid frame is bounded by the peak count.
pub proof fn lemma_frame_offsets_bounded(f: &Frame, i: int)
    requires
        f.wf(),
        0 <= i <= f.num_scans(),
    ensures
        f.scan_offsets@[i] <= f.tof_indices@.len(),
    decreases f.num_scans() - i,
{
    if i < f.num_scans() {
        lemma_frame_offsets_bounded(f, i + 1);
    }
}

/// Every TOF index appearing in a scan range appears in the frame's TOF
/// array.
pub proof fn lemma_range_pairs_tofs(f: &Frame, lo: int, hi: int, t: u32)
    requires
        f.wf(),
        0 <= lo <= hi <= f.num_scans(),
        contains_tof(frame_pairs(f, lo, hi), t),
    ensures
        exists|i: int| 0 <= i < f.tof_indices@.len() && f.tof_indices@[i] == t,
    decreases hi - lo,
{
    if lo < hi {
        let whole = frame_pairs(f, lo, hi);
        let head = frame_pairs(f, lo, hi - 1);
        let tail = scan_pairs(f.scan_offsets@, f.tof_indices@, f.intensities@, hi - 1);
        let i = choose|i: int| 0 <= i < whole.len() && (#[trigger] whole[i]).0 == t;
        if i < head.len() {
            assert(head[i].0 == t);
            lemma_range_pairs_tofs(f, lo, hi - 1, t);
        } else {
            let j = i - head.len();
            assert(tail[j].0 == t);
            lemma_frame_offsets_bounded(f, hi);
            assert(f.tof_indices@[f.scan_offsets@[hi - 1] + j] == t);
        }
    }
}

/// Merges the `(tof, intensity)` pairs of one scan-range group: the
/// result pairs each distinct TOF index, in strictly increasing order,
/// with the total raw intensity recorded at it.
#[verifier::loop_isolation(false)]
pub fn merge_peaks(pairs: &Vec<(u32, u32)>) -> (r: (Vec<u32>, Vec<u64>))
    requires
        pairs@.len() <= u32::MAX,
    ensures
        r.0@.len() == r.1@.len(),
        forall|i: int, j: int| 0 <= i < j < r.0@.len() ==> r.0@[i] < r.0@[j],
        forall|t: u32| contains_tof(pairs@, t) == r.0@.contains(t),
        forall|i: int| 0 <= i < r.0@.len() ==> #[trigger] r.1@[i] == sum_for(pairs@, r.0@[i]),
{
    let mut tofs: Vec<u32> = Vec::new();
    let mut sums: Vec<u64> = Vec::new();
    let n: usize = pairs.len();
    let mut i: usize = 0;
    while i < n
        invariant
            0 <= i <= n,
            tofs@.len() == sums@.len(),
            tofs@.len() <= i,
            forall|a: int, b: int| 0 <= a < b < tofs@.len() ==> tofs@[a] < tofs@[b],
            forall|t: u32| contains_tof(pairs@.subrange(0, i as int), t) == tofs@.contains(t),
            forall|k: int|
                0 <= k < tofs@.len() ==> #[trigger] sums@[k] == sum_for(
                    pairs@.subrange(0, i as int),
                    tofs@[k],
                ),
        decreases n - i,
    {
        let t: u32 = pairs[i].0;
        let v: u32 = pairs[i].1;
        let ghost prefix = pairs@.subrange(0, i as int);
        let ghost next_prefix = pairs@.subrange(0, i as int + 1);
        proof {
            assert(next_prefix =~= prefix.push(pairs@[i as int]));
        }
        let mut pos: usize = 0;
        while pos < tofs.len() && tofs[pos] < t
            invariant
                0 <= pos <= tofs@.len(),
                forall|j: int| 0 <= j < pos ==> tofs@[j] < t,
            decreases tofs@.len() - pos,
        {
            pos = pos + 1;
        }
        if pos < tofs.len() && tofs[pos] == t {
            proof {
                lemma_sum_for_bound(prefix, t);
                assert(prefix.len() * (u32::MAX as int) + (u32::MAX as int) <= (u32::MAX as int)
                    * (u32::MAX as int) + (u32::MAX as int)) by (nonlinear_arith)
                    requires
                        prefix.len() <= u32::MAX,
                ;
            }
            let ns: u64 = sums[pos] + v as u64;
            sums.set(pos, ns);
            proof {
                assert forall|tt: u32| contains_tof(next_prefix, tt) == tofs@.contains(tt) by {
                    lemma_contains_push(prefix, pairs@[i as int], tt);
                    if pairs@[i as int].0 == tt {
                        assert(tofs@[pos as int] == tt);
                    }
                }
                assert forall|k: int| 0 <= k < tofs@.len() implies #[trigger] sums@[k] == sum_for(
                    next_prefix,
                    tofs@[k],
                ) by {
                    lemma_sum_for_push(prefix, pairs@[i as int], tofs@[k]);
                    if k != pos {
                        assert(tofs@[k] != t);
                    }
                }
            }
        } else {
            proof {
                assert(!tofs@.contains(t)) by {
                    if tofs@.contains(t) {
                        let k = choose|k: int| 0 <= k < tofs@.len() && tofs@[k] == t;
                        if k < pos {
                            assert(tofs@[k] < t);
                        } else {
                            assert(pos < tofs@.len());
                            if pos < k {
                                assert(tofs@[pos as int] < tofs@[k]);
                            }
                        }
                    }
                }
                lemma_sum_for_absent(prefix, t);
            }
            let ghost old_tofs = tofs@;
            let ghost old_sums = sums@;
            tofs.insert(pos, t);
            sums.insert(pos, v as u64);
            proof {
                old_tofs.insert_ensures(pos as int, t);
                old_sums.insert_ensures(pos as int, v as u64);
                assert forall|a: int, b: int|
                    0 <= a < b < tofs@.len() implies tofs@[a] < tofs@[b] by {
                    if a < pos && b == pos {
                        assert(tofs@[a] == old_tofs[a] && old_tofs[a] < t);
                    } else if a == pos && b > pos {
                        assert(tofs@[b] == old_tofs[b - 1]);
                        assert(old_tofs[pos as int] >= t);
                        assert(old_tofs[pos as int] != t);
                        if b - 1 > pos {
                            assert(old_tofs[pos as int] < old_tofs[b - 1]);
                        }
                    } else if a < pos && b > pos {
                        assert(tofs@[a] == old_tofs[a] && tofs@[b] == old_tofs[b - 1]);
                        if b - 1 > a {
                            assert(old_tofs[a] < old_tofs[b - 1]);
                        }
                    } else if a > pos && b > pos {
                        assert(tofs@[a] == old_tofs[a - 1] && tofs@[b] == old_tofs[b - 1]);
                    } else if a < pos && b < pos {
                        assert(tofs@[a] == old_tofs[a] && tofs@[b] == old_tofs[b]);
                    }
                }
                assert forall|tt: u32| contains_tof(next_prefix, tt) == tofs@.contains(tt) by {
                    lemma_contains_push(prefix, pairs@[i as int], tt);
                    if contains_tof(next_prefix, tt) {
                        if tt == t {
                            assert(tofs@[pos as int] == tt);
                            assert(tofs@.contains(tt));
                        } else {
                            assert(contains_tof(prefix, tt));
                            assert(old_tofs.contains(tt));
                            let k = choose|k: int| 0 <= k < old_tofs.len() && old_tofs[k] == tt;
                            if k < pos {
                                assert(tofs@[k] == tt);
                            } else {
                                assert(tofs@[k + 1] == tt);
                            }
                            assert(tofs@.contains(tt));
                        }
                    }
                    if tofs@.contains(tt) {
                        let k = choose|k: int| 0 <= k < tofs@.len() && tofs@[k] == tt;
                        if k == pos {
                            assert(tt == t);
                        } else if k < pos {
                            assert(old_tofs[k] == tt);
                            assert(old_tofs.contains(tt));
                            assert(contains_tof(prefix, tt));
                        } else {
                            assert(old_tofs[k - 1] == tt);
                            assert(old_tofs.contains(tt));
                            assert(contains_tof(prefix, tt));
                        }
                        assert(contains_tof(next_prefix, tt));
                    }
                }
                assert forall|k: int| 0 <= k < tofs@.len() implies #[trigger] sums@[k] == sum_for(
                    next_prefix,
                    tofs@[k],
                ) by {
                    lemma_sum_for_push(prefix, pairs@[i as int], tofs@[k]);
                    if k < pos {
                        assert(sums@[k] == old_sums[k] && tofs@[k] == old_tofs[k]);
                        assert(tofs@[k] != t);
                    } else if k == pos {
                        assert(sums@[k] == v as u64 && tofs@[k] == t);
                    } else {
                        assert(sums@[k] == old_sums[k - 1] && tofs@[k] == old_tofs[k - 1]);
                        assert(tofs@[k] != t);
                    }
                }
            }
        }
        i = i + 1;
    }
    proof {
        assert(pairs@.subrange(0, n as int) =~= pairs@);
    }
    (tofs, sums)
}

/// Collects the `(tof, intensity)` pairs of scans `[a, b)` of a frame in
/// scan order.
#[verifier::loop_isolation(false)]
fn collect_pairs(frame: &Frame, a: usize, b: usize) -> (r: Vec<(u32, u32)>)
    requires
        frame.wf(),
        a <= b,
        b <= frame.num_scans(),
    ensures
        r@ == frame_pairs(frame, a as int, b as int),
{
    let ghost fo = frame.scan_offsets@;
    let ghost ft = frame.tof_indices@;
    let ghost fi = frame.intensities@;
    let mut pairs: Vec<(u32, u32)> = Vec::new();
    let mut s: usize = a;
    proof {
        assert(pairs@ =~= range_pairs(fo, ft, fi, a as int, a as int));
    }
    while s < b
        invariant
            a <= s <= b,
            pairs@ == range_pairs(fo, ft, fi, a as int, s as int),
        decreases b - s,
    {
        let off: usize = frame.scan_offsets[s];
        let end: usize = frame.scan_offsets[s + 1];
        proof {
            lemma_frame_offsets_bounded(frame, s as int + 1);
            assert(pairs@ =~= range_pairs(fo, ft, fi, a as int, s as int) + scan_pairs(
                fo,
                ft,
                fi,
                s as int,
            ).subrange(0, 0));
        }
        let mut k: usize = off;
        while k < end
            invariant
                off <= k <= end,
                pairs@ == range_pairs(fo, ft, fi, a as int, s as int) + scan_pairs(fo, ft, fi,
                    s as int).subrange(0, k - off),
            decreases end - k,
        {
            pairs.push((frame.tof_indices[k], frame.intensities[k]));
            proof {
                assert(scan_pairs(fo, ft, fi, s as int).subrange(0, k + 1 - off) =~= scan_pairs(
                    fo,
                    ft,
                    fi,
                    s as int,
                ).subrange(0, k - off).push((ft[k as int], fi[k as int])));
                assert(pairs@ =~= range_pairs(fo, ft, fi, a as int, s as int) + scan_pairs(
                    fo,
                    ft,
                    fi,
                    s as int,
                ).subrange(0, k + 1 - off));
            }
            k = k + 1;
        }
        proof {
            assert(scan_pairs(fo, ft, fi, s as int).subrange(0, end - off) =~= scan_pairs(
                fo,
                ft,
                fi,
                s as int,
            ));
            assert(range_pairs(fo, ft, fi, a as int, s as int + 1) == range_pairs(fo, ft, fi,
                a as int, s as int) + scan_pairs(fo, ft, fi, s as int));
        }
        s = s + 1;
    }
    pairs
}

/// A resolved precursor record attached to a spectrum: isolation center
/// m/z, calibrated retention time and mobility of the window's midpoint
/// scan (all micro-units). Charge and intensity are populated only when
/// resolved precursor identity is available upstream, and are otherwise
/// absent.
#[derive(Clone, Copy, Debug)]
pub struct Precursor {
    pub mz: i64,
    pub rt: i64,
    pub im: i64,
    pub charge: Option<usize>,
    pub intensity: Option<u64>,
    pub index: usize,
    pub frame_index: usize,
}

/// One spectrum: distinct mass channels sorted ascending by m/z, with
/// corrected intensities in milli-counts, and the isolation window
/// metadata of the group it was built from (zero for an MS1 or
/// unassigned group).
#[derive(Debug)]
pub struct Spectrum {
    pub mz_values: Vec<i64>,
    pub intensities: Vec<u128>,
    pub tof_indices: Vec<u32>,
    pub precursor: Option<Precursor>,
    pub index: usize,
    pub collision_energy: i64,
    pub isolation_mz: i64,
    pub isolation_width: i64,
}

/// The midpoint scan of a group.
pub open spec fn group_mid(group: &ScanWindowGroup) -> int {
    group.scan_start + (group.scan_end - group.scan_start) / 2
}

/// What a successfully built spectrum holds: one entry per distinct TOF
/// index of the group, in strictly increasing TOF (hence m/z) order,
/// each with the calibrated m/z and the summed raw intensity scaled by
/// the frame's correction factor; isolation metadata and the precursor
/// record mirror the group's window.
pub open spec fn spectrum_matches(
    frame: &Frame,
    group: &ScanWindowGroup,
    im_c: &DomainConverter,
    mz_c: &DomainConverter,
    index: int,
    sp: &Spectrum,
) -> bool {
    let pairs = frame_pairs(frame, group.scan_start as int, group.scan_end as int);
    &&& sp.index == index
    &&& sp.tof_indices@.len() == sp.mz_values@.len()
    &&& sp.intensities@.len() == sp.mz_values@.len()
    &&& (forall|i: int, j: int|
        0 <= i < j < sp.tof_indices@.len() ==> sp.tof_indices@[i] < sp.tof_indices@[j])
    &&& (forall|i: int, j: int|
        0 <= i < j < sp.mz_values@.len() ==> sp.mz_values@[i] < sp.mz_values@[j])
    &&& (forall|t: u32|
        #![trigger contains_tof(pairs, t)]
        #![trigger sp.tof_indices@.contains(t)]
        contains_tof(pairs, t) == sp.tof_indices@.contains(t))
    &&& (forall|i: int|
        0 <= i < sp.mz_values@.len() ==> #[trigger] sp.mz_values@[i] == mz_c.convert_spec(
            sp.tof_indices@[i] as int,
        ))
    &&& (forall|i: int|
        0 <= i < sp.intensities@.len() ==> #[trigger] sp.intensities@[i] == sum_for(
            pairs,
            sp.tof_indices@[i],
        ) * frame.intensity_correction_factor)
    &&& (match group.window {
        Option::Some(w) => {
            &&& sp.isolation_mz == w.mz
            &&& sp.isolation_width == w.width
            &&& sp.collision_energy == w.collision_energy
            &&& (sp.precursor matches Some(p) && p == (Precursor {
                mz: w.mz,
                rt: frame.rt,
                im: im_c.convert_spec(group_mid(group)) as i64,
                charge: None,
                intensity: None,
                index: index as usize,
                frame_index: frame.index,
            }))
        },
        Option::None => {
            &&& sp.isolation_mz == 0
            &&& sp.isolation_width == 0
            &&& sp.collision_energy == 0
            &&& sp.precursor is None
        },
    })
}

/// Builds the spectrum of one `(frame, scan-range group)`: slices the
/// peak arrays over the group's scans, merges duplicate TOF indices by
/// summing raw intensities, calibrates to m/z, and scales intensities by
/// the frame's correction factor. A group whose scan range is not a
/// well-ordered range on the frame's scan axis yields `CorruptSpectrum`.
#[verifier::loop_isolation(false)]
pub fn build(
    frame: &Frame,
    group: &ScanWindowGroup,
    im_converter: &DomainConverter,
    mz_converter: &DomainConverter,
    spectrum_index: usize,
) -> (r: Result<Spectrum, TimsError>)
    requires
        frame.wf(),
        im_converter.wf(),
        mz_converter.wf(),
        im_converter.in_domain(frame.num_scans()),
        forall|i: int|
            0 <= i < frame.tof_indices@.len() ==> mz_converter.in_domain(
                #[trigger] frame.tof_indices@[i] as int,
            ),
    ensures
        r is Ok <==> (group.scan_start <= group.scan_end && group.scan_end
            <= frame.num_scans()),
        r matches Err(e) ==> e == TimsError::CorruptSpectrum,
        r matches Ok(sp) ==> spectrum_matches(frame, group, im_converter, mz_converter,
            spectrum_index as int, &sp),
{
    let a: usize = group.scan_start;
    let b: usize = group.scan_end;
    let num_scans: usize = frame.scan_offsets.len() - 1;
    if a > b || b > num_scans {
        return Err(TimsError::CorruptSpectrum);
    }
    let pairs: Vec<(u32, u32)> = collect_pairs(frame, a, b);
    proof {
        lemma_range_pairs_len(frame, a as int, b as int);
        lemma_frame_offsets_bounded(frame, b as int);
    }
    let merged: (Vec<u32>, Vec<u64>) = merge_peaks(&pairs);
    let tofs: Vec<u32> = merged.0;
    let sums: Vec<u64> = merged.1;
    proof {
        assert forall|j: int| 0 <= j < tofs@.len() implies mz_converter.in_domain(
            #[trigger] tofs@[j] as int,
        ) by {
            assert(tofs@.contains(tofs@[j]));
            assert(contains_tof(pairs@, tofs@[j]));
            lemma_range_pairs_tofs(frame, a as int, b as int, tofs@[j]);
            let i0 = choose|i0: int|
                0 <= i0 < frame.tof_indices@.len() && frame.tof_indices@[i0] == tofs@[j];
            assert(mz_converter.in_domain(frame.tof_indices@[i0] as int));
        }
    }
    let icf: u32 = frame.intensity_correction_factor;
    let mut mz_values: Vec<i64> = Vec::new();
    let mut intensities: Vec<u128> = Vec::new();
    let mut idx: usize = 0;
    while idx < tofs.len()
        invariant
            0 <= idx <= tofs@.len(),
            mz_values@.len() == idx,
            intensities@.len() == idx,
            forall|j: int|
                0 <= j < idx ==> #[trigger] mz_values@[j] == mz_converter.convert_spec(
                    tofs@[j] as int,
                ),
            forall|j: int|
                0 <= j < idx ==> #[trigger] intensities@[j] == sums@[j] * icf,
        decreases tofs@.len() - idx,
    {
        let m: i64 = mz_converter.convert(tofs[idx] as usize);
        mz_values.push(m);
        proof {
            assert((sums@[idx as int] as int) * (icf as int) <= (u64::MAX as int) * (
            u32::MAX as int)) by (nonlinear_arith)
                requires
                    0 <= sums@[idx as int] <= u64::MAX,
                    0 <= icf <= u32::MAX,
            ;
        }
        let cv: u128 = (sums[idx] as u128) * (icf as u128);
        intensities.push(cv);
        idx = idx + 1;
    }
    proof {
        assert forall|i: int, j: int|
            0 <= i < j < mz_values@.len() implies mz_values@[i] < mz_values@[j] by {
            crate::converters::lemma_convert_monotonic(mz_converter, tofs@[i] as int,
                tofs@[j] as int);
        }
    }
    let precursor: Option<Precursor>;
    let isolation_mz: i64;
    let isolation_width: i64;
    let collision_energy: i64;
    match group.window {
        Option::Some(w) => {
            let mid: usize = a + (b - a) / 2;
            proof {
                crate::converters::lemma_domain_downward(im_converter, mid as int,
                    frame.num_scans());
            }
            let im: i64 = im_converter.convert(mid);
            precursor = Some(
                Precursor {
                    mz: w.mz,
                    rt: frame.rt,
                    im,
                    charge: None,
                    intensity: None,
                    index: spectrum_index,
                    frame_index: frame.index,
                },
            );
            isolation_mz = w.mz;
            isolation_width = w.width;
            collision_energy = w.collision_energy;
        },
        Option::None => {
            precursor = None;
            isolation_mz = 0;
            isolation_width = 0;
            collision_energy = 0;
        },
    }
    Ok(
        Spectrum {
            mz_values,
            intensities,
            tof_indices: tofs,
            precursor,
            index: spectrum_index,
            collision_energy,
            isolation_mz,
            isolation_width,
        },
    )
}

/// The peak-merge law: a TOF index occurring anywhere in the group
/// appears exactly once in the built spectrum, and its intensity is the
/// total raw intensity recorded at that TOF index times the frame's
/// correction factor. In particular, two scans of one group sharing an
/// identical TOF index collapse to a single m/z entry whose intensity is
/// the sum of the two raw intensities times the correction factor.
pub proof fn lemma_peak_merge(
    frame: &Frame,
    group: &ScanWindowGroup,
    im_c: &DomainConverter,
    mz_c: &DomainConverter,
    index: int,
    sp: &Spectrum,
    t: u32,
)
    requires
        spectrum_matches(frame, group, im_c, mz_c, index, sp),
        contains_tof(frame_pairs(frame, group.scan_start as int, group.scan_end as int), t),
    ensures
        exists|j: int| 0 <= j < sp.tof_indices@.len() && sp.tof_indices@[j] == t,
        forall|j1: int, j2: int|
            0 <= j1 < sp.tof_indices@.len() && 0 <= j2 < sp.tof_indices@.len()
                && #[trigger] sp.tof_indices@[j1] == t && #[trigger] sp.tof_indices@[j2] == t
                ==> j1 == j2,
        forall|j: int|
            0 <= j < sp.tof_indices@.len() && #[trigger] sp.tof_indices@[j] == t
                ==> sp.intensities@[j] == sum_for(
                frame_pairs(frame, group.scan_start as int, group.scan_end as int),
                t,
            ) * frame.intensity_correction_factor,
{
    let pairs = frame_pairs(frame, group.scan_start as int, group.scan_end as int);
    assert(sp.tof_indices@.contains(t));
    let j0 = choose|j0: int| 0 <= j0 < sp.tof_indices@.len() && sp.tof_indices@[j0] == t;
    assert(sp.tof_indices@[j0] == t);
    assert forall|j1: int, j2: int|
        0 <= j1 < sp.tof_indices@.len() && 0 <= j2 < sp.tof_indices@.len()
            && #[trigger] sp.tof_indices@[j1] == t && #[trigger] sp.tof_indices@[j2] == t
        implies j1 == j2 by {
        if j1 < j2 {
            assert(sp.tof_indices@[j1] < sp.tof_indices@[j2]);
        }
        if j2 < j1 {
            assert(sp.tof_indices@[j2] < sp.tof_indices@[j1]);
        }
    }
}

} // verus!

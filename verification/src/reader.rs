//! The reader facade: owns the three domain converters and the raw
//! per-frame records of one open file, and sequences decoding, window
//! splitting and spectrum building for random-access and bulk reads.
//!
//! Construction validates the file-level metadata (`CannotOpen`) and the
//! windowing configuration (`InvalidConfiguration`); per-frame array
//! invariants are checked at each read and surface as `CorruptFrame`
//! local to that frame. Bulk reads are fail-fast: they stop at the first
//! corrupt frame and return its error, and otherwise return results in
//! frame-index order.

use crate::converters::{DomainConverter, QUERY_MAX};
use crate::frames::{
    decodable, decode, decoded_frame, AcquisitionType, Frame, MSLevel, QuadrupoleSettings,
    RawFrame,
};
use crate::spectra::{build, spectrum_matches, Spectrum};
use crate::splitter::{
    bin_count, split, split_groups_spec, lemma_split_groups_congruent,
    lemma_uniform_groups_ordered, lemma_queried_range, ScanWindowGroup, SplitPolicy,
};
use crate::TimsError;
use vstd::prelude::*;

verus! {

/// Per-frame light metadata resolved from the file-level tables, handed
/// over without a full frame decode.
#[derive(Debug)]
pub struct FrameMeta {
    pub ms_level: MSLevel,
    pub acquisition_type: AcquisitionType,
    pub quadrupole_settings: QuadrupoleSettings,
    /// Milli-units: one thousandth of the physical correction factor.
    pub intensity_correction_factor: u32,
}

/// Everything an open file yields: the three calibrations, the raw
/// frames, and per-frame metadata, as plain integer values.
#[derive(Debug)]
pub struct FileData {
    pub rt_calibration: DomainConverter,
    pub im_calibration: DomainConverter,
    pub mz_calibration: DomainConverter,
    pub frames: Vec<RawFrame>,
    pub frame_meta: Vec<FrameMeta>,
}

/// File-level metadata is consistent: well-formed calibrations, one
/// metadata record per frame, frame records indexed by position,
/// well-formed quadrupole tables, and a retention-time calibration that
/// covers every frame index.
pub open spec fn openable(data: &FileData) -> bool {
    &&& data.rt_calibration.wf()
    &&& data.im_calibration.wf()
    &&& data.mz_calibration.wf()
    &&& data.frame_meta@.len() == data.frames@.len()
    &&& forall|k: int| 0 <= k < data.frames@.len() ==> (#[trigger] data.frames@[k]).index == k
    &&& forall|k: int|
        0 <= k < data.frame_meta@.len() ==> (#[trigger] data.frame_meta@[k]).quadrupole_settings.wf()
    &&& forall|k: int|
        0 <= k < data.frames@.len() ==> #[trigger] data.rt_calibration.in_domain(k)
}

/// The windowing policy can be carried out on this machine: the bin
/// count of a uniform policy fits an allocation length.
pub open spec fn policy_feasible(policy: &SplitPolicy) -> bool {
    match policy {
        SplitPolicy::Native => true,
        SplitPolicy::UniformMobility { span, step } => bin_count(*span as int, *step as int)
            <= usize::MAX,
    }
}

/// The reader facade. Immutable once open; the converters are read-only
/// and safe to share.
#[derive(Debug)]
pub struct Reader {
    pub rt_converter: DomainConverter,
    pub im_converter: DomainConverter,
    pub mz_converter: DomainConverter,
    pub frames: Vec<RawFrame>,
    pub meta: Vec<FrameMeta>,
    pub policy: SplitPolicy,
}

/// Copies a vector of plain values.
#[verifier::loop_isolation(false)]
fn copy_vec<T: Copy>(v: &Vec<T>) -> (r: Vec<T>)
    ensures
        r@ == v@,
{
    let mut out: Vec<T> = Vec::new();
    let mut i: usize = 0;
    while i < v.len()
        invariant
            0 <= i <= v@.len(),
            out@ =~= v@.subrange(0, i as int),
        decreases v@.len() - i,
    {
        out.push(v[i]);
        i = i + 1;
    }
    proof {
        assert(out@ =~= v@);
    }
    out
}

/// Copies a raw frame record.
fn copy_raw(f: &RawFrame) -> (r: RawFrame)
    ensures
        r.index == f.index,
        r.scan_offsets@ == f.scan_offsets@,
        r.tof_indices@ == f.tof_indices@,
        r.intensities@ == f.intensities@,
{
    RawFrame {
        index: f.index,
        scan_offsets: copy_vec(&f.scan_offsets),
        tof_indices: copy_vec(&f.tof_indices),
        intensities: copy_vec(&f.intensities),
    }
}

/// Copies a quadrupole table.
fn copy_quad(q: &QuadrupoleSettings) -> (r: QuadrupoleSettings)
    ensures
        r.index == q.index,
        r.scan_starts@ == q.scan_starts@,
        r.scan_ends@ == q.scan_ends@,
        r.isolation_mz@ == q.isolation_mz@,
        r.isolation_width@ == q.isolation_width@,
        r.collision_energy@ == q.collision_energy@,
{
    QuadrupoleSettings {
        index: q.index,
        scan_starts: copy_vec(&q.scan_starts),
        scan_ends: copy_vec(&q.scan_ends),
        isolation_mz: copy_vec(&q.isolation_mz),
        isolation_width: copy_vec(&q.isolation_width),
        collision_energy: copy_vec(&q.collision_energy),
    }
}

/// Two frames carry the same record: equal scalars and equal array
/// contents (the arrays themselves may be distinct copies).
pub open spec fn frames_equiv(f1: &Frame, f2: &Frame) -> bool {
    &&& f1.index == f2.index
    &&& f1.scan_offsets@ == f2.scan_offsets@
    &&& f1.tof_indices@ == f2.tof_indices@
    &&& f1.intensities@ == f2.intensities@
    &&& f1.rt == f2.rt
    &&& f1.acquisition_type == f2.acquisition_type
    &&& f1.ms_level == f2.ms_level
    &&& f1.quadrupole_settings.index == f2.quadrupole_settings.index
    &&& f1.quadrupole_settings.scan_starts@ == f2.quadrupole_settings.scan_starts@
    &&& f1.quadrupole_settings.scan_ends@ == f2.quadrupole_settings.scan_ends@
    &&& f1.quadrupole_settings.isolation_mz@ == f2.quadrupole_settings.isolation_mz@
    &&& f1.quadrupole_settings.isolation_width@ == f2.quadrupole_settings.isolation_width@
    &&& f1.quadrupole_settings.collision_energy@ == f2.quadrupole_settings.collision_energy@
    &&& f1.intensity_correction_factor == f2.intensity_correction_factor
}

impl Reader {
    /// An open reader's invariant: consistent records, well-formed
    /// calibrations and a feasible windowing policy.
    pub open spec fn wf(&self) -> bool {
        &&& self.rt_converter.wf()
        &&& self.im_converter.wf()
        &&& self.mz_converter.wf()
        &&& self.meta@.len() == self.frames@.len()
        &&& forall|k: int| 0 <= k < self.frames@.len() ==> (#[trigger] self.frames@[k]).index == k
        &&& forall|k: int|
            0 <= k < self.meta@.len() ==> (#[trigger] self.meta@[k]).quadrupole_settings.wf()
        &&& forall|k: int|
            0 <= k < self.frames@.len() ==> #[trigger] self.rt_converter.in_domain(k)
        &&& self.policy.wf()
        &&& policy_feasible(&self.policy)
    }

    /// The decoded frame record `k` yields.
    pub open spec fn record_frame(&self, k: int) -> Frame {
        decoded_frame(
            self.frames@[k],
            self.meta@[k].acquisition_type,
            self.meta@[k].ms_level,
            self.meta@[k].quadrupole_settings,
            self.meta@[k].intensity_correction_factor,
            self.rt_converter.convert_spec(self.frames@[k].index as int) as i64,
        )
    }

    /// Whether frame record `k` passes its array invariants.
    pub open spec fn record_decodable(&self, k: int) -> bool {
        decodable(&self.frames@[k], &self.meta@[k].quadrupole_settings)
    }

    /// Opens a reader over validated file data with the native windowing
    /// policy. Inconsistent metadata is rejected with `CannotOpen` and no
    /// reader is produced.
    pub fn open(data: FileData) -> (r: Result<Reader, TimsError>)
        ensures
            r is Ok <==> openable(&data),
            r matches Err(e) ==> e == TimsError::CannotOpen,
            r matches Ok(rd) ==> rd.wf() && rd.frames@ == data.frames@ && rd.meta@
                == data.frame_meta@ && rd.rt_converter == data.rt_calibration && rd.im_converter
                == data.im_calibration && rd.mz_converter == data.mz_calibration && rd.policy
                == SplitPolicy::Native,
    {
        Reader::open_with_policy(data, SplitPolicy::native())
    }

    /// Opens a reader with the uniform-mobility windowing policy given by
    /// `mobility_span` and `mobility_step` (micro-1/K0). Non-positive or
    /// oversized parameters are rejected at construction time with
    /// `InvalidConfiguration`.
    pub fn open_with_span_step(data: FileData, mobility_span: i64, mobility_step: i64) -> (r:
        Result<Reader, TimsError>)
        ensures
            r matches Ok(rd) ==> rd.wf() && rd.frames@ == data.frames@ && rd.meta@
                == data.frame_meta@ && rd.rt_converter == data.rt_calibration && rd.im_converter
                == data.im_calibration && rd.mz_converter == data.mz_calibration && rd.policy
                == (SplitPolicy::UniformMobility { span: mobility_span, step: mobility_step }),
            r is Ok <==> ((SplitPolicy::UniformMobility {
                span: mobility_span,
                step: mobility_step,
            }).wf() && policy_feasible(
                &(SplitPolicy::UniformMobility { span: mobility_span, step: mobility_step }),
            ) && openable(&data)),
            r matches Err(e) ==> (e == TimsError::InvalidConfiguration || e
                == TimsError::CannotOpen),
            r matches Err(e) ==> (e == TimsError::CannotOpen ==> openable(&data) == false),
    {
        match SplitPolicy::uniform(mobility_span, mobility_step) {
            Ok(policy) => Reader::open_with_policy(data, policy),
            Err(e) => Err(e),
        }
    }

    /// Opens a reader over validated file data with the given policy.
    #[verifier::loop_isolation(false)]
    pub fn open_with_policy(data: FileData, policy: SplitPolicy) -> (r: Result<
        Reader,
        TimsError,
    >)
        requires
            policy.wf(),
        ensures
            r is Ok <==> (openable(&data) && policy_feasible(&policy)),
            !policy_feasible(&policy) ==> r == Err::<Reader, TimsError>(
                TimsError::InvalidConfiguration,
            ),
            policy_feasible(&policy) && !openable(&data) ==> r == Err::<Reader, TimsError>(
                TimsError::CannotOpen,
            ),
            r matches Ok(rd) ==> rd.wf() && rd.frames@ == data.frames@ && rd.meta@
                == data.frame_meta@ && rd.rt_converter == data.rt_calibration && rd.im_converter
                == data.im_calibration && rd.mz_converter == data.mz_calibration && rd.policy
                == policy,
    {
        let feasible: bool;
        match &policy {
            SplitPolicy::Native => {
                feasible = true;
            },
            SplitPolicy::UniformMobility { span, step } => {
                let nb: u64 = ((*span as u64) + (*step as u64) - 1) / (*step as u64);
                proof {
                    assert(nb == bin_count(*span as int, *step as int));
                }
                feasible = nb <= usize::MAX as u64;
            },
        }
        proof {
            assert(feasible == policy_feasible(&policy));
        }
        if !feasible {
            return Err(TimsError::InvalidConfiguration);
        }
        if !data.rt_calibration.is_well_formed() || !data.im_calibration.is_well_formed()
            || !data.mz_calibration.is_well_formed() {
            return Err(TimsError::CannotOpen);
        }
        if data.frame_meta.len() != data.frames.len() {
            return Err(TimsError::CannotOpen);
        }
        let n: usize = data.frames.len();
        let mut k: usize = 0;
        while k < n
            invariant
                0 <= k <= n,
                n == data.frames@.len(),
                n == data.frame_meta@.len(),
                forall|j: int| 0 <= j < k ==> (#[trigger] data.frames@[j]).index == j,
                forall|j: int|
                    0 <= j < k ==> (#[trigger] data.frame_meta@[j]).quadrupole_settings.wf(),
                forall|j: int| 0 <= j < k ==> #[trigger] data.rt_calibration.in_domain(j),
            decreases n - k,
        {
            if data.frames[k].index != k {
                return Err(TimsError::CannotOpen);
            }
            if !data.frame_meta[k].quadrupole_settings.is_well_formed() {
                return Err(TimsError::CannotOpen);
            }
            if !data.rt_calibration.accepts_index(k) {
                return Err(TimsError::CannotOpen);
            }
            k = k + 1;
        }
        Ok(
            Reader {
                rt_converter: data.rt_calibration,
                im_converter: data.im_calibration,
                mz_converter: data.mz_calibration,
                frames: data.frames,
                meta: data.frame_meta,
                policy,
            },
        )
    }

    /// The number of frames of the open file.
    pub fn len(&self) -> (r: usize)
        ensures
            r == self.frames@.len(),
    {
        self.frames.len()
    }

    /// Random-access read of one frame: an index at or past the frame
    /// count yields `IndexOutOfRange`; a frame whose arrays violate their
    /// invariants yields `CorruptFrame`.
    #[verifier::rlimit(50)]
    pub fn read_frame(&self, index: usize) -> (r: Result<Frame, TimsError>)
        requires
            self.wf(),
        ensures
            index >= self.frames@.len() ==> r == Err::<Frame, TimsError>(
                TimsError::IndexOutOfRange,
            ),
            index < self.frames@.len() ==> (r is Ok <==> self.record_decodable(index as int)),
            index < self.frames@.len() ==> (r matches Ok(f) ==> frames_equiv(
                &f,
                &self.record_frame(index as int),
            ) && f.wf() && f.index == index),
            index < self.frames@.len() ==> (r matches Err(e) ==> e == TimsError::CorruptFrame),
    {
        if index >= self.frames.len() {
            return Err(TimsError::IndexOutOfRange);
        }
        let raw: RawFrame = copy_raw(&self.frames[index]);
        let quad: QuadrupoleSettings = copy_quad(&self.meta[index].quadrupole_settings);
        decode(
            raw,
            self.meta[index].acquisition_type,
            self.meta[index].ms_level,
            quad,
            self.meta[index].intensity_correction_factor,
            &self.rt_converter,
        )
    }

    /// Bulk read of every frame, in frame-index order; fail-fast: the
    /// first corrupt frame aborts the read with its error.
    #[verifier::loop_isolation(false)]
    pub fn read_all_frames(&self) -> (r: Result<Vec<Frame>, TimsError>)
        requires
            self.wf(),
        ensures
            r is Ok <==> (forall|k: int|
                0 <= k < self.frames@.len() ==> self.record_decodable(k)),
            r matches Ok(v) ==> v@.len() == self.frames@.len() && (forall|k: int|
                0 <= k < v@.len() ==> frames_equiv(&v@[k], &self.record_frame(k))) && (forall|
                k: int,
            |
                0 <= k < v@.len() ==> (#[trigger] v@[k]).index == k),
            r matches Err(e) ==> e == TimsError::CorruptFrame,
    {
        let n: usize = self.frames.len();
        let mut out: Vec<Frame> = Vec::new();
        let mut k: usize = 0;
        while k < n
            invariant
                0 <= k <= n,
                out@.len() == k,
                forall|j: int| 0 <= j < k ==> #[trigger] self.record_decodable(j),
                forall|j: int| 0 <= j < k ==> frames_equiv(&#[trigger] out@[j],
                    &self.record_frame(j)),
                forall|j: int| 0 <= j < k ==> (#[trigger] out@[j]).index == j,
            decreases n - k,
        {
            match self.read_frame(k) {
                Ok(f) => {
                    out.push(f);
                },
                Err(_) => {
                    return Err(TimsError::CorruptFrame);
                },
            }
            k = k + 1;
        }
        Ok(out)
    }

    /// Bulk read of the MS1 frames only, in frame-index order; frames of
    /// any other level are not decoded at all. Fail-fast on the first
    /// corrupt selected frame.
    #[verifier::loop_isolation(false)]
    #[verifier::rlimit(80)]
    pub fn read_all_ms1_frames(&self) -> (r: Result<Vec<Frame>, TimsError>)
        requires
            self.wf(),
        ensures
            r is Ok <==> (forall|k: int|
                0 <= k < self.frames@.len() && (#[trigger] self.meta@[k]).ms_level is MS1
                    ==> self.record_decodable(k)),
            r matches Ok(v) ==> {
                let sel = ms1_selected(self.meta@, self.frames@.len() as int);
                v@.len() == sel.len() && forall|j: int|
                    0 <= j < sel.len() ==> frames_equiv(&#[trigger] v@[j],
                        &self.record_frame(sel[j]))
            },
            r matches Err(e) ==> e == TimsError::CorruptFrame,
    {
        let n: usize = self.frames.len();
        let mut out: Vec<Frame> = Vec::new();
        let mut k: usize = 0;
        while k < n
            invariant
                0 <= k <= n,
                out@.len() == ms1_selected(self.meta@, k as int).len(),
                forall|j: int|
                    0 <= j < k && (#[trigger] self.meta@[j]).ms_level is MS1
                        ==> self.record_decodable(j),
                forall|j: int|
                    0 <= j < out@.len() ==> frames_equiv(&#[trigger] out@[j],
                        &self.record_frame(ms1_selected(self.meta@, k as int)[j])),
            decreases n - k,
        {
            proof {
                lemma_ms1_selected_range(self.meta@, k as int + 1);
            }
            if self.meta[k].ms_level == MSLevel::MS1 {
                match self.read_frame(k) {
                    Ok(f) => {
                        out.push(f);
                    },
                    Err(_) => {
                        return Err(TimsError::CorruptFrame);
                    },
                }
            }
            k = k + 1;
        }
        Ok(out)
    }

    /// Bulk read of the DIA MS2 frames only, in frame-index order; other
    /// frames are not decoded at all. Fail-fast on the first corrupt
    /// selected frame.
    #[verifier::loop_isolation(false)]
    #[verifier::rlimit(80)]
    pub fn read_all_dia_frames(&self) -> (r: Result<Vec<Frame>, TimsError>)
        requires
            self.wf(),
        ensures
            r is Ok <==> (forall|k: int|
                0 <= k < self.frames@.len() && (#[trigger] self.meta@[k]).acquisition_type
                    is DIAPASEF && self.meta@[k].ms_level is MS2 ==> self.record_decodable(k)),
            r matches Ok(v) ==> {
                let sel = dia_selected(self.meta@, self.frames@.len() as int);
                v@.len() == sel.len() && forall|j: int|
                    0 <= j < sel.len() ==> frames_equiv(&#[trigger] v@[j],
                        &self.record_frame(sel[j]))
            },
            r matches Err(e) ==> e == TimsError::CorruptFrame,
    {
        let n: usize = self.frames.len();
        let mut out: Vec<Frame> = Vec::new();
        let mut k: usize = 0;
        while k < n
            invariant
                0 <= k <= n,
                out@.len() == dia_selected(self.meta@, k as int).len(),
                forall|j: int|
                    0 <= j < k && (#[trigger] self.meta@[j]).acquisition_type is DIAPASEF
                        && self.meta@[j].ms_level is MS2 ==> self.record_decodable(j),
                forall|j: int|
                    0 <= j < out@.len() ==> frames_equiv(&#[trigger] out@[j],
                        &self.record_frame(dia_selected(self.meta@, k as int)[j])),
            decreases n - k,
        {
            proof {
                lemma_dia_selected_range(self.meta@, k as int + 1);
            }
            if self.meta[k].acquisition_type == AcquisitionType::DIAPASEF && self.meta[k].ms_level
                == MSLevel::MS2 {
                match self.read_frame(k) {
                    Ok(f) => {
                        out.push(f);
                    },
                    Err(_) => {
                        return Err(TimsError::CorruptFrame);
                    },
                }
            }
            k = k + 1;
        }
        Ok(out)
    }

    /// Whether the calibrations can resolve frame record `k`: every TOF
    /// index lies in the m/z domain and the mobility calibration covers
    /// the frame's scan axis.
    pub open spec fn record_convertible(&self, k: int) -> bool {
        &&& forall|i: int|
            0 <= i < self.frames@[k].tof_indices@.len() ==> self.mz_converter.in_domain(
                #[trigger] self.frames@[k].tof_indices@[i] as int,
            )
        &&& self.im_converter.in_domain(self.frames@[k].num_scans())
    }

    /// The single whole-frame group an MS1 frame is built from.
    pub open spec fn whole_frame_group(&self, k: int) -> ScanWindowGroup {
        ScanWindowGroup {
            scan_start: 0,
            scan_end: (self.frames@[k].scan_offsets@.len() - 1) as usize,
            window: None,
        }
    }

    /// The scan-range groups frame record `k` splits into under the
    /// reader's policy.
    pub open spec fn record_groups(&self, k: int) -> Seq<ScanWindowGroup> {
        split_groups_spec(&self.record_frame(k), &self.policy, &self.im_converter)
    }

    /// The groups that contribute spectra for frame `k`: one whole-frame
    /// group without a window for an MS1 frame, the policy's split
    /// otherwise.
    pub open spec fn spectrum_groups(&self, k: int) -> Seq<ScanWindowGroup> {
        if self.meta@[k].ms_level is MS1 {
            seq![self.whole_frame_group(k)]
        } else {
            self.record_groups(k)
        }
    }

    /// Whether the calibrations resolve the given (decoded) frame.
    #[verifier::loop_isolation(false)]
    fn check_convertible(&self, index: usize, f: &Frame) -> (b: bool)
        requires
            self.wf(),
            index < self.frames@.len(),
            frames_equiv(f, &self.record_frame(index as int)),
            f.scan_offsets@.len() >= 1,
        ensures
            b == self.record_convertible(index as int),
    {
        if !self.im_converter.accepts_index(f.scan_offsets.len() - 1) {
            return false;
        }
        let mut i: usize = 0;
        while i < f.tof_indices.len()
            invariant
                0 <= i <= f.tof_indices@.len(),
                forall|j: int|
                    0 <= j < i ==> self.mz_converter.in_domain(
                        #[trigger] f.tof_indices@[j] as int,
                    ),
            decreases f.tof_indices@.len() - i,
        {
            if !self.mz_converter.accepts_index(f.tof_indices[i] as usize) {
                return false;
            }
            i = i + 1;
        }
        true
    }

    /// Every group of a decodable record is a well-ordered range on the
    /// frame's scan axis.
    proof fn lemma_record_group_buildable(&self, k: int, g: int)
        requires
            self.wf(),
            0 <= k < self.frames@.len(),
            self.record_decodable(k),
            0 <= g < self.record_groups(k).len(),
        ensures
            self.record_groups(k)[g].scan_start <= self.record_groups(k)[g].scan_end,
            self.record_groups(k)[g].scan_end <= self.frames@[k].num_scans(),
    {
        let rf = self.record_frame(k);
        let q = &self.meta@[k].quadrupole_settings;
        match self.policy {
            SplitPolicy::Native => {
                if q.group_count() > 1 && g < q.group_count() - 1 {
                }
            },
            SplitPolicy::UniformMobility { span, step } => {
                lemma_queried_range(q);
                lemma_uniform_groups_ordered(q, &self.im_converter, span as int, step as int,
                    g);
            },
        }
    }

    /// Random-access read of one spectrum: the frame is decoded, split
    /// under the reader's policy (an MS1 frame is one whole-frame group
    /// with no precursor), and the first group is built. A frame whose
    /// arrays are invalid or whose channels the calibrations cannot
    /// resolve yields `CorruptFrame`; a multiplexed frame without any
    /// group yields `CorruptSpectrum`.
    #[verifier::rlimit(80)]
    pub fn read_spectrum(&self, index: usize) -> (r: Result<Spectrum, TimsError>)
        requires
            self.wf(),
        ensures
            index >= self.frames@.len() ==> r == Err::<Spectrum, TimsError>(
                TimsError::IndexOutOfRange,
            ),
            index < self.frames@.len() ==> {
                let k = index as int;
                &&& (r is Ok <==> (self.record_decodable(k) && self.record_convertible(k)
                    && self.spectrum_groups(k).len() > 0))
                &&& (!self.record_decodable(k) || !self.record_convertible(k) ==> r == Err::<
                    Spectrum,
                    TimsError,
                >(TimsError::CorruptFrame))
                &&& (self.record_decodable(k) && self.record_convertible(k)
                    && self.spectrum_groups(k).len() == 0 ==> r == Err::<Spectrum, TimsError>(
                    TimsError::CorruptSpectrum,
                ))
                &&& (r matches Ok(sp) ==> spectrum_matches(&self.record_frame(k),
                    &self.spectrum_groups(k)[0], &self.im_converter, &self.mz_converter, k,
                    &sp))
            },
    {
        self.read_spectrum_group(index, 0)
    }

    /// Random-access read of one spectrum with an explicit group
    /// selector: the frame is decoded, split under the reader's policy,
    /// and the chosen group is built. A frame whose arrays are invalid
    /// or whose channels the calibrations cannot resolve yields
    /// `CorruptFrame`; a group selector at or past the frame's group
    /// count yields `CorruptSpectrum`.
    #[verifier::rlimit(80)]
    pub fn read_spectrum_group(&self, index: usize, group: usize) -> (r: Result<
        Spectrum,
        TimsError,
    >)
        requires
            self.wf(),
        ensures
            index >= self.frames@.len() ==> r == Err::<Spectrum, TimsError>(
                TimsError::IndexOutOfRange,
            ),
            index < self.frames@.len() ==> {
                let k = index as int;
                &&& (r is Ok <==> (self.record_decodable(k) && self.record_convertible(k)
                    && group < self.spectrum_groups(k).len()))
                &&& (!self.record_decodable(k) || !self.record_convertible(k) ==> r == Err::<
                    Spectrum,
                    TimsError,
                >(TimsError::CorruptFrame))
                &&& (self.record_decodable(k) && self.record_convertible(k) && group
                    >= self.spectrum_groups(k).len() ==> r == Err::<Spectrum, TimsError>(
                    TimsError::CorruptSpectrum,
                ))
                &&& (r matches Ok(sp) ==> spectrum_matches(&self.record_frame(k),
                    &self.spectrum_groups(k)[group as int], &self.im_converter,
                    &self.mz_converter, k, &sp))
            },
    {
        if index >= self.frames.len() {
            return Err(TimsError::IndexOutOfRange);
        }
        let f: Frame = match self.read_frame(index) {
            Ok(f) => f,
            Err(_) => {
                return Err(TimsError::CorruptFrame);
            },
        };
        if !self.check_convertible(index, &f) {
            return Err(TimsError::CorruptFrame);
        }
        if self.meta[index].ms_level == MSLevel::MS1 {
            if group != 0 {
                return Err(TimsError::CorruptSpectrum);
            }
            let ns: usize = f.scan_offsets.len() - 1;
            let g = ScanWindowGroup { scan_start: 0, scan_end: ns, window: None };
            let r = build(&f, &g, &self.im_converter, &self.mz_converter, index);
            proof {
                assert(g == self.whole_frame_group(index as int));
            }
            r
        } else {
            let groups: Vec<ScanWindowGroup> = split(&f, &self.policy, &self.im_converter);
            proof {
                lemma_split_groups_congruent(&f, &self.record_frame(index as int),
                    &self.policy, &self.im_converter);
                assert(groups@ == self.record_groups(index as int));
            }
            if group >= groups.len() {
                return Err(TimsError::CorruptSpectrum);
            }
            proof {
                self.lemma_record_group_buildable(index as int, group as int);
            }
            build(&f, &groups[group], &self.im_converter, &self.mz_converter, index)
        }
    }

    /// The number of spectra the first `n` frames contribute.
    pub open spec fn spectra_count_upto(&self, n: int) -> int
        decreases n,
    {
        if n <= 0 {
            0
        } else {
            self.spectra_count_upto(n - 1) + self.spectrum_groups(n - 1).len()
        }
    }

    /// Every position below the total spectrum count falls inside some
    /// frame's run of spectra.
    proof fn lemma_position_in_some_frame(&self, j: int, n: int)
        requires
            0 <= j < self.spectra_count_upto(n),
            n >= 0,
        ensures
            exists|k: int|
                0 <= k < n && #[trigger] self.spectra_count_upto(k) <= j
                    < self.spectra_count_upto(k) + self.spectrum_groups(k).len(),
        decreases n,
    {
        if n > 0 {
            if j < self.spectra_count_upto(n - 1) {
                self.lemma_position_in_some_frame(j, n - 1);
            } else {
                assert(self.spectra_count_upto(n - 1) <= j < self.spectra_count_upto(n - 1)
                    + self.spectrum_groups(n - 1).len());
            }
        }
    }

    /// Spectrum counts are non-negative.
    proof fn lemma_count_nonneg(&self, n: int)
        ensures
            self.spectra_count_upto(n) >= 0,
        decreases n,
    {
        if n > 0 {
            self.lemma_count_nonneg(n - 1);
        }
    }

    /// Later frames start their spectra at or after the end of an
    /// earlier frame's run.
    proof fn lemma_count_monotone(&self, k1: int, k2: int)
        requires
            0 <= k1 < k2,
        ensures
            self.spectra_count_upto(k1) + self.spectrum_groups(k1).len()
                <= self.spectra_count_upto(k2),
        decreases k2,
    {
        if k1 + 1 < k2 {
            self.lemma_count_monotone(k1, k2 - 1);
        }
    }

    /// Builds and appends every spectrum of frame `k` to `out`.
    #[verifier::loop_isolation(false)]
    #[verifier::rlimit(100)]
    fn append_frame_spectra(&self, k: usize, f: &Frame, out: &mut Vec<Spectrum>) -> (r: bool)
        requires
            self.wf(),
            k < self.frames@.len(),
            frames_equiv(f, &self.record_frame(k as int)),
            f.wf(),
            self.record_decodable(k as int),
            self.record_convertible(k as int),
        ensures
            r == true,
            final(out)@.len() == old(out)@.len() + self.spectrum_groups(k as int).len(),
            forall|p: int| 0 <= p < old(out)@.len() ==> #[trigger] final(out)@[p] == old(
                out,
            )@[p],
            forall|g: int|
                0 <= g < self.spectrum_groups(k as int).len() ==> spectrum_matches(
                    &self.record_frame(k as int), &#[trigger] self.spectrum_groups(k as int)[g],
                    &self.im_converter, &self.mz_converter, old(out)@.len() + g,
                    &final(out)@[old(out)@.len() + g],
                ),
    {
        let ghost base = out@.len() as int;
        if self.meta[k].ms_level == MSLevel::MS1 {
            let ns: usize = f.scan_offsets.len() - 1;
            let g = ScanWindowGroup { scan_start: 0, scan_end: ns, window: None };
            proof {
                assert(g == self.whole_frame_group(k as int));
            }
            match build(&f, &g, &self.im_converter, &self.mz_converter, out.len()) {
                Ok(sp) => {
                    out.push(sp);
                },
                Err(_) => {
                    proof {
                        assert(false);
                    }
                },
            }
            true
        } else {
            let groups: Vec<ScanWindowGroup> = split(&f, &self.policy, &self.im_converter);
            proof {
                lemma_split_groups_congruent(&f, &self.record_frame(k as int), &self.policy,
                    &self.im_converter);
                assert(groups@ == self.record_groups(k as int));
            }
            let gc: usize = groups.len();
            let mut g: usize = 0;
            while g < gc
                invariant
                    0 <= g <= gc,
                    out@.len() == base + g,
                    forall|p: int| 0 <= p < base ==> #[trigger] out@[p] == old(out)@[p],
                    forall|g2: int|
                        0 <= g2 < g ==> spectrum_matches(&self.record_frame(k as int),
                            &#[trigger] self.spectrum_groups(k as int)[g2],
                            &self.im_converter, &self.mz_converter, base + g2,
                            &out@[base + g2]),
                decreases gc - g,
            {
                proof {
                    self.lemma_record_group_buildable(k as int, g as int);
                }
                match build(&f, &groups[g], &self.im_converter, &self.mz_converter,
                    out.len()) {
                    Ok(sp) => {
                        out.push(sp);
                    },
                    Err(_) => {
                        proof {
                            assert(false);
                        }
                    },
                }
                g = g + 1;
            }
            true
        }
    }

    /// Bulk read of every spectrum: every frame is split under the
    /// reader's policy (an MS1 frame is one whole-frame group) and each
    /// group is built, flattened in frame order then group order, with
    /// spectra indexed by their position in the result. Fail-fast: the
    /// first frame that is corrupt or that the calibrations cannot
    /// resolve aborts the read with `CorruptFrame`.
    #[verifier::loop_isolation(false)]
    #[verifier::rlimit(100)]
    pub fn read_all_spectra(&self) -> (r: Result<Vec<Spectrum>, TimsError>)
        requires
            self.wf(),
        ensures
            r is Ok <==> (forall|k: int|
                0 <= k < self.frames@.len() ==> #[trigger] self.record_decodable(k)
                    && self.record_convertible(k)),
            r matches Err(e) ==> e == TimsError::CorruptFrame,
            r matches Ok(v) ==> {
                &&& v@.len() == self.spectra_count_upto(self.frames@.len() as int)
                &&& (forall|k: int, g: int|
                    0 <= k < self.frames@.len() && 0 <= g < self.spectrum_groups(k).len()
                        ==> spectrum_matches(&self.record_frame(k),
                        &#[trigger] self.spectrum_groups(k)[g], &self.im_converter,
                        &self.mz_converter, self.spectra_count_upto(k) + g,
                        &v@[self.spectra_count_upto(k) + g]))
                &&& (forall|j: int| 0 <= j < v@.len() ==> (#[trigger] v@[j]).index == j)
            },
    {
        let n: usize = self.frames.len();
        let mut out: Vec<Spectrum> = Vec::new();
        let mut k: usize = 0;
        while k < n
            invariant
                0 <= k <= n,
                out@.len() == self.spectra_count_upto(k as int),
                forall|j: int| 0 <= j < k ==> #[trigger] self.record_decodable(j),
                forall|j: int| 0 <= j < k ==> #[trigger] self.record_convertible(j),
                forall|k2: int, g2: int|
                    0 <= k2 < k && 0 <= g2 < self.spectrum_groups(k2).len()
                        ==> spectrum_matches(&self.record_frame(k2),
                        &#[trigger] self.spectrum_groups(k2)[g2], &self.im_converter,
                        &self.mz_converter, self.spectra_count_upto(k2) + g2,
                        &out@[self.spectra_count_upto(k2) + g2]),
            decreases n - k,
        {
            let f: Frame = match self.read_frame(k) {
                Ok(f) => f,
                Err(_) => {
                    return Err(TimsError::CorruptFrame);
                },
            };
            if !self.check_convertible(k, &f) {
                return Err(TimsError::CorruptFrame);
            }
            let ghost out_before = out@;
            self.append_frame_spectra(k, &f, &mut out);
            proof {
                assert forall|k2: int, g2: int|
                    0 <= k2 < k + 1 && 0 <= g2 < self.spectrum_groups(k2).len()
                    implies spectrum_matches(&self.record_frame(k2),
                    &#[trigger] self.spectrum_groups(k2)[g2], &self.im_converter,
                    &self.mz_converter, self.spectra_count_upto(k2) + g2,
                    &out@[self.spectra_count_upto(k2) + g2]) by {
                    if k2 < k {
                        self.lemma_count_nonneg(k2);
                        self.lemma_count_monotone(k2, k as int);
                        assert(out@[self.spectra_count_upto(k2) + g2] == out_before[
                            self.spectra_count_upto(k2) + g2]);
                    } else {
                        self.lemma_count_nonneg(k2);
                    }
                }
            }
            k = k + 1;
        }
        proof {
            assert forall|j: int| 0 <= j < out@.len() implies (#[trigger] out@[j]).index
                == j by {
                self.lemma_position_in_some_frame(j, n as int);
                let k0 = choose|k0: int|
                    0 <= k0 < n && #[trigger] self.spectra_count_upto(k0) <= j
                        < self.spectra_count_upto(k0) + self.spectrum_groups(k0).len();
                let g0 = j - self.spectra_count_upto(k0);
                assert(spectrum_matches(&self.record_frame(k0), &self.spectrum_groups(k0)[g0],
                    &self.im_converter, &self.mz_converter, j, &out@[j]));
            }
        }
        Ok(out)
    }

    /// Calibrates TOF indices to m/z values (micro-m/z).
    #[verifier::loop_isolation(false)]
    pub fn resolve_mzs(&self, tofs: &Vec<u32>) -> (r: Vec<i64>)
        requires
            self.wf(),
            forall|i: int|
                0 <= i < tofs@.len() ==> self.mz_converter.in_domain(
                    #[trigger] tofs@[i] as int,
                ),
        ensures
            r@.len() == tofs@.len(),
            forall|i: int|
                0 <= i < r@.len() ==> #[trigger] r@[i] == self.mz_converter.convert_spec(
                    tofs@[i] as int,
                ),
    {
        convert_all(&self.mz_converter, tofs)
    }

    /// Maps m/z values (micro-m/z) back to the nearest TOF indices.
    pub fn invert_mzs(&self, mzs: &Vec<i64>) -> (r: Vec<u32>)
        requires
            self.wf(),
            forall|i: int| 0 <= i < mzs@.len() ==> -QUERY_MAX <= #[trigger] mzs@[i] <= QUERY_MAX,
        ensures
            r@.len() == mzs@.len(),
            forall|i: int|
                0 <= i < r@.len() ==> #[trigger] r@[i] == self.mz_converter.invert_spec(
                    mzs@[i] as int,
                ),
    {
        invert_all(&self.mz_converter, mzs)
    }

    /// Calibrates scan indices to ion mobilities (micro-1/K0).
    pub fn resolve_scans(&self, scans: &Vec<u32>) -> (r: Vec<i64>)
        requires
            self.wf(),
            forall|i: int|
                0 <= i < scans@.len() ==> self.im_converter.in_domain(
                    #[trigger] scans@[i] as int,
                ),
        ensures
            r@.len() == scans@.len(),
            forall|i: int|
                0 <= i < r@.len() ==> #[trigger] r@[i] == self.im_converter.convert_spec(
                    scans@[i] as int,
                ),
    {
        convert_all(&self.im_converter, scans)
    }

    /// Maps ion mobilities (micro-1/K0) back to the nearest scan indices.
    pub fn invert_scans(&self, ims: &Vec<i64>) -> (r: Vec<u32>)
        requires
            self.wf(),
            forall|i: int| 0 <= i < ims@.len() ==> -QUERY_MAX <= #[trigger] ims@[i] <= QUERY_MAX,
        ensures
            r@.len() == ims@.len(),
            forall|i: int|
                0 <= i < r@.len() ==> #[trigger] r@[i] == self.im_converter.invert_spec(
                    ims@[i] as int,
                ),
    {
        invert_all(&self.im_converter, ims)
    }

    /// Calibrates frame indices to retention times (micro-seconds).
    pub fn resolve_frames(&self, frames: &Vec<u32>) -> (r: Vec<i64>)
        requires
            self.wf(),
            forall|i: int|
                0 <= i < frames@.len() ==> self.rt_converter.in_domain(
                    #[trigger] frames@[i] as int,
                ),
        ensures
            r@.len() == frames@.len(),
            forall|i: int|
                0 <= i < r@.len() ==> #[trigger] r@[i] == self.rt_converter.convert_spec(
                    frames@[i] as int,
                ),
    {
        convert_all(&self.rt_converter, frames)
    }

    /// Maps retention times (micro-seconds) back to the nearest frame
    /// indices.
    pub fn invert_frames(&self, rts: &Vec<i64>) -> (r: Vec<u32>)
        requires
            self.wf(),
            forall|i: int| 0 <= i < rts@.len() ==> -QUERY_MAX <= #[trigger] rts@[i] <= QUERY_MAX,
        ensures
            r@.len() == rts@.len(),
            forall|i: int|
                0 <= i < r@.len() ==> #[trigger] r@[i] == self.rt_converter.invert_spec(
                    rts@[i] as int,
                ),
    {
        invert_all(&self.rt_converter, rts)
    }
}

/// The frame indices below `n` whose metadata is MS1, in order.
pub open spec fn ms1_selected(metas: Seq<FrameMeta>, n: int) -> Seq<int>
    decreases n,
{
    if n <= 0 {
        Seq::empty()
    } else if metas[n - 1].ms_level is MS1 {
        ms1_selected(metas, n - 1).push(n - 1)
    } else {
        ms1_selected(metas, n - 1)
    }
}

/// The frame indices below `n` whose metadata is DIA MS2, in order.
pub open spec fn dia_selected(metas: Seq<FrameMeta>, n: int) -> Seq<int>
    decreases n,
{
    if n <= 0 {
        Seq::empty()
    } else if metas[n - 1].acquisition_type is DIAPASEF && metas[n - 1].ms_level is MS2 {
        dia_selected(metas, n - 1).push(n - 1)
    } else {
        dia_selected(metas, n - 1)
    }
}

/// Selected MS1 indices lie below the bound.
proof fn lemma_ms1_selected_range(metas: Seq<FrameMeta>, n: int)
    ensures
        forall|j: int|
            0 <= j < ms1_selected(metas, n).len() ==> 0 <= #[trigger] ms1_selected(metas, n)[j]
                < n,
    decreases n,
{
    if n > 0 {
        lemma_ms1_selected_range(metas, n - 1);
        let prev = ms1_selected(metas, n - 1);
        let cur = ms1_selected(metas, n);
        assert forall|j: int| 0 <= j < cur.len() implies 0 <= #[trigger] cur[j] < n by {
            if j < prev.len() {
                assert(cur[j] == prev[j]);
            } else {
                assert(cur[j] == n - 1);
            }
        }
    }
}

/// Selected DIA MS2 indices lie below the bound.
proof fn lemma_dia_selected_range(metas: Seq<FrameMeta>, n: int)
    ensures
        forall|j: int|
            0 <= j < dia_selected(metas, n).len() ==> 0 <= #[trigger] dia_selected(metas, n)[j]
                < n,
    decreases n,
{
    if n > 0 {
        lemma_dia_selected_range(metas, n - 1);
        let prev = dia_selected(metas, n - 1);
        let cur = dia_selected(metas, n);
        assert forall|j: int| 0 <= j < cur.len() implies 0 <= #[trigger] cur[j] < n by {
            if j < prev.len() {
                assert(cur[j] == prev[j]);
            } else {
                assert(cur[j] == n - 1);
            }
        }
    }
}

/// Calibrates each index of `xs` through `c`.
#[verifier::loop_isolation(false)]
fn convert_all(c: &DomainConverter, xs: &Vec<u32>) -> (r: Vec<i64>)
    requires
        c.wf(),
        forall|i: int| 0 <= i < xs@.len() ==> c.in_domain(#[trigger] xs@[i] as int),
    ensures
        r@.len() == xs@.len(),
        forall|i: int|
            0 <= i < r@.len() ==> #[trigger] r@[i] == c.convert_spec(xs@[i] as int),
{
    let mut out: Vec<i64> = Vec::new();
    let mut i: usize = 0;
    while i < xs.len()
        invariant
            0 <= i <= xs@.len(),
            out@.len() == i,
            forall|j: int|
                0 <= j < i ==> #[trigger] out@[j] == c.convert_spec(xs@[j] as int),
        decreases xs@.len() - i,
    {
        out.push(c.convert(xs[i] as usize));
        i = i + 1;
    }
    out
}

/// Maps each physical value of `xs` back through `c`.
#[verifier::loop_isolation(false)]
fn invert_all(c: &DomainConverter, xs: &Vec<i64>) -> (r: Vec<u32>)
    requires
        c.wf(),
        forall|i: int| 0 <= i < xs@.len() ==> -QUERY_MAX <= #[trigger] xs@[i] <= QUERY_MAX,
    ensures
        r@.len() == xs@.len(),
        forall|i: int|
            0 <= i < r@.len() ==> #[trigger] r@[i] == c.invert_spec(xs@[i] as int),
{
    let mut out: Vec<u32> = Vec::new();
    let mut i: usize = 0;
    while i < xs.len()
        invariant
            0 <= i <= xs@.len(),
            out@.len() == i,
            forall|j: int|
                0 <= j < i ==> #[trigger] out@[j] == c.invert_spec(xs@[j] as int),
        decreases xs@.len() - i,
    {
        let v: usize = c.invert(xs[i]);
        out.push(v as u32);
        i = i + 1;
    }
    out
}

} // verus!

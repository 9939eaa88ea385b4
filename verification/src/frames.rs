//! Raw frames, per-frame metadata, and the frame decoder.
//!
//! A raw frame is one acquisition cycle's sparse scan-by-TOF peak data,
//! flattened with per-scan offsets. Decoding validates the array
//! invariants, applies the retention-time converter to the frame index,
//! and attaches the per-frame metadata; a violated invariant is surfaced
//! as [`crate::TimsError::CorruptFrame`], never repaired or skipped.

use crate::converters::DomainConverter;
use crate::TimsError;
use vstd::prelude::*;

verus! {

/// How precursor windows were multiplexed within the acquisition.
#[derive(Clone, Copy, Debug, PartialEq, Eq, Structural)]
pub enum AcquisitionType {
    DDAPASEF,
    DIAPASEF,
    DiagonalDIAPASEF,
    Unknown,
}

impl AcquisitionType {
    /// A short human-readable label.
    pub fn label(&self) -> &'static str {
        match self {
            AcquisitionType::DDAPASEF => "DDAPASEF",
            AcquisitionType::DIAPASEF => "DIAPASEF",
            AcquisitionType::DiagonalDIAPASEF => "DiagonalDIAPASEF",
            AcquisitionType::Unknown => "Unknown",
        }
    }
}

/// The MS level of a frame.
#[derive(Clone, Copy, Debug, PartialEq, Eq, Structural)]
pub enum MSLevel {
    MS1,
    MS2,
    Unknown,
}

impl MSLevel {
    /// A short human-readable label.
    pub fn label(&self) -> &'static str {
        match self {
            MSLevel::MS1 => "MS1",
            MSLevel::MS2 => "MS2",
            MSLevel::Unknown => "Unknown",
        }
    }
}

/// Per-frame quadrupole isolation table: parallel arrays indexed by
/// quadrupole group. Scan ranges are half-open `[start, end)`; isolation
/// m/z and width are in micro-m/z, collision energy in micro-eV.
#[derive(Debug)]
pub struct QuadrupoleSettings {
    pub index: usize,
    pub scan_starts: Vec<usize>,
    pub scan_ends: Vec<usize>,
    pub isolation_mz: Vec<i64>,
    pub isolation_width: Vec<i64>,
    pub collision_energy: Vec<i64>,
}

impl QuadrupoleSettings {
    /// The number of quadrupole groups.
    pub open spec fn group_count(&self) -> int {
        self.scan_starts@.len() as int
    }

    /// All five arrays share one length; each range is well ordered; the
    /// ranges are sorted by start and pairwise non-overlapping.
    pub open spec fn wf(&self) -> bool {
        &&& self.scan_ends@.len() == self.scan_starts@.len()
        &&& self.isolation_mz@.len() == self.scan_starts@.len()
        &&& self.isolation_width@.len() == self.scan_starts@.len()
        &&& self.collision_energy@.len() == self.scan_starts@.len()
        &&& forall|g: int|
            0 <= g < self.group_count() ==> #[trigger] self.scan_starts@[g] <= self.scan_ends@[g]
        &&& forall|g: int|
            0 <= g < self.group_count() - 1 ==> #[trigger] self.scan_ends@[g]
                <= self.scan_starts@[g + 1]
    }

    /// Whether the parallel arrays are consistent, sorted and
    /// non-overlapping.
    #[verifier::loop_isolation(false)]
    pub fn is_well_formed(&self) -> (b: bool)
        ensures
            b == self.wf(),
    {
        let n: usize = self.scan_starts.len();
        if self.scan_ends.len() != n || self.isolation_mz.len() != n
            || self.isolation_width.len() != n || self.collision_energy.len() != n {
            return false;
        }
        let mut g: usize = 0;
        while g < n
            invariant
                0 <= g <= n,
                forall|i: int| 0 <= i < g ==> #[trigger] self.scan_starts@[i] <= self.scan_ends@[i],
                forall|i: int| 0 <= i < g && i + 1 < n ==> #[trigger] self.scan_ends@[i]
                    <= self.scan_starts@[i + 1],
            decreases n - g,
        {
            if self.scan_starts[g] > self.scan_ends[g] {
                return false;
            }
            if g + 1 < n && self.scan_ends[g] > self.scan_starts[g + 1] {
                return false;
            }
            g = g + 1;
        }
        true
    }
}

/// One frame's raw peak data: per-scan offsets into the flattened TOF
/// index and intensity arrays.
#[derive(Debug)]
pub struct RawFrame {
    pub index: usize,
    pub scan_offsets: Vec<usize>,
    pub tof_indices: Vec<u32>,
    pub intensities: Vec<u32>,
}

impl RawFrame {
    /// The number of scans: one fewer than the offset count.
    pub open spec fn num_scans(&self) -> int {
        self.scan_offsets@.len() - 1
    }

    /// The array invariants of a valid raw frame: the offsets start at
    /// zero, are non-decreasing, and end at the common length of the TOF
    /// and intensity arrays, which fits in 32 bits.
    pub open spec fn wf(&self) -> bool {
        &&& self.scan_offsets@.len() >= 1
        &&& self.scan_offsets@[0] == 0
        &&& forall|i: int|
            0 <= i < self.num_scans() ==> #[trigger] self.scan_offsets@[i]
                <= self.scan_offsets@[i + 1]
        &&& self.scan_offsets@[self.num_scans()] == self.tof_indices@.len()
        &&& self.intensities@.len() == self.tof_indices@.len()
        &&& self.tof_indices@.len() <= u32::MAX
    }

    /// Whether the array invariants hold.
    #[verifier::loop_isolation(false)]
    pub fn is_well_formed(&self) -> (b: bool)
        ensures
            b == self.wf(),
    {
        let n: usize = self.scan_offsets.len();
        if n < 1 {
            return false;
        }
        if self.scan_offsets[0] != 0 {
            return false;
        }
        if self.intensities.len() != self.tof_indices.len() {
            return false;
        }
        if self.tof_indices.len() > u32::MAX as usize {
            return false;
        }
        if self.scan_offsets[n - 1] != self.tof_indices.len() {
            return false;
        }
        let mut i: usize = 0;
        while i + 1 < n
            invariant
                0 <= i < n,
                forall|j: int| 0 <= j < i ==> #[trigger] self.scan_offsets@[j]
                    <= self.scan_offsets@[j + 1],
            decreases n - i,
        {
            if self.scan_offsets[i] > self.scan_offsets[i + 1] {
                return false;
            }
            i = i + 1;
        }
        true
    }
}

/// A decoded frame: the raw peak arrays plus calibrated retention time
/// (micro-seconds), acquisition metadata, the quadrupole table, and the
/// intensity correction factor in milli-units.
#[derive(Debug)]
pub struct Frame {
    pub index: usize,
    pub scan_offsets: Vec<usize>,
    pub tof_indices: Vec<u32>,
    pub intensities: Vec<u32>,
    pub rt: i64,
    pub acquisition_type: AcquisitionType,
    pub ms_level: MSLevel,
    pub quadrupole_settings: QuadrupoleSettings,
    pub intensity_correction_factor: u32,
}

impl Frame {
    /// The number of scans.
    pub open spec fn num_scans(&self) -> int {
        self.scan_offsets@.len() - 1
    }

    /// The raw-array invariants carried over from the raw frame, plus a
    /// well-formed quadrupole table whose ranges lie within the scan axis.
    pub open spec fn wf(&self) -> bool {
        &&& self.scan_offsets@.len() >= 1
        &&& self.scan_offsets@[0] == 0
        &&& forall|i: int|
            0 <= i < self.num_scans() ==> #[trigger] self.scan_offsets@[i]
                <= self.scan_offsets@[i + 1]
        &&& self.scan_offsets@[self.num_scans()] == self.tof_indices@.len()
        &&& self.intensities@.len() == self.tof_indices@.len()
        &&& self.tof_indices@.len() <= u32::MAX
        &&& self.quadrupole_settings.wf()
        &&& forall|g: int|
            0 <= g < self.quadrupole_settings.group_count()
                ==> #[trigger] self.quadrupole_settings.scan_ends@[g] <= self.num_scans()
    }

    /// The per-peak intensities scaled by the frame's correction factor;
    /// results are in milli-counts.
    #[verifier::loop_isolation(false)]
    pub fn corrected_intensities(&self) -> (r: Vec<u64>)
        ensures
            r@.len() == self.intensities@.len(),
            forall|i: int|
                0 <= i < r@.len() ==> #[trigger] r@[i] == self.intensities@[i]
                    * self.intensity_correction_factor,
    {
        let mut out: Vec<u64> = Vec::new();
        let mut i: usize = 0;
        while i < self.intensities.len()
            invariant
                0 <= i <= self.intensities@.len(),
                out@.len() == i,
                forall|j: int|
                    0 <= j < i ==> #[trigger] out@[j] == self.intensities@[j]
                        * self.intensity_correction_factor,
            decreases self.intensities@.len() - i,
        {
            proof {
                assert(self.intensities@[i as int] * self.intensity_correction_factor
                    <= 0xFFFF_FFFFu64 * 0xFFFF_FFFFu64) by (nonlinear_arith)
                    requires
                        0 <= self.intensities@[i as int] <= 0xFFFF_FFFFu64,
                        0 <= self.intensity_correction_factor <= 0xFFFF_FFFFu64,
                ;
            }
            let v: u64 = (self.intensities[i] as u64) * (self.intensity_correction_factor as u64);
            out.push(v);
            i = i + 1;
        }
        out
    }
}

/// Whether a raw frame together with a quadrupole table can be decoded:
/// the raw arrays are valid and every quadrupole range lies on the scan
/// axis.
pub open spec fn decodable(raw: &RawFrame, quad: &QuadrupoleSettings) -> bool {
    &&& raw.wf()
    &&& forall|g: int|
        0 <= g < quad.group_count() ==> #[trigger] quad.scan_ends@[g] <= raw.num_scans()
}

/// The frame a successful decode yields.
pub open spec fn decoded_frame(
    raw: RawFrame,
    acquisition_type: AcquisitionType,
    ms_level: MSLevel,
    quad: QuadrupoleSettings,
    intensity_correction_factor: u32,
    rt: i64,
) -> Frame {
    Frame {
        index: raw.index,
        scan_offsets: raw.scan_offsets,
        tof_indices: raw.tof_indices,
        intensities: raw.intensities,
        rt,
        acquisition_type,
        ms_level,
        quadrupole_settings: quad,
        intensity_correction_factor,
    }
}

/// Decodes one raw frame: validates the array invariants, calibrates the
/// retention time from the frame index, and attaches the metadata. A
/// violated invariant yields `CorruptFrame` and is never silently
/// repaired.
#[verifier::loop_isolation(false)]
pub fn decode(
    raw: RawFrame,
    acquisition_type: AcquisitionType,
    ms_level: MSLevel,
    quad: QuadrupoleSettings,
    intensity_correction_factor: u32,
    rt_converter: &DomainConverter,
) -> (r: Result<Frame, TimsError>)
    requires
        rt_converter.wf(),
        rt_converter.in_domain(raw.index as int),
        quad.wf(),
    ensures
        r is Ok <==> decodable(&raw, &quad),
        r matches Ok(f) ==> f == decoded_frame(
            raw,
            acquisition_type,
            ms_level,
            quad,
            intensity_correction_factor,
            rt_converter.convert_spec(raw.index as int) as i64,
        ),
        r matches Ok(f) ==> f.wf() && f.rt == rt_converter.convert_spec(raw.index as int),
        r matches Err(e) ==> e == TimsError::CorruptFrame,
{
    if !raw.is_well_formed() {
        return Err(TimsError::CorruptFrame);
    }
    let num_scans: usize = raw.scan_offsets.len() - 1;
    let mut g: usize = 0;
    while g < quad.scan_ends.len()
        invariant
            0 <= g <= quad.scan_ends@.len(),
            forall|i: int| 0 <= i < g ==> #[trigger] quad.scan_ends@[i] <= num_scans,
        decreases quad.scan_ends@.len() - g,
    {
        if quad.scan_ends[g] > num_scans {
            return Err(TimsError::CorruptFrame);
        }
        g = g + 1;
    }
    let rt: i64 = rt_converter.convert(raw.index);
    Ok(Frame {
        index: raw.index,
        scan_offsets: raw.scan_offsets,
        tof_indices: raw.tof_indices,
        intensities: raw.intensities,
        rt,
        acquisition_type,
        ms_level,
        quadrupole_settings: quad,
        intensity_correction_factor,
    })
}

} // verus!

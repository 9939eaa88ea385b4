//! A frame/spectrum decoding and calibration engine for trapped-ion-mobility
//! mass-spectrometry (TIMS) data.
//!
//! The engine turns raw on-disk integer records into randomly accessible
//! scientific records: it decodes per-frame sparse peak lists, splits
//! multiplexed acquisition frames into precursor-scoped scan-range groups,
//! and merges each group's peaks into a spectrum.
//!
//! All physical quantities are held in fixed-point integers so that every
//! computation here is exact and verifiable:
//! * retention time, ion mobility (1/K0) and m/z are in micro-units
//!   (one millionth of the physical unit);
//! * the per-frame intensity correction factor is in milli-units
//!   (one thousandth), and corrected intensities are therefore in
//!   milli-counts.
//!
//! An adapter that reads the vendor's binary container is expected to feed
//! [`reader::FileData`] with plain integer values and to scale the results
//! back to physical units for display.

use vstd::prelude::*;

pub mod converters;
pub mod frames;
pub mod reader;
pub mod spectra;
pub mod splitter;

verus! {

/// The error taxonomy of the engine.
///
/// `CannotOpen` and `InvalidConfiguration` are construction-time and fatal;
/// `CorruptFrame` is local to one raw frame; `IndexOutOfRange` reports a
/// caller index at or beyond the frame count; `CorruptSpectrum` is a
/// builder-stage failure (an invalid or missing scan-range group).
#[derive(Clone, Copy, Debug, PartialEq, Eq, Structural)]
pub enum TimsError {
    /// The file, path or file-level metadata is unreadable or inconsistent.
    CannotOpen,
    /// The windowing parameters are rejected at construction time.
    InvalidConfiguration,
    /// A single raw frame violates its array invariants.
    CorruptFrame,
    /// A caller index is at or beyond the number of frames.
    IndexOutOfRange,
    /// A spectrum could not be built from its scan-range group.
    CorruptSpectrum,
}

impl TimsError {
    /// A short human-readable label for the error.
    pub fn describe(&self) -> &'static str {
        match self {
            TimsError::CannotOpen => "cannot open",
            TimsError::InvalidConfiguration => "invalid configuration",
            TimsError::CorruptFrame => "corrupt frame",
            TimsError::IndexOutOfRange => "index out of range",
            TimsError::CorruptSpectrum => "corrupt spectrum",
        }
    }
}

} // verus!

use timscore::converters::DomainConverter;
use timscore::frames::{decode, AcquisitionType, Frame, MSLevel, QuadrupoleSettings, RawFrame};
use timscore::reader::{FileData, FrameMeta, Reader};
use timscore::spectra::{build, merge_peaks};
use timscore::splitter::{pick_window, split_native, split_uniform, SplitPolicy};
use timscore::TimsError;

fn linear(intercept: i64, slope: i64) -> DomainConverter {
    DomainConverter::Linear { intercept, slope }
}

fn quad_table(
    ranges: &[(usize, usize)],
    mzs: &[i64],
    widths: &[i64],
    ces: &[i64],
) -> QuadrupoleSettings {
    QuadrupoleSettings {
        index: 0,
        scan_starts: ranges.iter().map(|r| r.0).collect(),
        scan_ends: ranges.iter().map(|r| r.1).collect(),
        isolation_mz: mzs.to_vec(),
        isolation_width: widths.to_vec(),
        collision_energy: ces.to_vec(),
    }
}

fn empty_quad() -> QuadrupoleSettings {
    quad_table(&[], &[], &[], &[])
}

fn sample_raw(index: usize) -> RawFrame {
    RawFrame {
        index,
        scan_offsets: vec![0, 2, 4],
        tof_indices: vec![10, 20, 10, 30],
        intensities: vec![5, 6, 7, 8],
    }
}

fn sample_file(levels: &[MSLevel], acqs: &[AcquisitionType]) -> FileData {
    let frames: Vec<RawFrame> = (0..levels.len()).map(sample_raw).collect();
    let frame_meta: Vec<FrameMeta> = levels
        .iter()
        .zip(acqs.iter())
        .map(|(ms, acq)| FrameMeta {
            ms_level: *ms,
            acquisition_type: *acq,
            quadrupole_settings: empty_quad(),
            intensity_correction_factor: 2000,
        })
        .collect();
    FileData {
        rt_calibration: linear(0, 500_000),
        im_calibration: linear(0, 100),
        mz_calibration: linear(0, 1000),
        frames,
        frame_meta,
    }
}

#[test]
fn linear_convert_evaluates_affine_model() {
    let c = linear(1000, 2);
    assert_eq!(c.convert(0), 1000);
    assert_eq!(c.convert(5), 1010);
}

#[test]
fn linear_invert_is_exact_on_converted_indices() {
    let c = linear(1000, 7);
    for i in [0usize, 1, 2, 50, 4096] {
        let v = c.convert(i);
        assert_eq!(c.invert(v), i);
    }
}

#[test]
fn linear_invert_clamps_below_domain() {
    let c = linear(1000, 2);
    assert_eq!(c.invert(-50_000), 0);
}

#[test]
fn linear_invert_rounds_to_nearest() {
    let c = linear(0, 10);
    assert_eq!(c.invert(14), 1);
    assert_eq!(c.invert(16), 2);
}

#[test]
fn linear_convert_is_monotonic() {
    let c = linear(-500, 3);
    let mut last = c.convert(0);
    for i in 1usize..100 {
        let v = c.convert(i);
        assert!(v > last);
        last = v;
    }
}

#[test]
fn table_convert_reads_samples() {
    let c = DomainConverter::Table { values: vec![10, 20, 35] };
    assert_eq!(c.convert(0), 10);
    assert_eq!(c.convert(2), 35);
}

#[test]
fn table_invert_round_trips_and_bounds() {
    let c = DomainConverter::Table { values: vec![10, 20, 35] };
    assert_eq!(c.invert(20), 1);
    assert_eq!(c.invert(25), 2);
    assert_eq!(c.invert(100), 2);
    assert_eq!(c.invert(-7), 0);
    for i in 0usize..3 {
        assert_eq!(c.invert(c.convert(i)), i);
    }
}

#[test]
fn converter_well_formedness_checks() {
    assert!(linear(1000, 2).is_well_formed());
    assert!(!linear(1000, 0).is_well_formed());
    assert!(DomainConverter::Table { values: vec![1, 2, 3] }.is_well_formed());
    assert!(!DomainConverter::Table { values: vec![3, 2] }.is_well_formed());
    assert!(!DomainConverter::Table { values: vec![] }.is_well_formed());
}

#[test]
fn decode_accepts_valid_frame() {
    let raw = sample_raw(3);
    let rt_conv = linear(0, 500_000);
    let f = decode(
        raw,
        AcquisitionType::DIAPASEF,
        MSLevel::MS2,
        empty_quad(),
        2000,
        &rt_conv,
    )
    .unwrap();
    assert_eq!(f.index, 3);
    assert_eq!(f.rt, 1_500_000);
    assert_eq!(f.scan_offsets, vec![0, 2, 4]);
    assert_eq!(f.tof_indices, vec![10, 20, 10, 30]);
    assert_eq!(f.intensities, vec![5, 6, 7, 8]);
    assert_eq!(f.ms_level, MSLevel::MS2);
    assert_eq!(f.acquisition_type, AcquisitionType::DIAPASEF);
    assert_eq!(f.intensity_correction_factor, 2000);
}

#[test]
fn decode_rejects_offsets_not_starting_at_zero() {
    let raw = RawFrame {
        index: 0,
        scan_offsets: vec![1, 2, 4],
        tof_indices: vec![10, 20, 10, 30],
        intensities: vec![5, 6, 7, 8],
    };
    let r = decode(raw, AcquisitionType::Unknown, MSLevel::MS1, empty_quad(), 1000, &linear(0, 1));
    assert_eq!(r.unwrap_err(), TimsError::CorruptFrame);
}

#[test]
fn decode_rejects_decreasing_offsets() {
    let raw = RawFrame {
        index: 0,
        scan_offsets: vec![0, 3, 2, 4],
        tof_indices: vec![10, 20, 10, 30],
        intensities: vec![5, 6, 7, 8],
    };
    let r = decode(raw, AcquisitionType::Unknown, MSLevel::MS1, empty_quad(), 1000, &linear(0, 1));
    assert_eq!(r.unwrap_err(), TimsError::CorruptFrame);
}

#[test]
fn decode_rejects_mismatched_array_lengths() {
    let raw = RawFrame {
        index: 0,
        scan_offsets: vec![0, 2, 4],
        tof_indices: vec![10, 20, 10, 30],
        intensities: vec![5, 6, 7],
    };
    let r = decode(raw, AcquisitionType::Unknown, MSLevel::MS1, empty_quad(), 1000, &linear(0, 1));
    assert_eq!(r.unwrap_err(), TimsError::CorruptFrame);
}

#[test]
fn decode_rejects_quad_range_past_scan_axis() {
    let raw = sample_raw(0);
    let quad = quad_table(&[(0, 3)], &[400_000_000], &[2_000_000], &[30_000_000]);
    let r = decode(raw, AcquisitionType::DIAPASEF, MSLevel::MS2, quad, 1000, &linear(0, 1));
    assert_eq!(r.unwrap_err(), TimsError::CorruptFrame);
}

#[test]
fn corrected_intensities_scale_by_milli_factor() {
    let raw = sample_raw(0);
    let f = decode(raw, AcquisitionType::Unknown, MSLevel::MS1, empty_quad(), 2000, &linear(0, 1))
        .unwrap();
    assert_eq!(f.corrected_intensities(), vec![10_000, 12_000, 14_000, 16_000]);
}

#[test]
fn uniform_policy_rejects_nonpositive_parameters() {
    assert_eq!(SplitPolicy::uniform(0, 5).unwrap_err(), TimsError::InvalidConfiguration);
    assert_eq!(SplitPolicy::uniform(5, 0).unwrap_err(), TimsError::InvalidConfiguration);
    assert_eq!(SplitPolicy::uniform(-3, 2).unwrap_err(), TimsError::InvalidConfiguration);
    assert!(SplitPolicy::uniform(3, 5).is_ok());
}

fn ms2_frame(quad: QuadrupoleSettings, num_scans: usize) -> Frame {
    let offsets: Vec<usize> = (0..=num_scans).map(|_| 0).collect();
    Frame {
        index: 0,
        scan_offsets: offsets,
        tof_indices: vec![],
        intensities: vec![],
        rt: 0,
        acquisition_type: AcquisitionType::DIAPASEF,
        ms_level: MSLevel::MS2,
        quadrupole_settings: quad,
        intensity_correction_factor: 1000,
    }
}

#[test]
fn native_split_returns_table_verbatim() {
    let quad = quad_table(
        &[(0, 5), (5, 10)],
        &[400_000_000, 500_000_000],
        &[2_000_000, 2_000_000],
        &[30_000_000, 40_000_000],
    );
    let f = ms2_frame(quad, 10);
    let groups = split_native(&f);
    assert_eq!(groups.len(), 2);
    assert_eq!((groups[0].scan_start, groups[0].scan_end), (0, 5));
    assert_eq!((groups[1].scan_start, groups[1].scan_end), (5, 10));
    let w0 = groups[0].window.unwrap();
    assert_eq!(w0.mz, 400_000_000);
    assert_eq!(w0.width, 2_000_000);
    assert_eq!(w0.collision_energy, 30_000_000);
    let w1 = groups[1].window.unwrap();
    assert_eq!(w1.mz, 500_000_000);
    assert_eq!(w1.collision_energy, 40_000_000);
}

#[test]
fn uniform_split_tiles_the_mobility_span() {
    let quad = quad_table(&[(0, 10)], &[400_000_000], &[2_000_000], &[30_000_000]);
    let f = ms2_frame(quad, 10);
    let im = linear(0, 100);
    let groups = split_uniform(&f, 1000, 400, &im);
    assert_eq!(groups.len(), 3);
    assert_eq!((groups[0].scan_start, groups[0].scan_end), (0, 4));
    assert_eq!((groups[1].scan_start, groups[1].scan_end), (4, 8));
    assert_eq!((groups[2].scan_start, groups[2].scan_end), (8, 10));
    for g in &groups {
        assert_eq!(g.window.unwrap().mz, 400_000_000);
    }
}

#[test]
fn uniform_split_with_step_past_span_gives_one_bin() {
    let quad = quad_table(&[(0, 10)], &[400_000_000], &[2_000_000], &[30_000_000]);
    let f = ms2_frame(quad, 10);
    let im = linear(0, 100);
    let groups = split_uniform(&f, 1000, 2000, &im);
    assert_eq!(groups.len(), 1);
    assert_eq!((groups[0].scan_start, groups[0].scan_end), (0, 10));
}

#[test]
fn pick_window_prefers_largest_overlap_then_first() {
    let quad = quad_table(
        &[(0, 5), (5, 10)],
        &[400_000_000, 500_000_000],
        &[2_000_000, 2_000_000],
        &[30_000_000, 40_000_000],
    );
    assert_eq!(pick_window(&quad, 3, 7), Some(0));
    assert_eq!(pick_window(&quad, 2, 7), Some(0));
    assert_eq!(pick_window(&quad, 4, 9), Some(1));
    assert_eq!(pick_window(&quad, 12, 15), None);
}

#[test]
fn merge_collapses_duplicate_tof_indices() {
    let pairs = vec![(10u32, 5u32), (20, 6), (10, 7), (30, 8)];
    let (tofs, sums) = merge_peaks(&pairs);
    assert_eq!(tofs, vec![10, 20, 30]);
    assert_eq!(sums, vec![12, 6, 8]);
}

#[test]
fn merge_of_empty_input_is_empty() {
    let pairs: Vec<(u32, u32)> = vec![];
    let (tofs, sums) = merge_peaks(&pairs);
    assert!(tofs.is_empty());
    assert!(sums.is_empty());
}

#[test]
fn build_merges_and_sorts_one_group() {
    let raw = sample_raw(0);
    let f = decode(raw, AcquisitionType::Unknown, MSLevel::MS1, empty_quad(), 2000, &linear(0, 1))
        .unwrap();
    let group = timscore::splitter::ScanWindowGroup { scan_start: 0, scan_end: 2, window: None };
    let sp = build(&f, &group, &linear(0, 100), &linear(0, 1000), 0).unwrap();
    assert_eq!(sp.mz_values, vec![10_000, 20_000, 30_000]);
    assert_eq!(sp.intensities, vec![24_000, 12_000, 16_000]);
    assert_eq!(sp.tof_indices, vec![10, 20, 30]);
    assert!(sp.precursor.is_none());
    assert_eq!(sp.isolation_mz, 0);
}

#[test]
fn build_rejects_group_past_scan_axis() {
    let raw = sample_raw(0);
    let f = decode(raw, AcquisitionType::Unknown, MSLevel::MS1, empty_quad(), 2000, &linear(0, 1))
        .unwrap();
    let group = timscore::splitter::ScanWindowGroup { scan_start: 0, scan_end: 3, window: None };
    let r = build(&f, &group, &linear(0, 100), &linear(0, 1000), 0);
    assert_eq!(r.unwrap_err(), TimsError::CorruptSpectrum);
}

#[test]
fn scenario_single_ms1_frame_spectrum() {
    let data = sample_file(&[MSLevel::MS1], &[AcquisitionType::Unknown]);
    let reader = Reader::open(data).unwrap();
    assert_eq!(reader.len(), 1);
    let sp = reader.read_spectrum(0).unwrap();
    assert_eq!(sp.mz_values, vec![10_000, 20_000, 30_000]);
    assert_eq!(sp.intensities, vec![24_000, 12_000, 16_000]);
    assert_eq!(sp.index, 0);
    assert!(sp.precursor.is_none());
    let all = reader.read_all_spectra().unwrap();
    assert_eq!(all.len(), 1);
    assert_eq!(all[0].index, 0);
    assert_eq!(all[0].mz_values, vec![10_000, 20_000, 30_000]);
}

#[test]
fn scenario_inconsistent_metadata_cannot_open() {
    let mut data = sample_file(&[MSLevel::MS1], &[AcquisitionType::Unknown]);
    data.frame_meta.clear();
    assert_eq!(Reader::open(data).unwrap_err(), TimsError::CannotOpen);

    let mut data = sample_file(&[MSLevel::MS1], &[AcquisitionType::Unknown]);
    data.frames[0].index = 7;
    assert_eq!(Reader::open(data).unwrap_err(), TimsError::CannotOpen);

    let mut data = sample_file(&[MSLevel::MS1], &[AcquisitionType::Unknown]);
    data.mz_calibration = linear(0, 0);
    assert_eq!(Reader::open(data).unwrap_err(), TimsError::CannotOpen);
}

#[test]
fn scenario_bad_span_step_is_invalid_configuration() {
    let data = sample_file(&[MSLevel::MS1], &[AcquisitionType::Unknown]);
    let r = Reader::open_with_span_step(data, 0, 5);
    assert_eq!(r.unwrap_err(), TimsError::InvalidConfiguration);
}

#[test]
fn scenario_read_past_end_is_index_out_of_range() {
    let data = sample_file(&[MSLevel::MS1], &[AcquisitionType::Unknown]);
    let reader = Reader::open(data).unwrap();
    let n = reader.len();
    assert_eq!(reader.read_frame(n).unwrap_err(), TimsError::IndexOutOfRange);
    assert_eq!(reader.read_spectrum(n).unwrap_err(), TimsError::IndexOutOfRange);
}

#[test]
fn bulk_read_returns_frames_in_index_order() {
    let data = sample_file(
        &[MSLevel::MS1, MSLevel::MS2, MSLevel::MS1],
        &[AcquisitionType::Unknown, AcquisitionType::DIAPASEF, AcquisitionType::Unknown],
    );
    let reader = Reader::open(data).unwrap();
    let frames = reader.read_all_frames().unwrap();
    assert_eq!(frames.len(), 3);
    for (k, f) in frames.iter().enumerate() {
        assert_eq!(f.index, k);
    }
}

#[test]
fn filtered_reads_select_by_level_and_acquisition() {
    let data = sample_file(
        &[MSLevel::MS1, MSLevel::MS2, MSLevel::MS1, MSLevel::MS2],
        &[
            AcquisitionType::Unknown,
            AcquisitionType::DIAPASEF,
            AcquisitionType::Unknown,
            AcquisitionType::DDAPASEF,
        ],
    );
    let reader = Reader::open(data).unwrap();
    let ms1 = reader.read_all_ms1_frames().unwrap();
    assert_eq!(ms1.len(), 2);
    assert_eq!(ms1[0].index, 0);
    assert_eq!(ms1[1].index, 2);
    let dia = reader.read_all_dia_frames().unwrap();
    assert_eq!(dia.len(), 1);
    assert_eq!(dia[0].index, 1);
}

#[test]
fn corrupt_frame_is_local_to_its_read() {
    let mut data = sample_file(
        &[MSLevel::MS1, MSLevel::MS2],
        &[AcquisitionType::Unknown, AcquisitionType::DIAPASEF],
    );
    data.frames[1].scan_offsets = vec![0, 3, 2];
    let reader = Reader::open(data).unwrap();
    assert!(reader.read_frame(0).is_ok());
    assert_eq!(reader.read_frame(1).unwrap_err(), TimsError::CorruptFrame);
    assert_eq!(reader.read_all_frames().unwrap_err(), TimsError::CorruptFrame);
    assert_eq!(reader.read_all_spectra().unwrap_err(), TimsError::CorruptFrame);
    // The corrupt frame is MS2, so the MS1-only bulk read never decodes it.
    let ms1 = reader.read_all_ms1_frames().unwrap();
    assert_eq!(ms1.len(), 1);
    assert_eq!(ms1[0].index, 0);
}

#[test]
fn ms2_spectrum_uses_first_native_group() {
    let mut data = sample_file(
        &[MSLevel::MS2],
        &[AcquisitionType::DIAPASEF],
    );
    data.frame_meta[0].quadrupole_settings =
        quad_table(&[(0, 1), (1, 2)], &[400_000_000, 500_000_000], &[2_000_000, 2_000_000], &[
            30_000_000, 40_000_000,
        ]);
    let reader = Reader::open(data).unwrap();
    let sp = reader.read_spectrum(0).unwrap();
    // First group covers scan 0 only: peaks (tof 10, 5) and (tof 20, 6).
    assert_eq!(sp.mz_values, vec![10_000, 20_000]);
    assert_eq!(sp.intensities, vec![10_000, 12_000]);
    assert_eq!(sp.isolation_mz, 400_000_000);
    assert_eq!(sp.isolation_width, 2_000_000);
    assert_eq!(sp.collision_energy, 30_000_000);
    let p = sp.precursor.unwrap();
    assert_eq!(p.mz, 400_000_000);
    assert_eq!(p.frame_index, 0);
    assert_eq!(p.charge, None);
    assert_eq!(p.intensity, None);
}

#[test]
fn explicit_group_selector_reads_later_windows() {
    let mut data = sample_file(&[MSLevel::MS2], &[AcquisitionType::DIAPASEF]);
    data.frame_meta[0].quadrupole_settings =
        quad_table(&[(0, 1), (1, 2)], &[400_000_000, 500_000_000], &[2_000_000, 2_000_000], &[
            30_000_000, 40_000_000,
        ]);
    let reader = Reader::open(data).unwrap();
    // Second group covers scan 1 only: peaks (tof 10, 7) and (tof 30, 8).
    let sp = reader.read_spectrum_group(0, 1).unwrap();
    assert_eq!(sp.mz_values, vec![10_000, 30_000]);
    assert_eq!(sp.intensities, vec![14_000, 16_000]);
    assert_eq!(sp.isolation_mz, 500_000_000);
    assert_eq!(sp.collision_energy, 40_000_000);
    assert_eq!(
        reader.read_spectrum_group(0, 2).unwrap_err(),
        TimsError::CorruptSpectrum
    );
}

#[test]
fn ms2_frame_without_windows_yields_corrupt_spectrum() {
    let data = sample_file(&[MSLevel::MS2], &[AcquisitionType::DIAPASEF]);
    let reader = Reader::open(data).unwrap();
    assert_eq!(reader.read_spectrum(0).unwrap_err(), TimsError::CorruptSpectrum);
}

#[test]
fn all_spectra_flatten_in_frame_then_group_order() {
    let mut data = sample_file(
        &[MSLevel::MS1, MSLevel::MS2],
        &[AcquisitionType::Unknown, AcquisitionType::DIAPASEF],
    );
    data.frame_meta[1].quadrupole_settings =
        quad_table(&[(0, 1), (1, 2)], &[400_000_000, 500_000_000], &[2_000_000, 2_000_000], &[
            30_000_000, 40_000_000,
        ]);
    let reader = Reader::open(data).unwrap();
    let all = reader.read_all_spectra().unwrap();
    assert_eq!(all.len(), 3);
    for (j, sp) in all.iter().enumerate() {
        assert_eq!(sp.index, j);
    }
    assert!(all[0].precursor.is_none());
    assert_eq!(all[1].isolation_mz, 400_000_000);
    assert_eq!(all[2].isolation_mz, 500_000_000);
}

#[test]
fn resolvers_pass_through_the_converters() {
    let data = sample_file(&[MSLevel::MS1], &[AcquisitionType::Unknown]);
    let reader = Reader::open(data).unwrap();
    assert_eq!(reader.resolve_mzs(&vec![10, 20]), vec![10_000, 20_000]);
    assert_eq!(reader.invert_mzs(&vec![10_000, 20_000]), vec![10, 20]);
    assert_eq!(reader.resolve_scans(&vec![3]), vec![300]);
    assert_eq!(reader.invert_scans(&vec![300]), vec![3]);
    assert_eq!(reader.resolve_frames(&vec![2]), vec![1_000_000]);
    assert_eq!(reader.invert_frames(&vec![1_000_000]), vec![2]);
}

#[test]
fn uniform_policy_reader_splits_ms2_frames() {
    let mut data = sample_file(&[MSLevel::MS2], &[AcquisitionType::DIAPASEF]);
    data.frame_meta[0].quadrupole_settings =
        quad_table(&[(0, 2)], &[400_000_000], &[2_000_000], &[30_000_000]);
    // The mobility axis spans 200 micro-units over 2 scans; one bin.
    let reader = Reader::open_with_span_step(data, 200, 300).unwrap();
    let sp = reader.read_spectrum(0).unwrap();
    assert_eq!(sp.mz_values, vec![10_000, 20_000, 30_000]);
    assert_eq!(sp.intensities, vec![24_000, 12_000, 16_000]);
    assert_eq!(sp.isolation_mz, 400_000_000);
}

#[test]
fn enum_labels_are_stable() {
    assert_eq!(AcquisitionType::DDAPASEF.label(), "DDAPASEF");
    assert_eq!(AcquisitionType::DIAPASEF.label(), "DIAPASEF");
    assert_eq!(AcquisitionType::DiagonalDIAPASEF.label(), "DiagonalDIAPASEF");
    assert_eq!(AcquisitionType::Unknown.label(), "Unknown");
    assert_eq!(MSLevel::MS1.label(), "MS1");
    assert_eq!(MSLevel::MS2.label(), "MS2");
    assert_eq!(MSLevel::Unknown.label(), "Unknown");
}

#[test]
fn reader_accepts_table_calibrations() {
    let mut data = sample_file(&[MSLevel::MS1, MSLevel::MS1], &[
        AcquisitionType::Unknown,
        AcquisitionType::Unknown,
    ]);
    data.rt_calibration = DomainConverter::Table { values: vec![250_000, 750_000] };
    data.mz_calibration = DomainConverter::Table {
        values: (0..=30i64).map(|i| 1_000_000 + 500 * i * i).collect(),
    };
    let reader = Reader::open(data).unwrap();
    let f = reader.read_frame(1).unwrap();
    assert_eq!(f.rt, 750_000);
    // tof 10 -> 1_000_000 + 500 * 100
    assert_eq!(reader.resolve_mzs(&vec![10]), vec![1_050_000]);
    assert_eq!(reader.invert_mzs(&vec![1_050_000]), vec![10]);
    let sp = reader.read_spectrum(0).unwrap();
    assert_eq!(sp.mz_values, vec![1_050_000, 1_200_000, 1_450_000]);
    assert_eq!(sp.intensities, vec![24_000, 12_000, 16_000]);
}

#[test]
fn unresolvable_channels_are_a_corrupt_frame() {
    // The mobility table covers only scan 0, not the frame's two scans.
    let mut data = sample_file(&[MSLevel::MS1], &[AcquisitionType::Unknown]);
    data.im_calibration = DomainConverter::Table { values: vec![0] };
    let reader = Reader::open(data).unwrap();
    assert_eq!(reader.read_spectrum(0).unwrap_err(), TimsError::CorruptFrame);

    // The m/z table stops below the frame's TOF indices.
    let mut data = sample_file(&[MSLevel::MS1], &[AcquisitionType::Unknown]);
    data.mz_calibration = DomainConverter::Table { values: vec![0, 10, 20] };
    let reader = Reader::open(data).unwrap();
    assert_eq!(reader.read_spectrum(0).unwrap_err(), TimsError::CorruptFrame);
    // The frame itself still reads: only spectrum building needs the table.
    assert!(reader.read_frame(0).is_ok());
}

#[test]
fn error_labels_are_stable() {
    assert_eq!(TimsError::CannotOpen.describe(), "cannot open");
    assert_eq!(TimsError::InvalidConfiguration.describe(), "invalid configuration");
    assert_eq!(TimsError::CorruptFrame.describe(), "corrupt frame");
    assert_eq!(TimsError::IndexOutOfRange.describe(), "index out of range");
    assert_eq!(TimsError::CorruptSpectrum.describe(), "corrupt spectrum");
}

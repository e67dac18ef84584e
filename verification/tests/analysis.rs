use signal::analysis::{
    analysis_rate, classify_verdict, effective_bits, is_padded, left_align, long_enough,
    transcode_ancestor, window_len, window_starts, worker_count_for, AnalysisTally, IntSample,
    IntSampleStats, PacketLoop, SampleBits, SpectrumFindings, Verdict,
};

fn findings(cutoff_hz: Option<u32>, cliff_db: Option<f64>) -> SpectrumFindings {
    SpectrumFindings {
        too_quiet: false,
        cutoff_hz,
        steep_cliff: cliff_db.map(|c| c >= 25.0),
    }
}

#[test]
fn effective_bits_from_trailing_zeros() {
    let padded = IntSampleStats {
        min_trailing_zeros: 16,
        nonzero_samples: 200_000,
    };
    assert_eq!(effective_bits(&padded), Some(16));

    let dithered = IntSampleStats {
        min_trailing_zeros: 8,
        nonzero_samples: 200_000,
    };
    assert_eq!(effective_bits(&dithered), Some(24));

    let sparse = IntSampleStats {
        min_trailing_zeros: 16,
        nonzero_samples: 99_999,
    };
    assert_eq!(effective_bits(&sparse), None);
}

#[test]
fn effective_bits_saturates_at_one_bit() {
    let silent_ish = IntSampleStats {
        min_trailing_zeros: 40,
        nonzero_samples: 100_000,
    };
    assert_eq!(effective_bits(&silent_ish), Some(1));
    let full = IntSampleStats {
        min_trailing_zeros: 0,
        nonzero_samples: 100_000,
    };
    assert_eq!(effective_bits(&full), Some(32));
}

#[test]
fn upsampled_when_hires_content_stops_at_cd_band() {
    let r = classify_verdict(96_000, Some(24), &findings(Some(20_100), Some(60.0)), Some(24));
    assert_eq!(r, Verdict::Upsampled);
    assert!(r.is_flagged());
}

#[test]
fn hires_full_band_is_clean() {
    let r = classify_verdict(96_000, Some(24), &findings(Some(45_000), None), Some(24));
    assert_eq!(r, Verdict::Clean);
}

#[test]
fn transcode_named_by_ancestor_bitrate() {
    let r = classify_verdict(44_100, Some(16), &findings(Some(16_000), Some(52.0)), Some(16));
    assert_eq!(r, Verdict::Transcode);
    assert!(transcode_ancestor(16_000).contains("~128 kbps"));

    let r = classify_verdict(44_100, Some(16), &findings(Some(20_300), Some(40.0)), Some(16));
    assert_eq!(r, Verdict::Transcode);
    assert!(transcode_ancestor(20_300).contains("256\u{2013}320"));
}

#[test]
fn gentle_cliff_stays_clean() {
    let r = classify_verdict(44_100, Some(16), &findings(Some(17_000), Some(12.0)), Some(16));
    assert_eq!(r, Verdict::Clean);
}

#[test]
fn low_sample_rates_never_get_transcode_verdicts() {
    let r = classify_verdict(32_000, Some(16), &findings(Some(15_500), Some(50.0)), Some(16));
    assert_eq!(r, Verdict::Clean);
}

#[test]
fn padded_bits_is_reported_alone() {
    let r = classify_verdict(44_100, Some(24), &findings(Some(21_500), None), Some(16));
    assert_eq!(r, Verdict::PaddedBits);
    assert!(is_padded(Some(24), Some(16)));
}

#[test]
fn padded_bits_rides_along_on_upsampled() {
    let r = classify_verdict(96_000, Some(24), &findings(Some(20_000), Some(55.0)), Some(16));
    assert_eq!(r, Verdict::Upsampled);
    assert!(is_padded(Some(24), Some(16)));
}

#[test]
fn sixteen_bit_claims_are_never_padded() {
    let r = classify_verdict(44_100, Some(16), &findings(Some(21_000), None), Some(16));
    assert_eq!(r, Verdict::Clean);
}

#[test]
fn too_quiet_short_circuits() {
    let f = SpectrumFindings {
        too_quiet: true,
        cutoff_hz: None,
        steep_cliff: None,
    };
    let r = classify_verdict(96_000, Some(24), &f, Some(16));
    assert_eq!(r, Verdict::Clean);
}

#[test]
fn short_track_is_skipped_before_decoding() {
    assert!(!long_enough(3_000));
    assert!(long_enough(5_000));
}

#[test]
fn padding_needs_a_real_margin() {
    assert!(!is_padded(Some(20), Some(16)));
    assert!(is_padded(Some(21), Some(16)));
    assert!(!is_padded(None, Some(8)));
    assert!(!is_padded(Some(24), None));
}

#[test]
fn ancestor_labels_by_band() {
    assert_eq!(transcode_ancestor(16_499), "~128 kbps");
    assert_eq!(transcode_ancestor(16_500), "~192 kbps");
    assert_eq!(transcode_ancestor(19_499), "~192 kbps");
    assert_eq!(transcode_ancestor(19_500), "~256\u{2013}320 kbps");
}

#[test]
fn verdict_names() {
    assert_eq!(Verdict::Clean.as_str(), "clean");
    assert_eq!(Verdict::PaddedBits.as_str(), "padded_bits");
    assert_eq!(Verdict::Unreadable.as_str(), "unreadable");
    assert!(!Verdict::Clean.is_flagged());
    assert!(Verdict::Transcode.is_flagged());
    assert!(!Verdict::Skipped.is_flagged());
}

#[test]
fn window_positions() {
    assert_eq!(window_starts(29_999), vec![0]);
    assert_eq!(window_starts(100_000), vec![10, 50, 90]);
    // capped so that a full window still fits before the end
    assert_eq!(window_starts(30_000), vec![3, 15, 21]);
}

#[test]
fn sample_bits_fold() {
    let mut bits = SampleBits::new();
    bits.add_int_sample(0);
    bits.add_int_sample(1 << 16);
    bits.add_int_sample(3 << 8);
    let stats = bits.stats().unwrap();
    assert_eq!(stats.min_trailing_zeros, 8);
    assert_eq!(stats.nonzero_samples, 2);
    bits.mark_float();
    assert!(bits.stats().is_none());
    let empty = SampleBits::new().stats().unwrap();
    assert_eq!(empty.min_trailing_zeros, 31);
}

#[test]
fn left_alignment_of_formats() {
    assert_eq!(left_align(IntSample::U8(128)), 0);
    assert_eq!(left_align(IntSample::U8(0)), i32::MIN);
    assert_eq!(left_align(IntSample::U16(32_769)), 1 << 16);
    assert_eq!(left_align(IntSample::S16(-1)), -(1 << 16));
    assert_eq!(left_align(IntSample::S24(1)), 256);
    assert_eq!(left_align(IntSample::U32(0)), i32::MIN);
    assert_eq!(left_align(IntSample::U32(0x8000_0001)), 1);
    assert_eq!(left_align(IntSample::S32(-7)), -7);
}

#[test]
fn run_bookkeeping() {
    assert_eq!(analysis_rate(0, 44_100), 44_100);
    assert_eq!(analysis_rate(48_000, 44_100), 48_000);
    assert_eq!(worker_count_for(None), 2);
    assert_eq!(worker_count_for(Some(1)), 2);
    assert_eq!(worker_count_for(Some(6)), 3);
    assert_eq!(worker_count_for(Some(64)), 4);
    let mut t = AnalysisTally::new();
    t.record(Verdict::Transcode, true);
    t.record(Verdict::Clean, true);
    t.record(Verdict::Unreadable, false);
    t.record(Verdict::Skipped, true);
    assert_eq!(t.processed, 4);
    assert_eq!(t.analyzed, 2);
    assert_eq!(t.flagged, 1);
    assert_eq!(t.errors, 2);
}

#[test]
fn window_length_in_samples() {
    assert_eq!(window_len(44_100), Some(352_800));
    assert_eq!(window_len(96_000), Some(768_000));
    // very low rates are sized as 8 kHz
    assert_eq!(window_len(4_000), Some(64_000));
    assert_eq!(window_len(0), Some(64_000));
}

#[test]
fn cancel_flag_is_polled_every_64th_packet() {
    let mut l = PacketLoop::new();
    let due: Vec<usize> = (1..=200).filter(|_| l.poll_due()).collect();
    assert_eq!(due, vec![64, 128, 192]);
}

#[test]
fn thirty_two_corrupt_packets_in_a_row_give_up() {
    let mut l = PacketLoop::new();
    for _ in 0..31 {
        assert!(!l.decode_failed());
    }
    l.decoded();
    for _ in 0..31 {
        assert!(!l.decode_failed());
    }
    assert!(l.decode_failed());
}

use respeaker_algo::doa::framer::FrameAssembler;
use respeaker_algo::doa::geometry::{
    band_zone, is_band_active, pair_is_opposite, steering_terms, BandZone, SteeringLut, MIC_PAIRS,
    RESPEAKER_V2_MICS_MM,
};
use respeaker_algo::doa::output::{csv_header, status_str, ConsoleLimiter};
use respeaker_algo::doa::srp::{find_peaks, median, sorted};
use respeaker_algo::doa::tracker::{
    FilterEffect, GateObservation, GateTracker, RunEffect, TrackStatus,
};
use respeaker_algo::doa::{
    wrap_360, DoaConfig, DoaConfigError, DoaProcessor, ANGLE_COUNT, FRAME_SIZE, MIC_COUNT,
    SAMPLE_RATE,
};
use respeaker_algo::single::Single;

fn s(value: f32) -> Single {
    Single { bits: value.to_bits() }
}

fn mics_m() -> [[f32; 2]; 4] {
    RESPEAKER_V2_MICS_MM.map(|mic| mic.map(|mm| mm as f32 / 1000.0))
}

/// An observation that lies near everything it is compared with.
fn near(confidence: f32) -> Option<GateObservation> {
    Some(GateObservation {
        confidence: s(confidence),
        near_prediction: true,
        near_acquire: true,
        near_jump: true,
    })
}

fn tracker() -> GateTracker {
    GateTracker::new(s(0.65), s(0.40), 500)
}

#[test]
fn geometry_coordinates_and_pairs() {
    let mics = mics_m();
    assert_eq!(mics[0], [-0.032, 0.0]);
    assert_eq!(mics[1], [0.0, -0.032]);
    assert_eq!(mics[2], [0.032, 0.0]);
    assert_eq!(mics[3], [0.0, 0.032]);

    let mut seen = std::collections::HashSet::new();
    for &(i, j) in &MIC_PAIRS {
        assert!(i < j);
        assert!(j < MIC_COUNT);
        assert!(seen.insert((i, j)), "duplicate pair ({i},{j})");
    }
    assert_eq!(seen.len(), 6);
    for i in 0..MIC_COUNT {
        for j in (i + 1)..MIC_COUNT {
            assert!(seen.contains(&(i, j)), "missing pair ({i},{j})");
        }
    }
}

#[test]
fn pair_lengths() {
    let adjacent: f32 = std::f32::consts::SQRT_2 * 0.032;
    for (idx, &(i, j)) in MIC_PAIRS.iter().enumerate() {
        let ri = mics_m()[i];
        let rj = mics_m()[j];
        let d = ((ri[0] - rj[0]).powi(2) + (ri[1] - rj[1]).powi(2)).sqrt();
        let expected = if pair_is_opposite(idx) {
            0.064
        } else {
            adjacent
        };
        assert!(
            (d - expected).abs() < 1e-6,
            "pair {idx} len {d} != {expected}"
        );
    }
}

#[test]
fn band_weight_shape() {
    let bin8 = (250.0f32 / (SAMPLE_RATE as f32 / FRAME_SIZE as f32)).round() as usize;
    assert_eq!(band_zone(0, 0), BandZone::Outside);
    assert_eq!(band_zone(0, bin8), BandZone::Outside);
    let bin400 = (400.0f32 / 31.25).round() as usize;
    assert_eq!(band_zone(0, bin400), BandZone::Full);
    let bin3500 = (3500.0f32 / 31.25).round() as usize;
    assert_eq!(band_zone(0, bin3500), BandZone::Outside);
    let bin2500 = (2500.0f32 / 31.25).round() as usize;
    assert_eq!(band_zone(1, bin2500), BandZone::Outside);
    assert_eq!(band_zone(0, 9), BandZone::Rising);
    assert_eq!(band_zone(0, 105), BandZone::Falling);
    assert_eq!(band_zone(1, 73), BandZone::Falling);
    assert!(is_band_active(0, 9) && !is_band_active(1, 80));
}

#[test]
fn steering_lut_builds() {
    let count = steering_terms().len();
    // Adjacent pairs vote at bins 9 to 111, opposite ones at bins 9 to 79.
    assert_eq!(count, 4 * 103 + 2 * 71);
    let values: Vec<usize> = (0..ANGLE_COUNT * count).collect();
    let lut = SteeringLut::from_values(values).unwrap();
    assert!(lut.term_count() > 0);
    assert_eq!(lut.steer.len(), ANGLE_COUNT * lut.term_count());
    for a in 0..ANGLE_COUNT {
        assert_eq!(lut.steer_slice(a)[0], a * count);
        assert_eq!(lut.steer_slice(a).len(), count);
    }
    assert_eq!((lut.terms()[0].pair, lut.terms()[0].bin), (0, 9));
    assert!(SteeringLut::from_values(vec![0u8; 5]).is_none());
}

#[test]
fn frame_boundaries() {
    let mut f = FrameAssembler::new();
    let mut emits: Vec<u64> = Vec::new();
    for n in 0..2000u64 {
        let s = n as f32;
        if f.push([s, s, s, s]) {
            emits.push(f.total_samples());
        }
    }
    assert_eq!(emits, vec![512, 768, 1024, 1280, 1536, 1792]);
}

#[test]
fn first_frame_chronological() {
    let mut f = FrameAssembler::new();
    for n in 0..511u64 {
        let s = n as f32;
        assert!(!f.push([s, s, s, s]), "n={n} 不应发射");
    }
    assert!(f.push([511.0f32; MIC_COUNT]));
    let frame = f.copy_frame();
    assert_eq!(frame[0][0], 0.0);
    assert_eq!(frame[0][511], 511.0);
    for (n, &v) in frame[0].iter().enumerate() {
        assert!((v - n as f32).abs() < 1e-6);
    }
}

#[test]
fn block_size_independent_emits() {
    let n_samples = 3000;
    let mut f_all = FrameAssembler::new();
    let mut emit_all = Vec::new();
    for n in 0..n_samples {
        let s = (n * 7 % 1000) as f32;
        if f_all.push([s, s + 1.0, s + 2.0, s + 3.0]) {
            emit_all.push(f_all.total_samples());
        }
    }
    let mut f_block = FrameAssembler::new();
    let mut emit_block = Vec::new();
    let mut n = 0;
    let chunks = [17usize, 103, 7, 512, 31, 256, 900, 37, 100];
    'outer: loop {
        for chunk in chunks {
            for _ in 0..chunk {
                if n >= n_samples {
                    break 'outer;
                }
                let s = (n * 7 % 1000) as f32;
                if f_block.push([s, s + 1.0, s + 2.0, s + 3.0]) {
                    emit_block.push(f_block.total_samples());
                }
                n += 1;
            }
        }
    }
    assert_eq!(emit_all, emit_block);
}

fn signal(frames: usize) -> Vec<i16> {
    (0..frames * MIC_COUNT).map(|n| (n * 31 % 2003) as i16).collect()
}

#[test]
fn processor_block_size_consistency() {
    let signal = signal(9600);
    let mut p_all = DoaProcessor::new(DoaConfig::default()).unwrap();
    let r_all = p_all.push_interleaved(&signal).unwrap();
    let mut p_block = DoaProcessor::new(DoaConfig::default()).unwrap();
    let mut r_block = Vec::new();
    let mut idx = 0usize;
    for chunk in [8usize, 300, 44, 1024, 12, 200, 512, 40, 96].into_iter().cycle() {
        if idx >= signal.len() {
            break;
        }
        let end = (idx + chunk).min(signal.len());
        r_block.extend(p_block.push_interleaved(&signal[idx..end]).unwrap());
        idx = end;
    }
    assert_eq!(r_all.len(), r_block.len());
    for (a, b) in r_all.iter().zip(r_block.iter()) {
        assert_eq!((a.end_sample, a.emit), (b.end_sample, b.emit));
        assert_eq!(a.channels, b.channels);
    }
    // Two windows fill the averages; results come from 1024 samples on, 256 apart.
    assert!(!r_all[0].emit && !r_all[1].emit && r_all[2].emit);
    let ends: Vec<u64> = r_all.iter().filter(|f| f.emit).map(|f| f.end_sample).collect();
    assert_eq!(ends[0], 1024);
    assert!(ends.windows(2).all(|w| w[1] - w[0] == 256));
    assert_eq!(r_all[0].channels[1][0], signal[1]);
}

#[test]
fn rejects_non_multiple_of_4() {
    let mut p = DoaProcessor::new(DoaConfig::default()).unwrap();
    assert!(p.push_interleaved(&[0i16, 1, 2]).is_err());
    assert_eq!(
        p.push_interleaved(&[0i16, 1, 2]).unwrap_err(),
        "DOA 输入长度 3 不是 4 的整数倍（mic 通道数）"
    );
}

#[test]
fn config_validation() {
    assert!(DoaConfig { beta: s(1.5), ..DoaConfig::default() }.validate().is_err());
    assert!(DoaConfig { cpsd_tau_ms: s(0.0), ..DoaConfig::default() }.validate().is_err());
    assert!(DoaConfig {
        acquire_confidence: s(0.4),
        update_confidence: s(0.6),
        ..DoaConfig::default()
    }
    .validate()
    .is_err());
    assert!(DoaConfig { beta: s(f32::NAN), ..DoaConfig::default() }.validate().is_err());
    assert!(DoaConfig::default().validate().is_ok());
    assert!(DoaProcessor::new(DoaConfig { beta: s(-1.0), ..DoaConfig::default() }).is_err());
}

#[test]
fn each_problem_of_the_estimator_is_told() {
    let with = |change: fn(&mut DoaConfig)| {
        let mut cfg = DoaConfig::default();
        change(&mut cfg);
        cfg.validate().unwrap_err()
    };
    assert_eq!(with(|c| c.sample_rate = 8000), DoaConfigError::SampleRate(8000));
    assert_eq!(with(|c| c.beta = s(1.5)), DoaConfigError::Beta(s(1.5)));
    assert_eq!(with(|c| c.cpsd_tau_ms = s(-1.0)), DoaConfigError::CpsdTau(s(-1.0)));
    assert_eq!(
        with(|c| c.acquire_confidence = s(1.5)),
        DoaConfigError::AcquireConfidence(s(1.5))
    );
    assert_eq!(
        with(|c| c.update_confidence = s(-0.5)),
        DoaConfigError::UpdateConfidence(s(-0.5))
    );
    assert_eq!(
        with(|c| c.update_confidence = s(0.7)),
        DoaConfigError::UpdateAboveAcquire { update: s(0.7), acquire: s(0.65) }
    );
    assert_eq!(with(|c| c.max_coast_ms = 0), DoaConfigError::MaxCoastZero);
    assert_eq!(
        with(|c| c.angle_offset_deg = s(f32::INFINITY)),
        DoaConfigError::NotFinite
    );
}

#[test]
fn acquire_gate() {
    let mut t = tracker();
    t.update(near(0.9));
    t.update(near(0.9));
    assert_eq!(t.status(), TrackStatus::Searching);
    assert!(!t.tracking());
    let step = t.update(near(0.9));
    assert_eq!(t.status(), TrackStatus::Tracking);
    assert_eq!(step.filter, FilterEffect::Begin);
    assert_eq!(step.acquire, RunEffect::Complete);

    let mut t2 = tracker();
    t2.update(near(0.9));
    t2.update(near(0.5));
    t2.update(near(0.9));
    t2.update(near(0.9));
    assert_eq!(t2.status(), TrackStatus::Searching, "计数应被低置信度重置");

    let mut t3 = tracker();
    let far = Some(GateObservation { near_acquire: false, ..near(0.9).unwrap() });
    t3.update(near(0.9));
    t3.update(far);
    t3.update(far);
    assert_eq!(t3.status(), TrackStatus::Searching);
}

#[test]
fn a_frame_without_an_observation_begins_the_acquisition_anew() {
    let mut t = tracker();
    t.update(near(0.9));
    t.update(near(0.9));
    assert_eq!(t.update(None).acquire, RunEffect::Clear);
    let step = t.update(near(0.9));
    assert!(!step.observation_used());
    assert_eq!(t.status(), TrackStatus::Searching);
    t.update(near(0.9));
    assert_eq!(t.update(near(0.9)).filter, FilterEffect::Begin);
}

#[test]
fn a_frame_without_an_observation_begins_the_jump_anew() {
    let mut t = tracker();
    for _ in 0..3 {
        t.update(near(0.9));
    }
    let jump = Some(GateObservation { near_prediction: false, ..near(0.9).unwrap() });
    t.update(jump);
    t.update(jump);
    assert_eq!(t.update(None).jump, RunEffect::Clear);
    assert_eq!(t.update(jump).filter, FilterEffect::Damp);
    assert_eq!(t.update(jump).filter, FilterEffect::Damp);
    assert_eq!(t.update(jump).filter, FilterEffect::Begin);
}

#[test]
fn a_track_lasts_to_the_coasting_limit() {
    let mut t = GateTracker::new(s(0.65), s(0.40), 32);
    for _ in 0..3 {
        t.update(near(0.9));
    }
    assert_eq!(t.update(None).filter, FilterEffect::Damp);
    assert_eq!(t.update(None).filter, FilterEffect::Damp);
    assert_eq!((t.status(), t.coast_ms), (TrackStatus::Coasting, 32));
    assert_eq!(t.update(None).filter, FilterEffect::Drop);
    assert_eq!(t.status(), TrackStatus::Searching);
}

#[test]
fn large_jump_resets_after_three() {
    let mut t = tracker();
    for _ in 0..10 {
        t.update(near(0.9));
    }
    assert_eq!(t.status(), TrackStatus::Tracking);
    let jump = Some(GateObservation { near_prediction: false, ..near(0.9).unwrap() });
    for _ in 0..2 {
        let step = t.update(jump);
        assert_ne!(step.filter, FilterEffect::Begin, "前两次跳变观测不应立即重置");
        assert!(t.tracking());
    }
    let step = t.update(jump);
    assert_eq!(step.filter, FilterEffect::Begin);
    assert_eq!(step.jump, RunEffect::Complete);
    assert_eq!(t.status(), TrackStatus::Tracking);
}

#[test]
fn coast_then_search() {
    let mut t = tracker();
    for _ in 0..3 {
        t.update(near(0.9));
    }
    assert_eq!(t.status(), TrackStatus::Tracking);
    let frames_500ms = 500 / 16;
    for i in 0..frames_500ms + 5 {
        let step = t.update(near(0.05));
        assert!(!step.observation_used());
        if i < frames_500ms {
            assert_eq!(t.status(), TrackStatus::Coasting, "第 {i} 帧应处于 Coasting");
            assert!(t.tracking(), "coast 期间应保留预测角度");
        }
    }
    assert_eq!(t.status(), TrackStatus::Searching, "超过 500ms 应回到 Searching");
    assert!(!t.tracking());
}

#[test]
fn low_confidence_never_updates() {
    let mut t = tracker();
    for _ in 0..3 {
        t.update(near(0.9));
    }
    assert_eq!(t.status(), TrackStatus::Tracking);
    for _ in 0..5 {
        let step = t.update(Some(GateObservation {
            near_prediction: false,
            ..near(0.1).unwrap()
        }));
        assert!(!step.observation_used());
    }
}

#[test]
fn peaks_are_found_around_the_circle() {
    let mut scores: Vec<Single> = (0..ANGLE_COUNT).map(|_| s(0.0)).collect();
    scores[0] = s(5.0);
    scores[5] = s(4.0);
    scores[100] = s(3.0);
    let peaks = find_peaks(&scores).unwrap();
    assert_eq!(peaks.peak_index, 0);
    assert_eq!((peaks.before_peak, peaks.after_peak), (359, 1));
    assert_eq!(peaks.second_index, 100);
    scores[7] = s(f32::NAN);
    assert!(find_peaks(&scores).is_none());
}

#[test]
fn medians_are_the_upper_middle() {
    let values: Vec<Single> = [3.0f32, -1.0, 2.0, 10.0].iter().map(|v| s(*v)).collect();
    assert_eq!(sorted(&values), [s(-1.0), s(2.0), s(3.0), s(10.0)]);
    assert_eq!(median(&values), s(3.0));
    assert_eq!(median(&values[..3]), s(2.0));
}

#[test]
fn console_lines_are_a_tenth_of_a_second_apart() {
    let mut limiter = ConsoleLimiter::new();
    let printed: Vec<u64> = (0..20).map(|k| 1024 + 256 * k).filter(|p| limiter.due(*p)).collect();
    assert_eq!(printed, [1024, 2816, 4608]);
    assert_eq!(status_str(TrackStatus::Coasting), "coasting");
    assert_eq!(status_str(TrackStatus::Searching), "searching");
    assert_eq!(status_str(TrackStatus::Tracking), "tracking");
    assert!(csv_header().starts_with("time_ms,raw_deg,tracked_deg,confidence"));
}

#[test]
fn angles_are_brought_onto_the_circle() {
    let wrapped = |deg: f32| f32::from_bits(wrap_360(s(deg)).bits);
    assert_eq!(wrapped(370.0), 10.0);
    assert_eq!(wrapped(-10.0), 350.0);
    assert_eq!(wrapped(720.5), 0.5);
    assert_eq!(wrapped(359.99997), 359.99997);
    assert_eq!(wrapped(360.0), 0.0);
    assert_eq!(wrapped(-360.0).to_bits(), (-0.0f32).to_bits());
    assert_eq!(wrapped(-1e-10).to_bits(), 0);
    assert!(wrapped(f32::NAN).is_nan());
    assert!(wrapped(f32::INFINITY).is_nan() && wrapped(f32::NEG_INFINITY).is_nan());
}

#[test]
fn wrapping_agrees_with_the_remainder() {
    let mut bits = 1u32;
    for n in 0..200_000u32 {
        bits = bits.wrapping_mul(1_664_525).wrapping_add(1_013_904_223);
        // Every third number is of the size of an angle.
        let pattern = match n % 3 {
            0 => (bits & 0x807F_FFFF) | ((0x7B + bits % 16) << 23),
            _ => bits,
        };
        let deg = f32::from_bits(pattern);
        let wrapped = f32::from_bits(wrap_360(Single { bits: pattern }).bits);
        let expected = deg.rem_euclid(360.0);
        if expected.is_nan() {
            assert!(wrapped.is_nan(), "{deg}");
        } else if expected == 360.0 {
            assert_eq!(wrapped.to_bits(), 0, "{deg}");
        } else {
            assert_eq!(wrapped.to_bits(), expected.to_bits(), "{deg}");
        }
    }
}

#[test]
fn bins_beyond_the_transform_do_not_vote() {
    for bin in [258, 10_000, usize::MAX] {
        assert!(!is_band_active(0, bin) && !is_band_active(1, bin));
        assert_eq!(band_zone(0, bin), BandZone::Outside);
    }
}

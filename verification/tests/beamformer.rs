use respeaker_algo::beamformer::stft::BeamformerStft;
use respeaker_algo::beamformer::weights::{
    angle_index, bin_plan, decide_bin, lut_index, mix_zone, next_blend, BinDecision, BinOutcome,
    BinPlan, BlendMove, LoadingSearch, LutBuilder, MixZone, SearchMove, Trial,
};
use respeaker_algo::beamformer::{
    interleave_stereo, saturate, saturate_all, select_target_angle, wav_channels,
    BeamformerAlgorithm, BeamformerConfig, BeamformerConfigError, BeamformerDirectionSource,
    BeamformerField, BeamformerRuntime,
};
use respeaker_algo::doa::tracker::TrackStatus;
use respeaker_algo::doa::{DoaResult, ANGLE_COUNT, FFT_BINS, HOP_SIZE, MIC_COUNT};
use respeaker_algo::single::Single;

fn s(value: f32) -> Single {
    Single { bits: value.to_bits() }
}

fn value(single: Single) -> f32 {
    f32::from_bits(single.bits)
}

fn config() -> BeamformerConfig {
    BeamformerConfig {
        direction_source: BeamformerDirectionSource::Doa,
        direction_smoothing_ms: s(0.0),
        wav: false,
        algorithm: BeamformerAlgorithm::DelaySum,
        ..BeamformerConfig::default()
    }
}

fn runtime(config: BeamformerConfig) -> BeamformerRuntime {
    BeamformerRuntime::new(config, 0, s(0.0)).unwrap()
}

fn dummy_doa(
    status: TrackStatus,
    tracked_internal: Option<f32>,
    tracked_external: Option<f32>,
) -> DoaResult {
    DoaResult {
        end_sample: 1024,
        raw_internal_deg: tracked_internal.map(s),
        tracked_internal_deg: tracked_internal.map(s),
        raw_angle_deg: tracked_external.map(s),
        tracked_angle_deg: tracked_external.map(s),
        confidence: s(0.9),
        status,
        observation_used: true,
        peak_score: s(1.0),
        second_peak_score: s(0.1),
        peak_gap_ratio: s(0.9),
        prominence: s(0.5),
        mean_msc: s(0.5),
        rms_dbfs: s(-20.0),
    }
}

#[test]
fn fixed_bf_rejects_wrong_input_length() {
    let mut rt = runtime(config());
    assert!(rt.push_block(&[0i16; 3]).is_err());
    assert!(rt.push_block(&[0i16; 5]).is_err());
    assert_eq!(rt.push_block(&[0i16; 5]).unwrap_err(), "BF 输入长度 5 不是 4 的整数倍");
}

#[test]
fn doa_source_uses_tracking_and_coasting() {
    let cfg = BeamformerConfig { fallback_internal_angle_deg: s(10.0), ..config() };
    let tracking = dummy_doa(TrackStatus::Tracking, Some(123.0), Some(999.0));
    assert!((value(select_target_angle(&cfg, Some(&tracking))) - 123.0).abs() < 1e-5);
    let coasting = dummy_doa(TrackStatus::Coasting, Some(200.0), Some(1.0));
    assert!((value(select_target_angle(&cfg, Some(&coasting))) - 200.0).abs() < 1e-5);
}

#[test]
fn doa_source_falls_back_while_searching() {
    let cfg = BeamformerConfig { fallback_internal_angle_deg: s(33.0), ..config() };
    let searching = dummy_doa(TrackStatus::Searching, Some(90.0), Some(90.0));
    assert!((value(select_target_angle(&cfg, Some(&searching))) - 33.0).abs() < 1e-5);
    assert!((value(select_target_angle(&cfg, None)) - 33.0).abs() < 1e-5);
}

#[test]
fn beamformer_uses_fallback_before_first_doa_result() {
    let cfg = BeamformerConfig { fallback_internal_angle_deg: s(77.0), ..config() };
    assert!((value(select_target_angle(&cfg, None)) - 77.0).abs() < 1e-3);
    let nothing = dummy_doa(TrackStatus::Tracking, None, Some(1.0));
    assert!((value(select_target_angle(&cfg, Some(&nothing))) - 77.0).abs() < 1e-3);
}

#[test]
fn directions_lie_on_the_circle() {
    let cfg = BeamformerConfig { fallback_internal_angle_deg: s(370.0), ..config() };
    assert_eq!(value(select_target_angle(&cfg, None)), 10.0);
    let tracking = dummy_doa(TrackStatus::Tracking, Some(-90.0), None);
    assert_eq!(value(select_target_angle(&cfg, Some(&tracking))), 270.0);
}

#[test]
fn beamformer_never_uses_viewer_or_external_angle() {
    let cfg = BeamformerConfig { fallback_internal_angle_deg: s(0.0), ..config() };
    let doa = dummy_doa(TrackStatus::Tracking, Some(40.0), Some(220.0));
    let target = value(select_target_angle(&cfg, Some(&doa)));
    assert!((target - 40.0).abs() < 1e-5);
    assert!((target - 220.0).abs() > 1.0);
}

#[test]
fn config_validate_frequency_and_wng() {
    let mut cfg = BeamformerConfig::default();
    assert!(cfg.validate().is_ok());
    cfg.min_wng_db = s(7.0);
    assert!(cfg.validate().is_err());
    cfg.min_wng_db = s(3.0);
    cfg.sd_low_full_hz = s(100.0);
    assert!(cfg.validate().is_err());
    cfg.sd_low_full_hz = s(500.0);
    cfg.output_gain_db = s(20.0);
    assert!(cfg.validate().is_ok());
    cfg.output_gain_db = s(25.0);
    assert!(cfg.validate().is_err());
    let _ = FFT_BINS;
}

#[test]
fn each_problem_of_a_configuration_is_told() {
    let with = |change: fn(&mut BeamformerConfig)| {
        let mut cfg = BeamformerConfig::default();
        change(&mut cfg);
        cfg.validate().unwrap_err()
    };
    assert_eq!(
        with(|c| c.sd_high_end_hz = s(f32::NAN)),
        BeamformerConfigError::NotFinite(BeamformerField::SdHighEndHz)
    );
    assert_eq!(BeamformerField::SdHighEndHz.name(), "sd_high_end_hz");
    assert_eq!(
        with(|c| c.direction_smoothing_ms = s(-1.0)),
        BeamformerConfigError::Smoothing(s(-1.0))
    );
    assert_eq!(with(|c| c.min_wng_db = s(7.0)), BeamformerConfigError::MinWng(s(7.0)));
    assert!(matches!(
        with(|c| c.sd_high_end_hz = s(9000.0)),
        BeamformerConfigError::Band { .. }
    ));
    assert_eq!(
        with(|c| c.output_gain_db = s(25.0)),
        BeamformerConfigError::OutputGain(s(25.0))
    );
}

#[test]
fn samples_are_cut_off_and_counted() {
    let mut clipped = 0;
    assert_eq!(saturate(40_000, &mut clipped), i16::MAX);
    assert_eq!(saturate(-40_000, &mut clipped), i16::MIN);
    assert_eq!(saturate(32_767, &mut clipped), i16::MAX);
    assert_eq!(saturate(-32_768, &mut clipped), i16::MIN);
    assert_eq!(clipped, 2);
    assert_eq!(saturate_all(&[1, 70_000, -2], &mut clipped), [1, i16::MAX, -2]);
    assert_eq!(clipped, 3);
    assert_eq!(interleave_stereo(&[1, 2], &[3, 4]), [1, 3, 2, 4]);
}

#[test]
fn comparison_files_have_two_channels() {
    assert_eq!(wav_channels(&BeamformerConfig::default()), 1);
    let both = BeamformerConfig { compare_wav: true, ..BeamformerConfig::default() };
    assert_eq!(wav_channels(&both), 2);
}

/// Runs a recording whose computed output is the first microphone, and returns output and input.
fn run(frames: usize, block: usize, compare: bool) -> (Vec<i16>, Vec<i16>, BeamformerRuntime) {
    let mut rt = runtime(BeamformerConfig { compare_wav: compare, ..config() });
    let mut output = Vec::new();
    let mut input = Vec::new();
    // The output of a hop is that of the hop before: one hop of delay.
    let mut last = vec![0i16; HOP_SIZE];
    let samples: Vec<i16> =
        (0..frames).flat_map(|n| [n as i16, 0, 0, 0]).collect();
    for part in samples.chunks(block * MIC_COUNT) {
        for hop in rt.push_block(part).unwrap() {
            let ready = rt.on_hop(&last);
            output.extend(ready.output);
            input.extend(ready.input);
            last = hop[0].clone();
        }
    }
    for hop in rt.finalize() {
        output.extend(&last[hop.skip..hop.skip + hop.keep]);
        input.extend(&hop.input);
        last = hop.channels[0].clone();
    }
    (output, input, rt)
}

#[test]
fn output_has_the_length_of_the_input() {
    for frames in [0usize, 1, 100, 256, 257, 511, 512, 1000, 4096] {
        let (output, input, rt) = run(frames, 100, true);
        let expected: Vec<i16> = (0..frames as i16).collect();
        assert_eq!(output, expected, "{frames}");
        assert_eq!(input, expected, "{frames}");
        assert_eq!(rt.stats().output_frames, rt.stats().input_frames);
        assert_eq!(rt.stats().input_frames, frames as u64);
    }
    assert!(run(300, 7, false).1.is_empty());
    assert_eq!(run(1000, 1, true).0, run(1000, 1000, true).0);
}

#[test]
fn finished_streams_take_no_more() {
    let (_, _, mut rt) = run(10, 10, false);
    assert_eq!(rt.push_block(&[0; 4]).unwrap_err(), "BeamformerRuntime 已 finalize");
    let before = rt.stats();
    assert!(rt.finalize().is_empty());
    assert!(rt.finalize().is_empty());
    assert_eq!(rt.stats(), before);
    assert_eq!((before.input_frames, before.output_frames), (10, 10));
    rt.add_clipped(3);
    assert_eq!(rt.stats().clipped_samples, 3);
    let mut stft = BeamformerStft::new(0i16);
    stft.flush_zeros();
    assert_eq!(stft.push_frame([0; 4]).unwrap_err(), "BeamformerStft 已 finalize");
}

#[test]
fn invalid_configurations_make_no_runtime() {
    let bad = BeamformerConfig { min_wng_db: s(9.0), ..BeamformerConfig::default() };
    assert!(BeamformerRuntime::new(bad, 0, s(0.0)).is_err());
}

#[test]
fn zones_have_the_boundaries_of_the_mix() {
    let zone = |f: f32| mix_zone(s(f), s(350.0), s(500.0), s(2500.0), s(3500.0));
    assert_eq!(zone(0.0), MixZone::Outside);
    assert_eq!(zone(350.0), MixZone::Outside);
    assert_eq!(zone(425.0), MixZone::Rising);
    assert_eq!(zone(500.0), MixZone::Full);
    assert_eq!(zone(1000.0), MixZone::Full);
    assert_eq!(zone(2500.0), MixZone::Full);
    assert_eq!(zone(3000.0), MixZone::Falling);
    assert_eq!(zone(3500.0), MixZone::Outside);
    assert_eq!(zone(8000.0), MixZone::Outside);
}

#[test]
fn first_and_last_bins_are_special() {
    let sd = BeamformerAlgorithm::RobustSuperdirective;
    assert_eq!(bin_plan(FFT_BINS - 1, sd, s(1.0)), BinPlan::Zero);
    assert_eq!(bin_plan(0, sd, s(1.0)), BinPlan::Average);
    assert_eq!(bin_plan(5, sd, s(0.0)), BinPlan::DelaySum);
    assert_eq!(bin_plan(5, sd, s(0.5)), BinPlan::Superdirective);
    assert_eq!(bin_plan(5, BeamformerAlgorithm::DelaySum, s(1.0)), BinPlan::DelaySum);
}

#[test]
fn failed_bins_fall_back_and_are_counted() {
    let outcome = |found, passes| BinOutcome { superdirective_found: found, passes };
    let decided = |plan, o| {
        let d: BinDecision = decide_bin(plan, o);
        (d.weights, d.fallbacks)
    };
    let sd = BinPlan::Superdirective;
    assert_eq!(decided(sd, outcome(true, true)), (sd, 0));
    assert_eq!(decided(sd, outcome(true, false)), (BinPlan::DelaySum, 1));
    assert_eq!(decided(sd, outcome(false, true)), (BinPlan::DelaySum, 1));
    assert_eq!(decided(sd, outcome(false, false)), (BinPlan::DelaySum, 2));
    assert_eq!(decided(BinPlan::DelaySum, outcome(false, false)), (BinPlan::DelaySum, 1));
    assert_eq!(decided(BinPlan::Zero, outcome(false, false)), (BinPlan::Zero, 0));
}

#[test]
fn loading_is_raised_and_then_halved() {
    let mut search = LoadingSearch::new();
    assert_eq!(search.advance(Trial::Meets, false), SearchMove::TakeThis);
    let mut search = LoadingSearch::new();
    assert_eq!(search.advance(Trial::Short, false), SearchMove::Raise);
    assert_eq!(search.advance(Trial::Short, false), SearchMove::Raise);
    assert_eq!(search.advance(Trial::Meets, false), SearchMove::Halve);
    for _ in 0..31 {
        assert_eq!(search.advance(Trial::Short, false), SearchMove::Halve);
    }
    assert_eq!(search.advance(Trial::Meets, false), SearchMove::TakeBest);
    assert_eq!(search.advance(Trial::Meets, false), SearchMove::GiveUp);
    let mut search = LoadingSearch::new();
    search.advance(Trial::Short, false);
    assert_eq!(search.advance(Trial::Short, true), SearchMove::GiveUp);
    let mut search = LoadingSearch::new();
    assert_eq!(search.advance(Trial::Failed, false), SearchMove::GiveUp);
}

#[test]
fn blends_give_up_their_share_step_by_step() {
    assert_eq!(next_blend(0, Trial::Meets, false), BlendMove::Take);
    assert_eq!(next_blend(0, Trial::Short, false), BlendMove::HalveShare);
    assert_eq!(next_blend(0, Trial::Short, true), BlendMove::DelaySum);
    assert_eq!(next_blend(3, Trial::Failed, true), BlendMove::HalveShare);
    assert_eq!(next_blend(32, Trial::Failed, false), BlendMove::DelaySum);
}

#[test]
fn tables_are_filled_angle_by_angle() {
    let mut builder = LutBuilder::new();
    let mut n = 0u32;
    for _ in 0..ANGLE_COUNT {
        for bin in 0..FFT_BINS {
            let plan = bin_plan(bin, BeamformerAlgorithm::DelaySum, s(0.0));
            let decision =
                decide_bin(plan, BinOutcome { superdirective_found: false, passes: true });
            builder.add_bin(decision, [n, n + 1, n + 2, n + 3], s(6.0 - (bin as f32) / 1000.0));
            n += 4;
        }
    }
    let table = builder.finish().unwrap();
    assert_eq!(table.bin_weights(3, 7), {
        let at = lut_index(3, 7, 0) as u32;
        [at, at + 1, at + 2, at + 3]
    });
    assert_eq!(table.weights_for(-1)[0], lut_index(359, 0, 0) as u32);
    assert_eq!(table.weights_for(361)[5], lut_index(1, 1, 1) as u32);
    assert_eq!(table.das_fallback_bins, 0);
    // The highest bin does not count towards the lowest gain.
    assert_eq!(table.min_generated_wng_db, s(6.0 - 255.0 / 1000.0));
    assert!(LutBuilder::<u32>::new().finish().is_none());
}

#[test]
fn angles_are_taken_around_the_circle() {
    assert_eq!(angle_index(0), 0);
    assert_eq!(angle_index(359), 359);
    assert_eq!(angle_index(360), 0);
    assert_eq!(angle_index(-1), 359);
    assert_eq!(angle_index(-720), 0);
    assert_eq!(angle_index(i64::MIN), i64::MIN.rem_euclid(360) as usize);
}

#[test]
fn hops_are_the_same_however_the_stream_is_cut() {
    let stream: Vec<i16> = (0..700 * MIC_COUNT).map(|i| (i % 9973) as i16).collect();
    let whole = runtime(config()).push_block(&stream).unwrap();
    for block in [1usize, 7, 256, 300] {
        let mut cut = runtime(config());
        let mut hops = Vec::new();
        for part in stream.chunks(block * MIC_COUNT) {
            hops.extend(cut.push_block(part).unwrap());
        }
        assert_eq!(hops, whole);
    }
    assert_eq!(whole.len(), 2);
    assert_eq!(whole[1][2][5], stream[(HOP_SIZE + 5) * MIC_COUNT + 2]);
}

#[test]
fn the_end_keeps_what_is_missing() {
    let mut short = runtime(config());
    short.push_block(&[1i16; 10 * MIC_COUNT]).unwrap();
    let plan = short.finalize();
    let parts: Vec<_> = plan.iter().map(|hop| (hop.skip, hop.keep)).collect();
    assert_eq!(parts, vec![(HOP_SIZE, 0), (0, 10)]);
    let mut longer = runtime(config());
    for hop in longer.push_block(&[1i16; 300 * MIC_COUNT]).unwrap() {
        longer.on_hop(&hop[0]);
    }
    let plan = longer.finalize();
    let parts: Vec<_> = plan.iter().map(|hop| (hop.skip, hop.keep)).collect();
    assert_eq!(parts, vec![(0, HOP_SIZE), (0, 44)]);
    assert!(runtime(config()).finalize().is_empty());
}

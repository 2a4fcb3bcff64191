use respeaker_algo::app_config::{preset_bf_fixed, preset_doa, preset_doa_bf};
use respeaker_algo::beamformer::{
    BeamformerAlgorithm, BeamformerConfig, BeamformerConfigError, BeamformerDirectionSource,
};
use respeaker_algo::doa::tracker::TrackStatus;
use respeaker_algo::doa::{
    make_result, DisplayedAngles, DoaConfig, DoaConfigError, DoaProcessor, TrackReport,
};
use respeaker_algo::pipeline::{
    keep_first, make_output_path, plan_pipeline, ModuleConfig, ModulePlan, PipelineConfig,
    PipelineConfigError, PipelineInputBlock, PipelineState,
};
use respeaker_algo::single::Single;

fn s(value: f32) -> Single {
    Single { bits: value.to_bits() }
}

fn config(modules: Vec<ModuleConfig>) -> PipelineConfig {
    PipelineConfig { version: 1, modules }
}

fn doa() -> ModuleConfig {
    ModuleConfig::default_doa()
}

fn doa_viewer(viewer: bool) -> ModuleConfig {
    let mut module = doa();
    if let ModuleConfig::Doa { enable_viewer, .. } = &mut module {
        *enable_viewer = viewer;
    }
    module
}

fn disabled_doa() -> ModuleConfig {
    let mut module = doa();
    if let ModuleConfig::Doa { enabled, .. } = &mut module {
        *enabled = false;
    }
    module
}

fn beamformer() -> ModuleConfig {
    ModuleConfig::default_beamformer()
}

fn fixed_beamformer() -> ModuleConfig {
    let mut module = beamformer();
    if let ModuleConfig::Beamformer { direction_source, .. } = &mut module {
        *direction_source = BeamformerDirectionSource::Fixed;
    }
    module
}

#[test]
fn bundled_doa_config_is_valid() {
    preset_doa().pipeline.validate().unwrap();
}

#[test]
fn bundled_doa_bf_and_fixed_configs_are_valid() {
    preset_doa_bf().pipeline.validate().unwrap();
    preset_bf_fixed().pipeline.validate().unwrap();
}

#[test]
fn empty_module_list_is_allowed() {
    config(vec![]).validate().unwrap();
    PipelineConfig::empty().validate().unwrap();
}

#[test]
fn doa_fields_use_defaults() {
    let config = config(vec![doa()]);
    config.validate().unwrap();
    let ModuleConfig::Doa {
        enabled,
        enable_viewer,
        csv,
        beta,
        cpsd_tau_ms,
        acquire_confidence,
        update_confidence,
        max_coast_ms,
        ..
    } = &config.modules[0]
    else {
        panic!("expected doa");
    };
    let defaults = DoaConfig::default();
    assert!(*enabled);
    assert!(*enable_viewer);
    assert!(!csv);
    assert_eq!(*beta, defaults.beta);
    assert_eq!(*cpsd_tau_ms, defaults.cpsd_tau_ms);
    assert_eq!(*acquire_confidence, defaults.acquire_confidence);
    assert_eq!(*update_confidence, defaults.update_confidence);
    assert_eq!(*max_coast_ms, defaults.max_coast_ms);
}

#[test]
fn beamformer_omitted_fields_match_documented_defaults() {
    let config = config(vec![fixed_beamformer()]);
    config.validate().unwrap();
    let ModuleConfig::Beamformer {
        enabled,
        algorithm,
        direction_source,
        fixed_internal_angle_deg,
        fallback_internal_angle_deg,
        direction_smoothing_ms,
        min_wng_db,
        sd_low_start_hz,
        sd_low_full_hz,
        sd_high_full_hz,
        sd_high_end_hz,
        output_gain_db,
        wav,
        compare_wav,
        enable_drc,
    } = &config.modules[0]
    else {
        panic!("expected beamformer");
    };
    let d = BeamformerConfig::default();
    assert!(*enabled);
    assert_eq!(*algorithm, d.algorithm);
    assert_eq!(*direction_source, BeamformerDirectionSource::Fixed);
    assert_eq!(*fixed_internal_angle_deg, d.fixed_internal_angle_deg);
    assert_eq!(*fallback_internal_angle_deg, d.fallback_internal_angle_deg);
    assert_eq!(*direction_smoothing_ms, d.direction_smoothing_ms);
    assert_eq!(*min_wng_db, d.min_wng_db);
    assert_eq!(*sd_low_start_hz, d.sd_low_start_hz);
    assert_eq!(*sd_low_full_hz, d.sd_low_full_hz);
    assert_eq!(*sd_high_full_hz, d.sd_high_full_hz);
    assert_eq!(*sd_high_end_hz, d.sd_high_end_hz);
    assert_eq!(*output_gain_db, d.output_gain_db);
    assert_eq!(*wav, d.wav);
    assert_eq!(*compare_wav, d.compare_wav);
    assert!(!d.compare_wav);
    assert_eq!(*enable_drc, d.enable_drc);
    assert!(d.enable_drc);
}

#[test]
fn beamformer_validate_passes_through_algorithm_wav_and_compare() {
    let mut module = fixed_beamformer();
    if let ModuleConfig::Beamformer { algorithm, wav, compare_wav, enable_drc, .. } = &mut module {
        *algorithm = BeamformerAlgorithm::RobustSuperdirective;
        *wav = false;
        *compare_wav = true;
        *enable_drc = true;
    }
    let config = config(vec![module]);
    config.validate().unwrap();
    let plan = plan_pipeline(&config, "out", "p");
    match &plan.modules[0] {
        ModulePlan::Beamformer { beamformer, wav_path } => {
            assert_eq!(beamformer.algorithm, BeamformerAlgorithm::RobustSuperdirective);
            assert!(!beamformer.wav);
            assert!(beamformer.compare_wav);
            assert!(beamformer.enable_drc);
            assert!(wav_path.is_none());
        }
        _ => panic!("expected beamformer"),
    }
}

#[test]
fn rejects_invalid_version_unknown_module_duplicate_and_invalid_doa() {
    let mut bad_doa = doa();
    if let ModuleConfig::Doa { beta, .. } = &mut bad_doa {
        *beta = s(1.5);
    }
    let mut bad_band = fixed_beamformer();
    if let ModuleConfig::Beamformer { sd_low_start_hz, sd_low_full_hz, .. } = &mut bad_band {
        *sd_low_start_hz = s(600.0);
        *sd_low_full_hz = s(500.0);
    }
    let version_2 = PipelineConfig { version: 2, modules: vec![] };
    assert_eq!(version_2.validate(), Err(PipelineConfigError::Version(2)));
    assert_eq!(config(vec![doa(), doa()]).validate(), Err(PipelineConfigError::DuplicateDoa));
    assert_eq!(
        config(vec![bad_doa]).validate(),
        Err(PipelineConfigError::Doa(DoaConfigError::Beta(s(1.5))))
    );
    assert_eq!(
        config(vec![beamformer()]).validate(),
        Err(PipelineConfigError::DirectionNeedsDoa)
    );
    assert_eq!(
        config(vec![fixed_beamformer(), fixed_beamformer()]).validate(),
        Err(PipelineConfigError::DuplicateBeamformer)
    );
    assert!(config(vec![beamformer(), fixed_beamformer()]).validate().is_err());
    assert!(matches!(
        config(vec![bad_band]).validate(),
        Err(PipelineConfigError::Beamformer(BeamformerConfigError::Band { .. }))
    ));
}

#[test]
fn fixed_beamformer_without_doa_is_allowed() {
    let mut module = fixed_beamformer();
    if let ModuleConfig::Beamformer { algorithm, .. } = &mut module {
        *algorithm = BeamformerAlgorithm::DelaySum;
    }
    config(vec![module]).validate().unwrap();
}

#[test]
fn doa_before_beamformer_is_allowed() {
    config(vec![doa_viewer(false), beamformer()]).validate().unwrap();
}

#[test]
fn disabled_modules_are_allowed() {
    config(vec![disabled_doa(), disabled_doa()]).validate().unwrap();
}

#[test]
fn pipeline_does_not_modify_recording_buffers() {
    let algo = vec![1i16; 100];
    let mic = vec![2i16; 400];
    let reference = vec![3i16; 100];
    let expected = (algo.clone(), mic.clone(), reference.clone());
    let block = PipelineInputBlock {
        start_frame: 0,
        frames: 100,
        algo: &algo,
        mic: &mic,
        reference: &reference,
    };
    block.validate().unwrap();
    let plan = plan_pipeline(&config(vec![doa_viewer(false)]), "target/out", "pipeline_test");
    let ModulePlan::Doa { doa, .. } = &plan.modules[0] else {
        panic!("expected doa");
    };
    let mut processor = DoaProcessor::new(*doa).unwrap();
    assert!(processor.push_interleaved(block.mic).unwrap().is_empty());
    assert_eq!(processor.framer.total_samples(), 100);
    assert_eq!((algo, mic, reference), expected);
}

#[test]
fn blocks_of_any_length_are_compared() {
    let (algo, mic, reference) = ([1i16; 2], [2i16; 8], [3i16; 2]);
    let block = |frames, algo, mic, reference| {
        PipelineInputBlock { start_frame: u64::MAX, frames, algo, mic, reference }.validate()
    };
    assert!(block(2, &algo[..], &mic[..], &reference[..]).is_ok());
    assert_eq!(
        block(usize::MAX, &algo[..], &mic[..], &reference[..]).unwrap_err(),
        format!("PipelineInputBlock algo 长度 2 != frames {}", usize::MAX)
    );
    assert_eq!(
        block(2, &algo[..], &mic[..7], &reference[..]).unwrap_err(),
        "PipelineInputBlock mic 长度 7 != frames*4 8"
    );
    assert_eq!(
        block(2, &algo[..], &mic[..], &reference[..1]).unwrap_err(),
        "PipelineInputBlock reference 长度 1 != frames 2"
    );
}

#[test]
fn web_viewer_follows_enabled_doa_module() {
    assert!(plan_pipeline(&config(vec![doa()]), "target/out", "web_enabled").viewer);
    assert!(!plan_pipeline(&config(vec![disabled_doa()]), "target/out", "web_disabled").viewer);
}

#[test]
fn enable_viewer_false_disables_viewer_service() {
    let config = config(vec![doa_viewer(false)]);
    let ModuleConfig::Doa { enabled, enable_viewer, .. } = &config.modules[0] else {
        panic!("expected doa");
    };
    assert!(*enabled);
    assert!(!*enable_viewer);
    assert!(!plan_pipeline(&config, "target/out", "browser_disabled").viewer);
}

#[test]
fn plans_hold_the_enabled_modules_in_order() {
    let mut with_csv = doa();
    if let ModuleConfig::Doa { csv, .. } = &mut with_csv {
        *csv = true;
    }
    let plan = plan_pipeline(&config(vec![disabled_doa(), with_csv, beamformer()]), "o", "p");
    assert_eq!(plan.modules.len(), 2);
    match &plan.modules[0] {
        ModulePlan::Doa { doa, csv_path } => {
            assert_eq!(*doa, DoaConfig::default());
            assert_eq!(csv_path.as_deref(), Some("o/p_respeaker_doa.csv"));
        }
        _ => panic!("expected doa"),
    }
    match &plan.modules[1] {
        ModulePlan::Beamformer { wav_path, .. } => {
            assert_eq!(wav_path.as_deref(), Some("o/p_respeaker_bf.wav"));
        }
        _ => panic!("expected beamformer"),
    }
    assert_eq!(make_output_path("a", "b", "c"), "a/bc");
}

#[test]
fn input_blocks_must_fit_their_frame_count() {
    let block = PipelineInputBlock {
        start_frame: 0,
        frames: 2,
        algo: &[0; 2],
        mic: &[0; 7],
        reference: &[0; 2],
    };
    let error = block.validate().unwrap_err();
    assert!(error.contains("mic") && error.contains('7') && error.contains('8'), "{error}");
    let block = PipelineInputBlock {
        start_frame: 0,
        frames: 2,
        algo: &[0; 1],
        mic: &[0; 8],
        reference: &[0; 2],
    };
    assert!(block.validate().unwrap_err().contains("algo"));
    let block = PipelineInputBlock {
        start_frame: 0,
        frames: 2,
        algo: &[0; 2],
        mic: &[0; 8],
        reference: &[0; 3],
    };
    assert!(block.validate().unwrap_err().contains("reference"));
}

#[test]
fn first_of_several_errors_is_kept() {
    let mut first = None;
    keep_first(&mut first, Ok(()));
    assert_eq!(first, None);
    keep_first(&mut first, Err("a".into()));
    keep_first(&mut first, Err("b".into()));
    assert_eq!(first.as_deref(), Some("a"));
}

#[test]
fn results_are_numbered_and_the_latest_is_kept() {
    let report = TrackReport {
        tracked_internal_deg: Some(s(10.0)),
        status: TrackStatus::Tracking,
        observation_used: false,
    };
    let angles = DisplayedAngles { raw_angle_deg: None, tracked_angle_deg: Some(s(20.0)) };
    let first = make_result(1024, None, report, angles, s(-60.0));
    let second = make_result(1280, None, report, angles, s(-50.0));
    assert_eq!(first.rms_dbfs, s(-60.0));
    assert_eq!(first.confidence, s(0.0));
    let mut state = PipelineState::new();
    assert!(state.latest_doa.is_none());
    assert_eq!(state.publish(first), 1);
    assert_eq!(state.publish(second), 2);
    assert_eq!(state.latest_doa, Some(second));
}

use respeaker_algo::app_config::{
    app_config_dir, app_config_path, default_app_version, default_out_dir, list_profiles,
    load_or_default, preset_bf_fixed, preset_doa, preset_doa_bf, preset_of, preset_pure, profile_path,
    profiles_dir, temporary_name, validate_prefix, validate_profile_name, AppConfig,
    AppConfigError, LoadOutcome, Preset, RecordingConfig, APP_CONFIG_VERSION,
};
use respeaker_algo::beamformer::{BeamformerAlgorithm, BeamformerDirectionSource};
use respeaker_algo::doa::DoaConfigError;
use respeaker_algo::pipeline::{ModuleConfig, PipelineConfig, PipelineConfigError};
use respeaker_algo::single::Single;

fn s(value: f32) -> Single {
    Single { bits: value.to_bits() }
}

fn pipeline(modules: Vec<ModuleConfig>) -> PipelineConfig {
    PipelineConfig { version: 1, modules }
}

fn doa_with_beta(value: f32) -> ModuleConfig {
    let mut module = ModuleConfig::default_doa();
    if let ModuleConfig::Doa { beta, .. } = &mut module {
        *beta = s(value);
    }
    module
}

fn app(modules: Vec<ModuleConfig>) -> AppConfig {
    AppConfig { pipeline: pipeline(modules), ..AppConfig::default() }
}

#[test]
fn default_config_is_pure_recording() {
    let config = AppConfig::default();
    assert_eq!(config.version, APP_CONFIG_VERSION);
    assert!(!config.pipeline_enabled);
    config.validate().unwrap();
    assert_eq!(config.clone().version, 1);
    assert_eq!(default_app_version(), 1);
    assert_eq!(default_out_dir(), "recordings");
}

#[test]
fn omitted_enable_drc_defaults_to_true() {
    let module = ModuleConfig::default_beamformer();
    match module {
        ModuleConfig::Beamformer { enable_drc, .. } => assert!(enable_drc),
        _ => panic!("expected beamformer"),
    }
}

#[test]
fn invalid_order_is_rejected_without_panicking() {
    let config = pipeline(vec![ModuleConfig::default_beamformer(), ModuleConfig::default_doa()]);
    assert!(config.validate().is_err());
}

#[test]
fn unknown_nan_and_inf_values_are_rejected() {
    assert!(app(vec![doa_with_beta(f32::NAN)]).validate().is_err());
    assert!(app(vec![doa_with_beta(f32::INFINITY)]).validate().is_err());
    assert!(app(vec![doa_with_beta(0.75)]).validate().is_ok());
}

#[test]
fn profile_names_reject_path_traversal() {
    for name in ["", "../evil", "a/b", "a\\b", "a..b", "a b", "a.toml"] {
        assert!(validate_profile_name(name).is_err(), "{name}");
    }
    assert!(validate_profile_name("valid_name-123").is_ok());
}

#[test]
fn presets_are_valid() {
    preset_pure().validate().unwrap();
    preset_doa().validate().unwrap();
    preset_doa_bf().validate().unwrap();
    preset_bf_fixed().validate().unwrap();
}

#[test]
fn name_problems_are_told_apart() {
    let long = "a".repeat(65);
    assert_eq!(validate_profile_name(&long).unwrap_err(), "profile 名称长度必须在 1..=64");
    assert_eq!(validate_profile_name("").unwrap_err(), "profile 名称长度必须在 1..=64");
    assert_eq!(
        validate_profile_name("a/b").unwrap_err(),
        "profile 名称不得包含 ..、路径分隔符或 NUL 字符"
    );
    assert_eq!(
        validate_profile_name("a\0b").unwrap_err(),
        "profile 名称不得包含 ..、路径分隔符或 NUL 字符"
    );
    assert_eq!(
        validate_profile_name("名").unwrap_err(),
        "profile 名称只允许 ASCII 字母、数字、_、-"
    );
    assert!(validate_profile_name(&"a".repeat(64)).is_ok());
}

#[test]
fn prefixes_may_be_longer_than_profile_names() {
    assert!(validate_prefix(&"a".repeat(128)).is_ok());
    assert_eq!(validate_prefix(&"a".repeat(129)).unwrap_err(), "prefix 长度必须在 1..=128");
    assert_eq!(
        validate_prefix("..").unwrap_err(),
        "prefix 不得包含 ..、路径分隔符或 NUL 字符"
    );
    assert_eq!(validate_prefix("a b").unwrap_err(), "prefix 只允许 ASCII 字母、数字、_、-");
    // The length is counted in bytes: 43 characters of three bytes are too long.
    assert_eq!(validate_prefix(&"名".repeat(43)).unwrap_err(), "prefix 长度必须在 1..=128");
}

#[test]
fn recording_directory_must_be_named() {
    for dir in ["", " ", "\t\u{3000}", "a\0b"] {
        let config = RecordingConfig { out_dir: dir.into(), ..RecordingConfig::default() };
        assert_eq!(config.validate().unwrap_err(), "out_dir 不能为空且不得包含 NUL 字符");
    }
    let config = RecordingConfig { prefix: Some("a b".into()), ..RecordingConfig::default() };
    assert_eq!(config.validate().unwrap_err(), "prefix 只允许 ASCII 字母、数字、_、-");
    let config = RecordingConfig { prefix: Some("take_1".into()), ..RecordingConfig::default() };
    assert!(config.validate().is_ok());
}

#[test]
fn blank_means_what_it_means_for_chars() {
    for code in 0..0x11_0000u32 {
        if let Some(c) = char::from_u32(code) {
            let config =
                RecordingConfig { out_dir: c.to_string(), ..RecordingConfig::default() };
            assert_eq!(config.validate().is_err(), c.is_whitespace() || c == '\0', "{code:x}");
        }
    }
}

#[test]
fn first_problem_of_a_configuration_is_told() {
    let config = AppConfig { version: 2, ..AppConfig::default() };
    assert!(matches!(config.validate(), Err(AppConfigError::Version(2))));
    let recording = RecordingConfig { out_dir: String::new(), ..RecordingConfig::default() };
    let config = AppConfig { recording, ..app(vec![doa_with_beta(2.0)]) };
    assert!(matches!(config.validate(), Err(AppConfigError::Recording(_))));
    match app(vec![doa_with_beta(2.0)]).validate() {
        Err(AppConfigError::Pipeline(PipelineConfigError::Doa(DoaConfigError::Beta(b)))) => {
            assert_eq!(b, s(2.0))
        }
        other => panic!("{other:?}"),
    }
}

#[test]
fn paths_are_below_local_application_data() {
    assert_eq!(
        app_config_dir(None).unwrap_err(),
        "未找到 LOCALAPPDATA 环境变量，无法确定配置目录"
    );
    assert_eq!(app_config_dir(Some("")).unwrap_err(), "LOCALAPPDATA 为空");
    assert_eq!(app_config_dir(Some("C:\\x")).unwrap(), ["C:\\x", "respeaker_algo"]);
    assert_eq!(
        app_config_path(Some("d")).unwrap(),
        ["d", "respeaker_algo", "config.toml"]
    );
    assert_eq!(profiles_dir(Some("d")).unwrap(), ["d", "respeaker_algo", "profiles"]);
    assert_eq!(
        profile_path(Some("d"), "room").unwrap(),
        ["d", "respeaker_algo", "profiles", "room.toml"]
    );
    assert_eq!(
        profile_path(None, "a/b").unwrap_err(),
        "profile 名称不得包含 ..、路径分隔符或 NUL 字符"
    );
    assert!(profiles_dir(None).is_err());
    assert!(app_config_path(Some("")).is_err());
}

#[test]
fn temporary_files_are_hidden_and_named_after_the_process() {
    assert_eq!(temporary_name("config.toml", 4711), ".config.toml.4711.tmp");
}

#[test]
fn warnings_say_why_the_default_is_used() {
    let (config, warning) = load_or_default(LoadOutcome::Missing).unwrap();
    assert_eq!((config.version, config.pipeline_enabled, warning), (1, false, None));
    let (loaded, warning) = load_or_default(LoadOutcome::Loaded(preset_doa())).unwrap();
    assert_eq!((loaded.pipeline_enabled, warning), (true, None));
    let unreadable = LoadOutcome::Unreadable { path: "p".into(), error: "e".into() };
    let (config, warning) = load_or_default(unreadable).unwrap();
    assert_eq!(config.recording.out_dir, "recordings");
    assert_eq!(warning.unwrap(), "读取配置 p 失败: e");
    let invalid = LoadOutcome::Invalid { path: "p".into(), error: "e".into() };
    let (config, warning) = load_or_default(invalid).unwrap();
    assert!(!config.pipeline_enabled);
    assert_eq!(warning.unwrap(), "配置解析失败 p: e");
}

#[test]
fn without_a_directory_the_service_does_not_start() {
    let missing = app_config_path(None).unwrap_err();
    assert_eq!(
        load_or_default(LoadOutcome::NoPath(missing)).unwrap_err(),
        "未找到 LOCALAPPDATA 环境变量，无法确定配置目录"
    );
    let empty = app_config_path(Some("")).unwrap_err();
    assert_eq!(
        load_or_default(LoadOutcome::NoPath(empty)).unwrap_err(),
        "LOCALAPPDATA 为空"
    );
}

#[test]
fn profiles_are_listed_in_order() {
    let files: Vec<String> =
        ["zoo.toml", "a.toml", "a.txt", ".toml", "b b.toml", "A.toml", "toml", "a.b.toml"]
            .iter()
            .map(|f| f.to_string())
            .collect();
    assert_eq!(list_profiles(&files), ["A", "a", "zoo"]);
    assert!(list_profiles(&[]).is_empty());
}

#[test]
fn presets_are_found_by_name() {
    assert_eq!(preset_of("pure"), Some(Preset::Pure));
    assert_eq!(preset_of("doa"), Some(Preset::Doa));
    assert_eq!(preset_of("doa_bf"), Some(Preset::DoaBf));
    assert_eq!(preset_of("bf_fixed"), Some(Preset::BfFixed));
    assert_eq!(preset_of("other"), None);
}

#[test]
fn presets_hold_the_documented_values() {
    assert!(!preset_pure().pipeline_enabled);
    assert!(preset_pure().pipeline.modules.is_empty());
    let doa = preset_doa();
    assert!(doa.pipeline_enabled);
    assert_eq!(doa.pipeline.modules.len(), 1);
    match doa.pipeline.modules[0] {
        ModuleConfig::Doa { csv, beta, max_coast_ms, .. } => {
            assert!(csv);
            assert_eq!(beta, s(0.75));
            assert_eq!(max_coast_ms, 500);
        }
        _ => panic!("expected doa"),
    }
    match preset_doa_bf().pipeline.modules[1] {
        ModuleConfig::Beamformer {
            algorithm,
            direction_source,
            direction_smoothing_ms,
            min_wng_db,
            output_gain_db,
            compare_wav,
            enable_drc,
            ..
        } => {
            assert_eq!(algorithm, BeamformerAlgorithm::RobustSuperdirective);
            assert_eq!(direction_source, BeamformerDirectionSource::Doa);
            assert_eq!(direction_smoothing_ms, s(64.0));
            assert_eq!(min_wng_db, s(3.0));
            assert_eq!(output_gain_db, s(15.0));
            assert!(compare_wav && enable_drc);
        }
        _ => panic!("expected beamformer"),
    }
    match preset_bf_fixed().pipeline.modules[0] {
        ModuleConfig::Beamformer { algorithm, direction_source, direction_smoothing_ms, .. } => {
            assert_eq!(algorithm, BeamformerAlgorithm::DelaySum);
            assert_eq!(direction_source, BeamformerDirectionSource::Fixed);
            assert_eq!(direction_smoothing_ms, s(0.0));
        }
        _ => panic!("expected beamformer"),
    }
}

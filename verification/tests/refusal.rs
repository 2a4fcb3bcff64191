use respeaker_algo::app_config::{
    preset_bf_fixed, preset_doa, preset_doa_bf, AppConfig, AppConfigError, RecordingConfig,
};
use respeaker_algo::beamformer::{BeamformerConfigError, BeamformerField};
use respeaker_algo::doa::DoaConfigError;
use respeaker_algo::pipeline::{ModuleConfig, PipelineConfigError};
use respeaker_algo::recorder::RequestError;
use respeaker_algo::single::Single;

fn s(x: f32) -> Single {
    Single { bits: x.to_bits() }
}

fn shown(numbers: Vec<Single>) -> Vec<String> {
    numbers.into_iter().map(|n| format!("{}", f32::from_bits(n.bits))).collect()
}

fn doa(e: DoaConfigError) -> String {
    e.message(&shown(e.numbers()))
}

fn beamformer(e: BeamformerConfigError) -> String {
    e.message(&shown(e.numbers()))
}

fn config(e: AppConfigError) -> String {
    e.message(&shown(e.numbers()))
}

#[test]
fn errors_of_the_estimator_are_put_in_words() {
    assert_eq!(doa(DoaConfigError::SampleRate(48000)), "DOA 仅支持 16000 Hz，当前 48000");
    assert_eq!(doa(DoaConfigError::Beta(s(1.5))), "doa_beta 必须在 0..=1 之间，当前 1.5");
    assert_eq!(doa(DoaConfigError::CpsdTau(s(-1.0))), "doa_cpsd_tau_ms 必须为正数，当前 -1");
    assert_eq!(
        doa(DoaConfigError::AcquireConfidence(s(2.0))),
        "acquire_confidence 必须在 0..=1 之间，当前 2"
    );
    assert_eq!(
        doa(DoaConfigError::UpdateConfidence(s(3.0))),
        "update_confidence 必须在 0..=1 之间，当前 3"
    );
    assert_eq!(
        doa(DoaConfigError::UpdateAboveAcquire { update: s(0.75), acquire: s(0.5) }),
        "update_confidence (0.75) 不得大于 acquire_confidence (0.5)"
    );
    assert_eq!(doa(DoaConfigError::MaxCoastZero), "max_coast_ms 必须大于 0");
    assert_eq!(doa(DoaConfigError::NotFinite), "DOA 浮点参数不允许 NaN/Inf");
}

#[test]
fn errors_of_the_beamformer_are_put_in_words() {
    assert_eq!(
        beamformer(BeamformerConfigError::NotFinite(BeamformerField::MinWngDb)),
        "beamformer.min_wng_db 必须为有限值"
    );
    assert_eq!(
        beamformer(BeamformerConfigError::Smoothing(s(-2.0))),
        "direction_smoothing_ms 必须 >= 0，当前 -2"
    );
    assert_eq!(
        beamformer(BeamformerConfigError::MinWng(s(7.0))),
        "min_wng_db 必须在 0..=6.0，当前 7"
    );
    let band = BeamformerConfigError::Band {
        low_start: s(1.0),
        low_full: s(2.0),
        high_full: s(3.0),
        high_end: s(9000.0),
    };
    assert_eq!(
        beamformer(band),
        "频率带必须满足 0 <= low_start <= low_full <= high_full <= high_end <= 8000，当前 1/2/3/9000"
    );
    assert_eq!(
        beamformer(BeamformerConfigError::OutputGain(s(25.0))),
        "output_gain_db 建议在 [-24, 24]，当前 25"
    );
}

#[test]
fn errors_of_the_configuration_are_put_in_words() {
    assert_eq!(config(AppConfigError::Version(3)), "不支持的 App 配置版本 3，当前仅支持 1");
    assert_eq!(config(AppConfigError::Recording("r".into())), "r");
    for (error, text) in [
        (PipelineConfigError::Version(2), "不支持的 Pipeline 配置版本 2，当前仅支持 1"),
        (PipelineConfigError::DuplicateDoa, "Pipeline 中只能启用一个 DOA 模块"),
        (PipelineConfigError::DuplicateBeamformer, "Pipeline 中只能启用一个 Beamformer 模块"),
        (
            PipelineConfigError::DirectionNeedsDoa,
            "beamformer.direction_source = \"doa\" 要求配置顺序中前面已有 enabled DOA",
        ),
        (
            PipelineConfigError::Doa(DoaConfigError::Beta(s(2.5))),
            "doa_beta 必须在 0..=1 之间，当前 2.5",
        ),
        (
            PipelineConfigError::Beamformer(BeamformerConfigError::MinWng(s(6.5))),
            "min_wng_db 必须在 0..=6.0，当前 6.5",
        ),
    ] {
        assert_eq!(config(AppConfigError::Pipeline(error)), text);
    }
    let request = RequestError::Pipeline(PipelineConfigError::DuplicateDoa);
    assert_eq!(request.message(&[]), "Pipeline 中只能启用一个 DOA 模块");
    assert_eq!(RequestError::SessionId("id".into()).message(&[]), "id");
    assert_eq!(RequestError::Prefix("p".into()).message(&[]), "p");
    assert_eq!(RequestError::Recording("r".into()).message(&[]), "r");
}

#[test]
fn the_field_at_fault_is_named() {
    let field = |config: &AppConfig| config.refused_field();
    assert_eq!(field(&preset_doa_bf()), None);
    let old = AppConfig { version: 0, ..AppConfig::default() };
    assert_eq!(field(&old).unwrap(), "version");
    let recording = RecordingConfig { out_dir: " ".into(), ..RecordingConfig::default() };
    let blank = AppConfig { recording, ..AppConfig::default() };
    assert_eq!(field(&blank).unwrap(), "recording.out_dir");
    let recording = RecordingConfig { prefix: Some("a/b".into()), ..RecordingConfig::default() };
    let prefix = AppConfig { recording, ..AppConfig::default() };
    assert_eq!(field(&prefix).unwrap(), "recording.prefix");
    let mut pipeline = preset_doa();
    pipeline.pipeline.version = 9;
    assert_eq!(field(&pipeline).unwrap(), "pipeline.version");
    let mut confidences = preset_doa();
    if let ModuleConfig::Doa { update_confidence, .. } = &mut confidences.pipeline.modules[0] {
        *update_confidence = s(0.9);
    }
    assert_eq!(field(&confidences).unwrap(), "pipeline.modules[0].update_confidence");
    let mut twice = preset_doa();
    let doa = twice.pipeline.modules[0];
    twice.pipeline.modules.push(doa);
    assert_eq!(field(&twice).unwrap(), "pipeline.modules[1]");
    let mut gain = preset_bf_fixed();
    if let ModuleConfig::Beamformer { output_gain_db, .. } = &mut gain.pipeline.modules[0] {
        *output_gain_db = s(30.0);
    }
    assert_eq!(field(&gain).unwrap(), "pipeline.modules[0].output_gain_db");
}

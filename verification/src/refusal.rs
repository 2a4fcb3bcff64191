//! What is said of a configuration that is refused, and which of its fields is at fault.
//!
//! A text that shows numbers takes them as they are to be shown: which numbers these are, and in
//! which order, is told first.

use vstd::prelude::*;
use vstd::string::*;

use crate::app_config::{safe_name, AppConfig, AppConfigError, APP_CONFIG_VERSION};
use crate::beamformer::{field_name, BeamformerConfig, BeamformerConfigError, BeamformerField};
use crate::doa::{is_fraction, DoaConfig, DoaConfigError, SAMPLE_RATE};
use crate::pipeline::{
    first_refused_at, module_problem, PipelineConfigError, PIPELINE_CONFIG_VERSION,
};
use crate::recorder::RequestError;
use crate::single::Single;
use crate::text::{
    begins_with, blank, chars_of, contains_char, contains_text, decimal, is_blank, occurs_at,
    push_decimal,
};

verus! {

/// The numbers that the text of an error of the estimator shows.
pub open spec fn doa_numbers(e: DoaConfigError) -> Seq<Single> {
    match e {
        DoaConfigError::SampleRate(_) => Seq::empty(),
        DoaConfigError::Beta(v) => seq![v],
        DoaConfigError::CpsdTau(v) => seq![v],
        DoaConfigError::AcquireConfidence(v) => seq![v],
        DoaConfigError::UpdateConfidence(v) => seq![v],
        DoaConfigError::UpdateAboveAcquire { update, acquire } => seq![update, acquire],
        DoaConfigError::MaxCoastZero => Seq::empty(),
        DoaConfigError::NotFinite => Seq::empty(),
    }
}

/// The text of an error of the estimator.
pub open spec fn doa_text(e: DoaConfigError, shown: Seq<String>) -> Seq<char> {
    match e {
        DoaConfigError::SampleRate(rate) => "DOA 仅支持 "@ + decimal(SAMPLE_RATE as nat)
            + " Hz，当前 "@ + decimal(rate as nat),
        DoaConfigError::Beta(_) => "doa_beta 必须在 0..=1 之间，当前 "@ + shown[0]@,
        DoaConfigError::CpsdTau(_) => "doa_cpsd_tau_ms 必须为正数，当前 "@ + shown[0]@,
        DoaConfigError::AcquireConfidence(_) => "acquire_confidence 必须在 0..=1 之间，当前 "@
            + shown[0]@,
        DoaConfigError::UpdateConfidence(_) => "update_confidence 必须在 0..=1 之间，当前 "@
            + shown[0]@,
        DoaConfigError::UpdateAboveAcquire { .. } => "update_confidence ("@ + shown[0]@
            + ") 不得大于 acquire_confidence ("@ + shown[1]@ + ")"@,
        DoaConfigError::MaxCoastZero => "max_coast_ms 必须大于 0"@,
        DoaConfigError::NotFinite => "DOA 浮点参数不允许 NaN/Inf"@,
    }
}

/// The numbers that the text of an error of the beamformer shows.
pub open spec fn beamformer_numbers(e: BeamformerConfigError) -> Seq<Single> {
    match e {
        BeamformerConfigError::NotFinite(_) => Seq::empty(),
        BeamformerConfigError::Smoothing(v) => seq![v],
        BeamformerConfigError::MinWng(v) => seq![v],
        BeamformerConfigError::Band { low_start, low_full, high_full, high_end } => seq![
            low_start,
            low_full,
            high_full,
            high_end,
        ],
        BeamformerConfigError::OutputGain(v) => seq![v],
    }
}

/// The text of an error of the beamformer.
pub open spec fn beamformer_text(e: BeamformerConfigError, shown: Seq<String>) -> Seq<char> {
    match e {
        BeamformerConfigError::NotFinite(field) => "beamformer."@ + field_name(field)
            + " 必须为有限值"@,
        BeamformerConfigError::Smoothing(_) => "direction_smoothing_ms 必须 >= 0，当前 "@
            + shown[0]@,
        BeamformerConfigError::MinWng(_) => "min_wng_db 必须在 0..=6.0，当前 "@ + shown[0]@,
        BeamformerConfigError::Band { .. } =>
            "频率带必须满足 0 <= low_start <= low_full <= high_full <= high_end <= 8000，当前 "@
            + shown[0]@ + "/"@ + shown[1]@ + "/"@ + shown[2]@ + "/"@ + shown[3]@,
        BeamformerConfigError::OutputGain(_) => "output_gain_db 建议在 [-24, 24]，当前 "@
            + shown[0]@,
    }
}

/// The numbers that the text of an error of the pipeline shows.
pub open spec fn pipeline_numbers(e: PipelineConfigError) -> Seq<Single> {
    match e {
        PipelineConfigError::Doa(inner) => doa_numbers(inner),
        PipelineConfigError::Beamformer(inner) => beamformer_numbers(inner),
        _ => Seq::empty(),
    }
}

/// The text of an error of the pipeline.
pub open spec fn pipeline_text(e: PipelineConfigError, shown: Seq<String>) -> Seq<char> {
    match e {
        PipelineConfigError::Version(version) => "不支持的 Pipeline 配置版本 "@ + decimal(
            version as nat,
        ) + "，当前仅支持 "@ + decimal(PIPELINE_CONFIG_VERSION as nat),
        PipelineConfigError::DuplicateDoa => "Pipeline 中只能启用一个 DOA 模块"@,
        PipelineConfigError::Doa(inner) => doa_text(inner, shown),
        PipelineConfigError::DuplicateBeamformer => "Pipeline 中只能启用一个 Beamformer 模块"@,
        PipelineConfigError::DirectionNeedsDoa =>
            "beamformer.direction_source = \"doa\" 要求配置顺序中前面已有 enabled DOA"@,
        PipelineConfigError::Beamformer(inner) => beamformer_text(inner, shown),
    }
}

/// The numbers that the text of an error of the configuration shows.
pub open spec fn config_numbers(e: AppConfigError) -> Seq<Single> {
    match e {
        AppConfigError::Pipeline(inner) => pipeline_numbers(inner),
        _ => Seq::empty(),
    }
}

/// The text of an error of the configuration.
pub open spec fn config_text(e: AppConfigError, shown: Seq<String>) -> Seq<char> {
    match e {
        AppConfigError::Version(version) => "不支持的 App 配置版本 "@ + decimal(version as nat)
            + "，当前仅支持 "@ + decimal(APP_CONFIG_VERSION as nat),
        AppConfigError::Recording(message) => message@,
        AppConfigError::Pipeline(inner) => pipeline_text(inner, shown),
    }
}

/// The numbers that the text of a refused recording shows.
pub open spec fn request_numbers(e: RequestError) -> Seq<Single> {
    match e {
        RequestError::Pipeline(inner) => pipeline_numbers(inner),
        _ => Seq::empty(),
    }
}

/// The text of a refused recording.
pub open spec fn request_text(e: RequestError, shown: Seq<String>) -> Seq<char> {
    match e {
        RequestError::Recording(message) => message@,
        RequestError::Pipeline(inner) => pipeline_text(inner, shown),
        RequestError::SessionId(message) => message@,
        RequestError::Prefix(message) => message@,
    }
}

fn one(v: Single) -> (numbers: Vec<Single>)
    ensures
        numbers@ == seq![v],
{
    let mut numbers: Vec<Single> = Vec::new();
    numbers.push(v);
    assert(numbers@ =~= seq![v]);
    numbers
}

fn followed_by(head: &str, tail: &str) -> (text: String)
    ensures
        text@ == head@ + tail@,
{
    let mut text = head.to_owned();
    text.append(tail);
    text
}

impl DoaConfigError {
    /// The numbers that the text shows, in order.
    pub fn numbers(self) -> (numbers: Vec<Single>)
        ensures
            numbers@ == doa_numbers(self),
    {
        match self {
            DoaConfigError::Beta(v) => one(v),
            DoaConfigError::CpsdTau(v) => one(v),
            DoaConfigError::AcquireConfidence(v) => one(v),
            DoaConfigError::UpdateConfidence(v) => one(v),
            DoaConfigError::UpdateAboveAcquire { update, acquire } => {
                let mut numbers = one(update);
                numbers.push(acquire);
                assert(numbers@ =~= seq![update, acquire]);
                numbers
            },
            _ => Vec::new(),
        }
    }

    /// The text, with its numbers as they are to be shown.
    pub fn message(self, shown: &[String]) -> (text: String)
        requires
            shown@.len() == doa_numbers(self).len(),
        ensures
            text@ == doa_text(self, shown@),
    {
        match self {
            DoaConfigError::SampleRate(rate) => {
                let mut text = "DOA 仅支持 ".to_owned();
                push_decimal(&mut text, SAMPLE_RATE as u64);
                text.append(" Hz，当前 ");
                push_decimal(&mut text, rate as u64);
                text
            },
            DoaConfigError::Beta(_) => followed_by(
                "doa_beta 必须在 0..=1 之间，当前 ",
                shown[0].as_str(),
            ),
            DoaConfigError::CpsdTau(_) => followed_by(
                "doa_cpsd_tau_ms 必须为正数，当前 ",
                shown[0].as_str(),
            ),
            DoaConfigError::AcquireConfidence(_) => followed_by(
                "acquire_confidence 必须在 0..=1 之间，当前 ",
                shown[0].as_str(),
            ),
            DoaConfigError::UpdateConfidence(_) => followed_by(
                "update_confidence 必须在 0..=1 之间，当前 ",
                shown[0].as_str(),
            ),
            DoaConfigError::UpdateAboveAcquire { .. } => {
                let mut text = followed_by("update_confidence (", shown[0].as_str());
                text.append(") 不得大于 acquire_confidence (");
                text.append(shown[1].as_str());
                text.append(")");
                text
            },
            DoaConfigError::MaxCoastZero => "max_coast_ms 必须大于 0".to_owned(),
            DoaConfigError::NotFinite => "DOA 浮点参数不允许 NaN/Inf".to_owned(),
        }
    }
}

impl BeamformerConfigError {
    /// The numbers that the text shows, in order.
    pub fn numbers(self) -> (numbers: Vec<Single>)
        ensures
            numbers@ == beamformer_numbers(self),
    {
        match self {
            BeamformerConfigError::NotFinite(_) => Vec::new(),
            BeamformerConfigError::Smoothing(v) => one(v),
            BeamformerConfigError::MinWng(v) => one(v),
            BeamformerConfigError::Band { low_start, low_full, high_full, high_end } => {
                let mut numbers = one(low_start);
                numbers.push(low_full);
                numbers.push(high_full);
                numbers.push(high_end);
                assert(numbers@ =~= seq![low_start, low_full, high_full, high_end]);
                numbers
            },
            BeamformerConfigError::OutputGain(v) => one(v),
        }
    }

    /// The text, with its numbers as they are to be shown.
    pub fn message(self, shown: &[String]) -> (text: String)
        requires
            shown@.len() == beamformer_numbers(self).len(),
        ensures
            text@ == beamformer_text(self, shown@),
    {
        match self {
            BeamformerConfigError::NotFinite(field) => {
                let mut text = followed_by("beamformer.", field.name());
                text.append(" 必须为有限值");
                text
            },
            BeamformerConfigError::Smoothing(_) => followed_by(
                "direction_smoothing_ms 必须 >= 0，当前 ",
                shown[0].as_str(),
            ),
            BeamformerConfigError::MinWng(_) => followed_by(
                "min_wng_db 必须在 0..=6.0，当前 ",
                shown[0].as_str(),
            ),
            BeamformerConfigError::Band { .. } => {
                let mut text = followed_by(
                    "频率带必须满足 0 <= low_start <= low_full <= high_full <= high_end <= 8000，当前 ",
                    shown[0].as_str(),
                );
                text.append("/");
                text.append(shown[1].as_str());
                text.append("/");
                text.append(shown[2].as_str());
                text.append("/");
                text.append(shown[3].as_str());
                text
            },
            BeamformerConfigError::OutputGain(_) => followed_by(
                "output_gain_db 建议在 [-24, 24]，当前 ",
                shown[0].as_str(),
            ),
        }
    }
}

impl PipelineConfigError {
    /// The numbers that the text shows, in order.
    pub fn numbers(&self) -> (numbers: Vec<Single>)
        ensures
            numbers@ == pipeline_numbers(*self),
    {
        match self {
            PipelineConfigError::Doa(inner) => inner.numbers(),
            PipelineConfigError::Beamformer(inner) => inner.numbers(),
            _ => Vec::new(),
        }
    }

    /// The text, with its numbers as they are to be shown.
    pub fn message(&self, shown: &[String]) -> (text: String)
        requires
            shown@.len() == pipeline_numbers(*self).len(),
        ensures
            text@ == pipeline_text(*self, shown@),
    {
        match self {
            PipelineConfigError::Version(version) => {
                let mut text = "不支持的 Pipeline 配置版本 ".to_owned();
                push_decimal(&mut text, *version as u64);
                text.append("，当前仅支持 ");
                push_decimal(&mut text, PIPELINE_CONFIG_VERSION as u64);
                text
            },
            PipelineConfigError::DuplicateDoa => "Pipeline 中只能启用一个 DOA 模块".to_owned(),
            PipelineConfigError::Doa(inner) => inner.message(shown),
            PipelineConfigError::DuplicateBeamformer => {
                "Pipeline 中只能启用一个 Beamformer 模块".to_owned()
            },
            PipelineConfigError::DirectionNeedsDoa => {
                "beamformer.direction_source = \"doa\" 要求配置顺序中前面已有 enabled DOA".to_owned()
            },
            PipelineConfigError::Beamformer(inner) => inner.message(shown),
        }
    }
}

impl AppConfigError {
    /// The numbers that the text shows, in order.
    pub fn numbers(&self) -> (numbers: Vec<Single>)
        ensures
            numbers@ == config_numbers(*self),
    {
        match self {
            AppConfigError::Pipeline(inner) => inner.numbers(),
            _ => Vec::new(),
        }
    }

    /// The text, with its numbers as they are to be shown.
    pub fn message(&self, shown: &[String]) -> (text: String)
        requires
            shown@.len() == config_numbers(*self).len(),
        ensures
            text@ == config_text(*self, shown@),
    {
        match self {
            AppConfigError::Version(version) => {
                let mut text = "不支持的 App 配置版本 ".to_owned();
                push_decimal(&mut text, *version as u64);
                text.append("，当前仅支持 ");
                push_decimal(&mut text, APP_CONFIG_VERSION as u64);
                text
            },
            AppConfigError::Recording(message) => message.clone(),
            AppConfigError::Pipeline(inner) => inner.message(shown),
        }
    }
}

impl RequestError {
    /// The numbers that the text shows, in order.
    pub fn numbers(&self) -> (numbers: Vec<Single>)
        ensures
            numbers@ == request_numbers(*self),
    {
        match self {
            RequestError::Pipeline(inner) => inner.numbers(),
            _ => Vec::new(),
        }
    }

    /// The text, with its numbers as they are to be shown.
    pub fn message(&self, shown: &[String]) -> (text: String)
        requires
            shown@.len() == request_numbers(*self).len(),
        ensures
            text@ == request_text(*self, shown@),
    {
        match self {
            RequestError::Recording(message) => message.clone(),
            RequestError::Pipeline(inner) => inner.message(shown),
            RequestError::SessionId(message) => message.clone(),
            RequestError::Prefix(message) => message.clone(),
        }
    }
}

/// The setting of the estimator that an error is about.
pub open spec fn doa_field(e: DoaConfigError) -> Seq<char> {
    match e {
        DoaConfigError::SampleRate(_) => "sample_rate"@,
        DoaConfigError::Beta(_) => "beta"@,
        DoaConfigError::CpsdTau(_) => "cpsd_tau_ms"@,
        DoaConfigError::AcquireConfidence(_) => "acquire_confidence"@,
        DoaConfigError::UpdateConfidence(_) => "update_confidence"@,
        DoaConfigError::UpdateAboveAcquire { .. } => "update_confidence"@,
        DoaConfigError::MaxCoastZero => "max_coast_ms"@,
        DoaConfigError::NotFinite => "angle_offset_deg"@,
    }
}

/// The setting of the beamformer that an error is about; of a band, the one it begins with.
pub open spec fn beamformer_field(e: BeamformerConfigError) -> Seq<char> {
    match e {
        BeamformerConfigError::NotFinite(field) => field_name(field),
        BeamformerConfigError::Smoothing(_) => "direction_smoothing_ms"@,
        BeamformerConfigError::MinWng(_) => "min_wng_db"@,
        BeamformerConfigError::Band { .. } => "sd_low_start_hz"@,
        BeamformerConfigError::OutputGain(_) => "output_gain_db"@,
    }
}

/// The place of a module, or of its setting that an error is about.
pub open spec fn module_field(i: nat, e: PipelineConfigError) -> Seq<char> {
    let module = "pipeline.modules["@ + decimal(i) + "]"@;
    match e {
        PipelineConfigError::Doa(inner) => module + "."@ + doa_field(inner),
        PipelineConfigError::Beamformer(inner) => module + "."@ + beamformer_field(inner),
        PipelineConfigError::DirectionNeedsDoa => module + "."@ + "direction_source"@,
        _ => module,
    }
}

/// The field is the one that the configuration is refused for.
pub open spec fn is_refused_field(config: AppConfig, field: Seq<char>) -> bool {
    if config.version != APP_CONFIG_VERSION {
        field == "version"@
    } else if !config.recording.valid() {
        field == (if blank(config.recording.out_dir@) || config.recording.out_dir@.contains('\0') {
            "recording.out_dir"@
        } else {
            "recording.prefix"@
        })
    } else if config.pipeline.version != PIPELINE_CONFIG_VERSION {
        field == "pipeline.version"@
    } else {
        exists|i: int| #[trigger]
            first_refused_at(config.pipeline.modules@, i) && field == module_field(
                i as nat,
                module_problem(config.pipeline.modules@, i)->0,
            )
    }
}

fn doa_field_name(e: DoaConfigError) -> (name: &'static str)
    ensures
        name@ == doa_field(e),
{
    match e {
        DoaConfigError::SampleRate(_) => "sample_rate",
        DoaConfigError::Beta(_) => "beta",
        DoaConfigError::CpsdTau(_) => "cpsd_tau_ms",
        DoaConfigError::AcquireConfidence(_) => "acquire_confidence",
        DoaConfigError::UpdateConfidence(_) => "update_confidence",
        DoaConfigError::UpdateAboveAcquire { .. } => "update_confidence",
        DoaConfigError::MaxCoastZero => "max_coast_ms",
        DoaConfigError::NotFinite => "angle_offset_deg",
    }
}

fn beamformer_field_name(e: BeamformerConfigError) -> (name: &'static str)
    ensures
        name@ == beamformer_field(e),
{
    match e {
        BeamformerConfigError::NotFinite(field) => field.name(),
        BeamformerConfigError::Smoothing(_) => "direction_smoothing_ms",
        BeamformerConfigError::MinWng(_) => "min_wng_db",
        BeamformerConfigError::Band { .. } => "sd_low_start_hz",
        BeamformerConfigError::OutputGain(_) => "output_gain_db",
    }
}

fn module_field_name(i: usize, e: &PipelineConfigError) -> (field: String)
    ensures
        field@ == module_field(i as nat, *e),
{
    let mut field = "pipeline.modules[".to_owned();
    push_decimal(&mut field, i as u64);
    field.append("]");
    match e {
        PipelineConfigError::Doa(inner) => {
            field.append(".");
            field.append(doa_field_name(*inner));
        },
        PipelineConfigError::Beamformer(inner) => {
            field.append(".");
            field.append(beamformer_field_name(*inner));
        },
        PipelineConfigError::DirectionNeedsDoa => {
            field.append(".");
            field.append("direction_source");
        },
        _ => {},
    }
    field
}

impl AppConfig {
    /// The field that the configuration is refused for, where it is.
    pub fn refused_field(&self) -> (field: Option<String>)
        ensures
            field is None <==> self.valid(),
            field matches Some(f) ==> is_refused_field(*self, f@),
    {
        if self.version != APP_CONFIG_VERSION {
            return Some("version".to_owned());
        }
        if self.recording.validate().is_err() {
            let dir = chars_of(self.recording.out_dir.as_str());
            if is_blank(dir.as_slice()) || contains_char(dir.as_slice(), '\0') {
                return Some("recording.out_dir".to_owned());
            }
            return Some("recording.prefix".to_owned());
        }
        if self.pipeline.version != PIPELINE_CONFIG_VERSION {
            return Some("pipeline.version".to_owned());
        }
        match self.pipeline.first_refused() {
            Some((i, e)) => {
                assert(first_refused_at(self.pipeline.modules@, i as int));
                Some(module_field_name(i, &e))
            },
            None => None,
        }
    }
}

/// A configuration is refused for one field.
pub proof fn law_one_field_is_at_fault(config: AppConfig, a: Seq<char>, b: Seq<char>)
    requires
        is_refused_field(config, a),
        is_refused_field(config, b),
    ensures
        a == b,
{
    if config.version == APP_CONFIG_VERSION && config.recording.valid() && config.pipeline.version
        == PIPELINE_CONFIG_VERSION {
        let modules = config.pipeline.modules@;
        let i = choose|i: int| #[trigger]
            first_refused_at(modules, i) && a == module_field(
                i as nat,
                module_problem(modules, i)->0,
            );
        let j = choose|j: int| #[trigger]
            first_refused_at(modules, j) && b == module_field(
                j as nat,
                module_problem(modules, j)->0,
            );
        if i < j {
            assert(module_problem(modules, i) is None);
        }
        if j < i {
            assert(module_problem(modules, j) is None);
        }
    }
}

/// What is said of refused settings of the estimator shows the values that are at fault, and names
/// the setting that holds the first of them.
pub proof fn law_estimator_refusals_show_the_setting(config: DoaConfig)
    requires
        config.problem() is Some,
    ensures
        ({
            let e = config.problem()->0;
            let numbers = doa_numbers(e);
            let field = doa_field(e);
            &&& field == "sample_rate"@ || field == "beta"@ || field == "cpsd_tau_ms"@ || field
                == "acquire_confidence"@ || field == "update_confidence"@ || field
                == "max_coast_ms"@ || field == "angle_offset_deg"@
            &&& config.sample_rate != 16000 ==> field == "sample_rate"@ && numbers.len() == 0
            &&& config.sample_rate == 16000 && !is_fraction(config.beta) ==> field == "beta"@
                && numbers == seq![config.beta]
            &&& e is CpsdTau ==> field == "cpsd_tau_ms"@ && numbers == seq![config.cpsd_tau_ms]
            &&& e is AcquireConfidence ==> field == "acquire_confidence"@ && numbers == seq![
                config.acquire_confidence,
            ]
            &&& e is UpdateConfidence ==> field == "update_confidence"@ && numbers == seq![
                config.update_confidence,
            ]
            &&& e is UpdateAboveAcquire ==> field == "update_confidence"@ && numbers == seq![
                config.update_confidence,
                config.acquire_confidence,
            ]
            &&& e is MaxCoastZero ==> field == "max_coast_ms"@ && numbers.len() == 0
            &&& e is NotFinite ==> field == "angle_offset_deg"@ && numbers.len() == 0
        }),
{
}

/// What is said of refused settings of the beamformer shows the values that are at fault, and names
/// the setting that holds the first of them.
pub proof fn law_beamformer_refusals_show_the_setting(config: BeamformerConfig)
    requires
        config.problem() is Some,
    ensures
        ({
            let e = config.problem()->0;
            let numbers = beamformer_numbers(e);
            let field = beamformer_field(e);
            &&& e is Smoothing ==> field == "direction_smoothing_ms"@ && numbers == seq![
                config.direction_smoothing_ms,
            ]
            &&& e is MinWng ==> field == "min_wng_db"@ && numbers == seq![config.min_wng_db]
            &&& e is Band ==> field == "sd_low_start_hz"@ && numbers == seq![
                config.sd_low_start_hz,
                config.sd_low_full_hz,
                config.sd_high_full_hz,
                config.sd_high_end_hz,
            ]
            &&& e is OutputGain ==> field == "output_gain_db"@ && numbers == seq![
                config.output_gain_db,
            ]
            &&& !config.fixed_internal_angle_deg.finite() ==> field == "fixed_internal_angle_deg"@
                && numbers.len() == 0
            &&& e matches BeamformerConfigError::NotFinite(at) ==> numbers.len() == 0 && match at {
                BeamformerField::FixedInternalAngleDeg => field == "fixed_internal_angle_deg"@,
                BeamformerField::FallbackInternalAngleDeg => field
                    == "fallback_internal_angle_deg"@,
                BeamformerField::DirectionSmoothingMs => field == "direction_smoothing_ms"@,
                BeamformerField::MinWngDb => field == "min_wng_db"@,
                BeamformerField::SdLowStartHz => field == "sd_low_start_hz"@,
                BeamformerField::SdLowFullHz => field == "sd_low_full_hz"@,
                BeamformerField::SdHighFullHz => field == "sd_high_full_hz"@,
                BeamformerField::SdHighEndHz => field == "sd_high_end_hz"@,
                BeamformerField::OutputGainDb => field == "output_gain_db"@,
            }
        }),
{
}

proof fn lemma_part_is_told(text: Seq<char>, head: Seq<char>, part: Seq<char>, tail: Seq<char>)
    requires
        text == head + part + tail,
    ensures
        contains_text(text, part),
{
    let i = head.len() as int;
    assert(text.subrange(i, i + part.len()) =~= part);
    assert(occurs_at(text, part, i));
}

/// The text of a refusal tells every number that it is said to show.
pub proof fn law_texts_tell_their_numbers(
    d: DoaConfigError,
    b: BeamformerConfigError,
    shown: Seq<String>,
    k: int,
)
    ensures
        shown.len() == doa_numbers(d).len() && 0 <= k < shown.len() ==> contains_text(
            doa_text(d, shown),
            shown[k]@,
        ),
        shown.len() == beamformer_numbers(b).len() && 0 <= k < shown.len() ==> contains_text(
            beamformer_text(b, shown),
            shown[k]@,
        ),
{
    if shown.len() == doa_numbers(d).len() && 0 <= k < shown.len() {
        let text = doa_text(d, shown);
        if d is UpdateAboveAcquire {
            let a = "update_confidence ("@;
            let m = ") 不得大于 acquire_confidence ("@;
            if k == 0 {
                assert(text =~= a + shown[0]@ + (m + shown[1]@ + ")"@));
                lemma_part_is_told(text, a, shown[0]@, m + shown[1]@ + ")"@);
            } else {
                lemma_part_is_told(text, a + shown[0]@ + m, shown[1]@, ")"@);
            }
        } else {
            let head = text.take(text.len() - shown[0]@.len());
            assert(text =~= head + shown[0]@ + Seq::<char>::empty());
            lemma_part_is_told(text, head, shown[0]@, Seq::empty());
        }
    }
    if shown.len() == beamformer_numbers(b).len() && 0 <= k < shown.len() {
        let text = beamformer_text(b, shown);
        if b is Band {
            let a =
                "频率带必须满足 0 <= low_start <= low_full <= high_full <= high_end <= 8000，当前 "@;
            let s = "/"@;
            if k == 0 {
                let tail = s + shown[1]@ + s + shown[2]@ + s + shown[3]@;
                assert(text =~= a + shown[0]@ + tail);
                lemma_part_is_told(text, a, shown[0]@, tail);
            } else if k == 1 {
                let head = a + shown[0]@ + s;
                let tail = s + shown[2]@ + s + shown[3]@;
                assert(text =~= head + shown[1]@ + tail);
                lemma_part_is_told(text, head, shown[1]@, tail);
            } else if k == 2 {
                let head = a + shown[0]@ + s + shown[1]@ + s;
                let tail = s + shown[3]@;
                assert(text =~= head + shown[2]@ + tail);
                lemma_part_is_told(text, head, shown[2]@, tail);
            } else {
                let head = a + shown[0]@ + s + shown[1]@ + s + shown[2]@ + s;
                assert(text =~= head + shown[3]@ + Seq::<char>::empty());
                lemma_part_is_told(text, head, shown[3]@, Seq::empty());
            }
        } else {
            let head = text.take(text.len() - shown[0]@.len());
            assert(text =~= head + shown[0]@ + Seq::<char>::empty());
            lemma_part_is_told(text, head, shown[0]@, Seq::empty());
        }
    }
}

/// A configuration is refused for its version before anything else, then for its directory, its
/// prefix, the version of its pipeline, and last for the first module that is refused, whose place
/// is told.
pub proof fn law_fields_are_refused_in_order(config: AppConfig, field: Seq<char>, i: int)
    requires
        is_refused_field(config, field),
    ensures
        config.version != 1 ==> field == "version"@,
        config.version == 1 && (blank(config.recording.out_dir@)
            || config.recording.out_dir@.contains('\0')) ==> field == "recording.out_dir"@,
        config.version == 1 && !blank(config.recording.out_dir@)
            && !config.recording.out_dir@.contains('\0') && (
        config.recording.prefix matches Some(prefix) && !safe_name(prefix@, 128)) ==> field
            == "recording.prefix"@,
        config.version == 1 && config.recording.valid() && config.pipeline.version != 1 ==> field
            == "pipeline.version"@,
        config.version == 1 && config.recording.valid() && config.pipeline.version == 1
            && first_refused_at(config.pipeline.modules@, i) ==> begins_with(
            field,
            "pipeline.modules["@ + decimal(i as nat) + "]"@,
        ),
{
    if config.version == 1 && config.recording.valid() && config.pipeline.version == 1
        && first_refused_at(config.pipeline.modules@, i) {
        let modules = config.pipeline.modules@;
        let mine = module_field(i as nat, module_problem(modules, i)->0);
        assert(is_refused_field(config, mine));
        law_one_field_is_at_fault(config, field, mine);
        let module = "pipeline.modules["@ + decimal(i as nat) + "]"@;
        assert(mine.take(module.len() as int) =~= module);
    }
}

/// The text and the numbers of a refusal are those of the part that refuses, wherever it is told.
pub proof fn law_refusals_are_passed_on(
    d: DoaConfigError,
    b: BeamformerConfigError,
    p: PipelineConfigError,
    message: String,
    shown: Seq<String>,
)
    ensures
        pipeline_text(PipelineConfigError::Doa(d), shown) == doa_text(d, shown),
        pipeline_numbers(PipelineConfigError::Doa(d)) == doa_numbers(d),
        pipeline_text(PipelineConfigError::Beamformer(b), shown) == beamformer_text(b, shown),
        pipeline_numbers(PipelineConfigError::Beamformer(b)) == beamformer_numbers(b),
        config_text(AppConfigError::Pipeline(p), shown) == pipeline_text(p, shown),
        config_numbers(AppConfigError::Pipeline(p)) == pipeline_numbers(p),
        request_text(RequestError::Pipeline(p), shown) == pipeline_text(p, shown),
        request_numbers(RequestError::Pipeline(p)) == pipeline_numbers(p),
        config_text(AppConfigError::Recording(message), shown) == message@,
        request_text(RequestError::Recording(message), shown) == message@,
        request_text(RequestError::SessionId(message), shown) == message@,
        request_text(RequestError::Prefix(message), shown) == message@,
{
}

} // verus!

//! The configuration of the application: its checks, where it is kept, and the presets.

use vstd::prelude::*;
use vstd::string::*;

use crate::beamformer::{BeamformerAlgorithm, BeamformerDirectionSource};
use crate::pipeline::{ModuleConfig, PipelineConfig, PipelineConfigError, PIPELINE_CONFIG_VERSION};
use crate::single::single;
use crate::text::{
    blank, byte_len, chars_of, contains_char, contains_chars, contains_text, ends_with,
    has_name_chars,
    in_order, insert_in_order, is_blank, joined, name_chars, same_text, strip_tail, texts,
};

verus! {

pub const APP_CONFIG_VERSION: u32 = 1;

pub const MAX_PROFILE_NAME_LEN: usize = 64;

pub const MAX_PREFIX_LEN: usize = 128;

/// 15.0
pub const BITS_15: u32 = 0x4170_0000;

/// 0.0
pub const BITS_ZERO: u32 = 0;

/// The text holds something that leads out of a directory, or ends a path early.
pub open spec fn leaves_directory(s: Seq<char>) -> bool {
    contains_text(s, ".."@) || s.contains('/') || s.contains('\\') || s.contains('\0')
}

/// A name of at most `max` bytes that is safe as part of a file name.
pub open spec fn safe_name(s: Seq<char>, max: usize) -> bool {
    s.len() > 0 && byte_len(s) <= max && !leaves_directory(s) && name_chars(s)
}

/// What is wrong with a name.
#[derive(Clone, Copy, Debug, PartialEq, Eq, Structural)]
pub enum NameProblem {
    Length,
    LeavesDirectory,
    Characters,
}

pub open spec fn name_problem(s: Seq<char>, max: usize) -> Option<NameProblem> {
    if s.len() == 0 || byte_len(s) > max {
        Some(NameProblem::Length)
    } else if leaves_directory(s) {
        Some(NameProblem::LeavesDirectory)
    } else if !name_chars(s) {
        Some(NameProblem::Characters)
    } else {
        None
    }
}

/// The characters of a name alone already keep it in its directory: a name made of them holds no
/// separator and no dots.
pub proof fn law_name_characters_stay_in_the_directory(s: Seq<char>)
    requires
        name_chars(s),
    ensures
        !leaves_directory(s),
{
    reveal_strlit("..");
    if contains_text(s, ".."@) {
        let i = choose|i: int| crate::text::occurs_at(s, ".."@, i);
        assert(s.subrange(i, i + 2)[0] == ".."@[0]);
        assert(s[i] == '.');
        assert(crate::text::name_char(s[i]));
    }
    if s.contains('/') {
        let i = choose|i: int| 0 <= i < s.len() && s[i] == '/';
        assert(crate::text::name_char(s[i]));
    }
    if s.contains('\\') {
        let i = choose|i: int| 0 <= i < s.len() && s[i] == '\\';
        assert(crate::text::name_char(s[i]));
    }
    if s.contains('\0') {
        let i = choose|i: int| 0 <= i < s.len() && s[i] == '\0';
        assert(crate::text::name_char(s[i]));
    }
}

fn check_name(name: &str, max: usize) -> (problem: Option<NameProblem>)
    ensures
        problem == name_problem(name@, max),
{
    if name.is_empty() || name.len() > max {
        return Some(NameProblem::Length);
    }
    let chars = chars_of(name);
    let dots = chars_of("..");
    let s = chars.as_slice();
    if contains_chars(s, dots.as_slice()) || contains_char(s, '/') || contains_char(s, '\\')
        || contains_char(s, '\0') {
        return Some(NameProblem::LeavesDirectory);
    }
    if !has_name_chars(s) {
        return Some(NameProblem::Characters);
    }
    None
}

pub open spec fn profile_name_message(problem: NameProblem) -> Seq<char> {
    match problem {
        NameProblem::Length => "profile 名称长度必须在 1..=64"@,
        NameProblem::LeavesDirectory => "profile 名称不得包含 ..、路径分隔符或 NUL 字符"@,
        NameProblem::Characters => "profile 名称只允许 ASCII 字母、数字、_、-"@,
    }
}

pub open spec fn prefix_message(problem: NameProblem) -> Seq<char> {
    match problem {
        NameProblem::Length => "prefix 长度必须在 1..=128"@,
        NameProblem::LeavesDirectory => "prefix 不得包含 ..、路径分隔符或 NUL 字符"@,
        NameProblem::Characters => "prefix 只允许 ASCII 字母、数字、_、-"@,
    }
}

pub fn validate_profile_name(name: &str) -> (result: Result<(), String>)
    ensures
        result is Ok <==> safe_name(name@, MAX_PROFILE_NAME_LEN),
        result matches Err(message) ==> {
            &&& name_problem(name@, MAX_PROFILE_NAME_LEN) is Some
            &&& message@ == profile_name_message(name_problem(name@, MAX_PROFILE_NAME_LEN)->0)
        },
{
    match check_name(name, MAX_PROFILE_NAME_LEN) {
        None => Ok(()),
        Some(NameProblem::Length) => Err("profile 名称长度必须在 1..=64".to_owned()),
        Some(NameProblem::LeavesDirectory) => Err(
            "profile 名称不得包含 ..、路径分隔符或 NUL 字符".to_owned(),
        ),
        Some(NameProblem::Characters) => Err(
            "profile 名称只允许 ASCII 字母、数字、_、-".to_owned(),
        ),
    }
}

pub fn validate_prefix(prefix: &str) -> (result: Result<(), String>)
    ensures
        result is Ok <==> safe_name(prefix@, MAX_PREFIX_LEN),
        result matches Err(message) ==> {
            &&& name_problem(prefix@, MAX_PREFIX_LEN) is Some
            &&& message@ == prefix_message(name_problem(prefix@, MAX_PREFIX_LEN)->0)
        },
{
    match check_name(prefix, MAX_PREFIX_LEN) {
        None => Ok(()),
        Some(NameProblem::Length) => Err("prefix 长度必须在 1..=128".to_owned()),
        Some(NameProblem::LeavesDirectory) => Err(
            "prefix 不得包含 ..、路径分隔符或 NUL 字符".to_owned(),
        ),
        Some(NameProblem::Characters) => Err(
            "prefix 只允许 ASCII 字母、数字、_、-".to_owned(),
        ),
    }
}

#[derive(Debug)]
pub struct RecordingConfig {
    /// Zero records until stopped.
    pub duration_seconds: u64,
    pub out_dir: String,
    pub prefix: Option<String>,
}

pub fn default_out_dir() -> (dir: String)
    ensures
        dir@ == "recordings"@,
{
    "recordings".to_owned()
}

impl Default for RecordingConfig {
    fn default() -> (config: Self)
        ensures
            config.duration_seconds == 0,
            config.out_dir@ == "recordings"@,
            config.prefix is None,
    {
        RecordingConfig { duration_seconds: 0, out_dir: default_out_dir(), prefix: None }
    }
}

impl RecordingConfig {
    /// The directory is named, and the prefix, where there is one, is a safe name.
    pub open spec fn valid(&self) -> bool {
        &&& !blank(self.out_dir@)
        &&& !self.out_dir@.contains('\0')
        &&& self.prefix matches Some(prefix) ==> safe_name(prefix@, MAX_PREFIX_LEN)
    }

    /// What `validate` says of a configuration that is not valid.
    pub open spec fn problem(&self) -> Seq<char> {
        if blank(self.out_dir@) || self.out_dir@.contains('\0') {
            "out_dir 不能为空且不得包含 NUL 字符"@
        } else {
            prefix_message(name_problem(self.prefix->0@, MAX_PREFIX_LEN)->0)
        }
    }

    pub fn validate(&self) -> (result: Result<(), String>)
        ensures
            result is Ok <==> self.valid(),
            result matches Err(message) ==> message@ == self.problem(),
    {
        let dir = chars_of(self.out_dir.as_str());
        if is_blank(dir.as_slice()) || contains_char(dir.as_slice(), '\0') {
            return Err("out_dir 不能为空且不得包含 NUL 字符".to_owned());
        }
        match &self.prefix {
            Some(prefix) => validate_prefix(prefix.as_str()),
            None => Ok(()),
        }
    }
}

impl Clone for RecordingConfig {
    fn clone(&self) -> (config: Self)
        ensures
            config == *self,
    {
        RecordingConfig {
            duration_seconds: self.duration_seconds,
            out_dir: self.out_dir.clone(),
            prefix: match &self.prefix {
                Some(p) => Some(p.clone()),
                None => None,
            },
        }
    }
}

#[derive(Debug)]
pub struct AppConfig {
    pub version: u32,
    pub recording: RecordingConfig,
    pub pipeline_enabled: bool,
    pub pipeline: PipelineConfig,
}

/// Why a configuration is refused.
#[derive(Debug)]
pub enum AppConfigError {
    Version(u32),
    Recording(String),
    Pipeline(PipelineConfigError),
}

pub fn default_app_version() -> (version: u32)
    ensures
        version == APP_CONFIG_VERSION,
{
    APP_CONFIG_VERSION
}

/// The configuration that stands where none has been saved.
pub open spec fn is_default(config: AppConfig) -> bool {
    &&& config.version == APP_CONFIG_VERSION
    &&& !config.pipeline_enabled
    &&& config.pipeline.version == PIPELINE_CONFIG_VERSION
    &&& config.pipeline.modules@.len() == 0
    &&& config.recording.duration_seconds == 0
    &&& config.recording.out_dir@ == "recordings"@
    &&& config.recording.prefix is None
}

impl Default for AppConfig {
    fn default() -> (config: Self)
        ensures
            config.valid(),
            is_default(config),
    {
        let config = AppConfig {
            version: APP_CONFIG_VERSION,
            recording: RecordingConfig::default(),
            pipeline_enabled: false,
            pipeline: PipelineConfig::empty(),
        };
        proof {
            lemma_default_directory();
        }
        config
    }
}

proof fn lemma_default_directory()
    ensures
        !blank("recordings"@),
        !"recordings"@.contains('\0'),
{
    reveal_strlit("recordings");
    assert(!crate::text::white_space("recordings"@[0]));
}

impl AppConfig {
    /// The two say the same.
    pub open spec fn same_as(&self, other: AppConfig) -> bool {
        &&& self.version == other.version
        &&& self.recording == other.recording
        &&& self.pipeline_enabled == other.pipeline_enabled
        &&& self.pipeline.version == other.pipeline.version
        &&& self.pipeline.modules@ == other.pipeline.modules@
    }

    pub open spec fn valid(&self) -> bool {
        &&& self.version == APP_CONFIG_VERSION
        &&& self.recording.valid()
        &&& self.pipeline.valid()
    }

    /// The first thing that is wrong with the configuration.
    pub open spec fn refused_with(&self, e: AppConfigError) -> bool {
        if self.version != APP_CONFIG_VERSION {
            e == AppConfigError::Version(self.version)
        } else if !self.recording.valid() {
            e matches AppConfigError::Recording(message) && message@ == self.recording.problem()
        } else {
            e matches AppConfigError::Pipeline(problem) && !self.pipeline.valid()
                && self.pipeline.refused_with(problem)
        }
    }

    pub fn validate(&self) -> (result: Result<(), AppConfigError>)
        ensures
            result is Ok <==> self.valid(),
            result matches Err(e) ==> self.refused_with(e),
    {
        if self.version != APP_CONFIG_VERSION {
            return Err(AppConfigError::Version(self.version));
        }
        if let Err(message) = self.recording.validate() {
            return Err(AppConfigError::Recording(message));
        }
        match self.pipeline.validate() {
            Ok(()) => Ok(()),
            Err(e) => Err(AppConfigError::Pipeline(e)),
        }
    }
}

impl Clone for AppConfig {
    fn clone(&self) -> (config: Self)
        ensures
            config.same_as(*self),
            config.valid() == self.valid(),
    {
        AppConfig {
            version: self.version,
            recording: self.recording.clone(),
            pipeline_enabled: self.pipeline_enabled,
            pipeline: self.pipeline.clone(),
        }
    }
}

/// The components of the directory that holds the configuration: the directory for local
/// application data, where there is one, and the name of the application.
pub fn app_config_dir(local_app_data: Option<&str>) -> (result: Result<Vec<String>, String>)
    ensures
        match result {
            Ok(parts) => {
                &&& local_app_data is Some && local_app_data->0@.len() > 0
                &&& parts@.len() == 2
                &&& parts@[0]@ == local_app_data->0@
                &&& parts@[1]@ == "respeaker_algo"@
            },
            Err(message) => match local_app_data {
                None => message@ == "未找到 LOCALAPPDATA 环境变量，无法确定配置目录"@,
                Some(dir) => dir@.len() == 0 && message@ == "LOCALAPPDATA 为空"@,
            },
        },
{
    match local_app_data {
        None => Err("未找到 LOCALAPPDATA 环境变量，无法确定配置目录".to_owned()),
        Some(dir) => {
            if dir.is_empty() {
                return Err("LOCALAPPDATA 为空".to_owned());
            }
            let mut parts: Vec<String> = Vec::new();
            parts.push(dir.to_owned());
            parts.push("respeaker_algo".to_owned());
            Ok(parts)
        },
    }
}

/// The components of the path of the configuration file.
pub fn app_config_path(local_app_data: Option<&str>) -> (result: Result<Vec<String>, String>)
    ensures
        result is Ok <==> local_app_data is Some && local_app_data->0@.len() > 0,
        result matches Ok(parts) ==> {
            &&& parts@.len() == 3
            &&& parts@[0]@ == local_app_data->0@
            &&& parts@[1]@ == "respeaker_algo"@
            &&& parts@[2]@ == "config.toml"@
        },
        result matches Err(message) ==> message@ == (if local_app_data is None {
            "未找到 LOCALAPPDATA 环境变量，无法确定配置目录"@
        } else {
            "LOCALAPPDATA 为空"@
        }),
{
    match app_config_dir(local_app_data) {
        Ok(dir) => {
            let mut parts = dir;
            parts.push("config.toml".to_owned());
            Ok(parts)
        },
        Err(message) => Err(message),
    }
}

/// The components of the directory of the saved profiles.
pub fn profiles_dir(local_app_data: Option<&str>) -> (result: Result<Vec<String>, String>)
    ensures
        result is Ok <==> local_app_data is Some && local_app_data->0@.len() > 0,
        result matches Ok(parts) ==> {
            &&& parts@.len() == 3
            &&& parts@[0]@ == local_app_data->0@
            &&& parts@[1]@ == "respeaker_algo"@
            &&& parts@[2]@ == "profiles"@
        },
        result matches Err(message) ==> message@ == (if local_app_data is None {
            "未找到 LOCALAPPDATA 环境变量，无法确定配置目录"@
        } else {
            "LOCALAPPDATA 为空"@
        }),
{
    match app_config_dir(local_app_data) {
        Ok(dir) => {
            let mut parts = dir;
            parts.push("profiles".to_owned());
            Ok(parts)
        },
        Err(message) => Err(message),
    }
}

/// The components of the path of a profile. The name is checked before the directory.
pub fn profile_path(local_app_data: Option<&str>, name: &str) -> (result: Result<
    Vec<String>,
    String,
>)
    ensures
        result is Ok <==> safe_name(name@, MAX_PROFILE_NAME_LEN) && local_app_data is Some
            && local_app_data->0@.len() > 0,
        result matches Ok(parts) ==> {
            &&& parts@.len() == 4
            &&& parts@[0]@ == local_app_data->0@
            &&& parts@[1]@ == "respeaker_algo"@
            &&& parts@[2]@ == "profiles"@
            &&& parts@[3]@ == name@ + ".toml"@
        },
        result matches Err(message) ==> message@ == (if !safe_name(name@, MAX_PROFILE_NAME_LEN) {
            profile_name_message(name_problem(name@, MAX_PROFILE_NAME_LEN)->0)
        } else if local_app_data is None {
            "未找到 LOCALAPPDATA 环境变量，无法确定配置目录"@
        } else {
            "LOCALAPPDATA 为空"@
        }),
{
    if let Err(message) = validate_profile_name(name) {
        return Err(message);
    }
    match profiles_dir(local_app_data) {
        Ok(dir) => {
            let mut parts = dir;
            parts.push(joined(name, ".toml"));
            Ok(parts)
        },
        Err(message) => Err(message),
    }
}

/// The name of the temporary file through which a file is replaced.
pub fn temporary_name(file_name: &str, process_id: u64) -> (name: String)
    ensures
        name@ == "."@ + file_name@ + "."@ + crate::text::decimal(process_id as nat) + ".tmp"@,
{
    let mut name = ".".to_owned();
    name.append(file_name);
    name.append(".");
    crate::text::push_decimal(&mut name, process_id);
    name.append(".tmp");
    name
}

/// What came of reading the saved configuration.
#[derive(Debug)]
pub enum LoadOutcome {
    /// There is no directory for it.
    NoPath(String),
    Missing,
    Unreadable { path: String, error: String },
    Invalid { path: String, error: String },
    Loaded(AppConfig),
}

/// What is shown of a configuration that could not be used.
pub open spec fn load_warning(outcome: LoadOutcome) -> Option<Seq<char>> {
    match outcome {
        LoadOutcome::Unreadable { path, error } => Some(
            "读取配置 "@ + path@ + " 失败: "@ + error@,
        ),
        LoadOutcome::Invalid { path, error } => Some("配置解析失败 "@ + path@ + ": "@ + error@),
        _ => None,
    }
}

/// The configuration to start with: the one that was loaded, or the default where none was saved
/// or the saved one could not be used, which is then said. Without a directory to keep it in the
/// service does not start.
pub fn load_or_default(outcome: LoadOutcome) -> (result: Result<
    (AppConfig, Option<String>),
    String,
>)
    ensures
        match result {
            Err(error) => outcome == LoadOutcome::NoPath(error),
            Ok((config, warning)) => {
                &&& !(outcome is NoPath)
                &&& match outcome {
                    LoadOutcome::Loaded(loaded) => config == loaded,
                    _ => config.valid() && is_default(config),
                }
                &&& match warning {
                    Some(w) => load_warning(outcome) == Some(w@),
                    None => load_warning(outcome) is None,
                }
            },
        },
{
    match outcome {
        LoadOutcome::NoPath(error) => Err(error),
        LoadOutcome::Missing => Ok((AppConfig::default(), None)),
        LoadOutcome::Unreadable { path, error } => {
            let mut w = "读取配置 ".to_owned();
            w.append(path.as_str());
            w.append(" 失败: ");
            w.append(error.as_str());
            Ok((AppConfig::default(), Some(w)))
        },
        LoadOutcome::Invalid { path, error } => {
            let mut w = "配置解析失败 ".to_owned();
            w.append(path.as_str());
            w.append(": ");
            w.append(error.as_str());
            Ok((AppConfig::default(), Some(w)))
        },
        LoadOutcome::Loaded(config) => Ok((config, None)),
    }
}

/// The profile that a file of the profile directory holds, where it holds one: the name ends in
/// `.toml`, and what comes before is a safe name.
pub open spec fn profile_of(file: Seq<char>) -> Option<Seq<char>> {
    let name = file.take(file.len() - 5);
    if ends_with(file, ".toml"@) && safe_name(name, MAX_PROFILE_NAME_LEN) {
        Some(name)
    } else {
        None
    }
}

/// The profiles among some files, in the order of the files.
pub open spec fn profiles_among(files: Seq<String>) -> Seq<Seq<char>>
    decreases files.len(),
{
    if files.len() == 0 {
        Seq::empty()
    } else {
        let earlier = profiles_among(files.drop_last());
        match profile_of(files.last()@) {
            Some(name) => earlier.push(name),
            None => earlier,
        }
    }
}

/// The names of the profiles among the files of the profile directory, in dictionary order.
pub fn list_profiles(files: &[String]) -> (names: Vec<String>)
    ensures
        in_order(names@),
        texts(names@).to_multiset() == profiles_among(files@).to_multiset(),
{
    let mut names: Vec<String> = Vec::new();
    proof {
        assert(texts(names@) =~= profiles_among(files@.take(0)));
    }
    for j in 0..files.len()
        invariant
            in_order(names@),
            texts(names@).to_multiset() == profiles_among(files@.take(j as int)).to_multiset(),
    {
        let ghost file = files@[j as int]@;
        let ghost known = names@;
        let ghost earlier = profiles_among(files@.take(j as int));
        proof {
            reveal_strlit(".toml");
            assert(files@.take(j + 1).drop_last() =~= files@.take(j as int));
            assert(files@.take(j + 1).last() == files@[j as int]);
        }
        if let Some(name) = strip_tail(files[j].as_str(), ".toml") {
            assert(name@ =~= file.take(file.len() - 5));
            if validate_profile_name(name.as_str()).is_ok() {
                let ghost added = name@;
                insert_in_order(&mut names, name);
                proof {
                    let at = choose|at: int|
                        0 <= at <= known.len() && names@ == #[trigger] known.insert(at, name);
                    assert(texts(names@) =~= texts(known).insert(at, added));
                    vstd::seq_lib::to_multiset_insert(texts(known), at, added);
                    vstd::seq_lib::to_multiset_build(earlier, added);
                }
            }
        }
    }
    assert(files@.take(files@.len() as int) =~= files@);
    names
}

/// The presets that can be loaded like profiles.
#[derive(Clone, Copy, Debug, PartialEq, Eq, Structural)]
pub enum Preset {
    Pure,
    Doa,
    DoaBf,
    BfFixed,
}

/// The preset of a name; any other name is that of a saved profile.
pub fn preset_of(name: &str) -> (preset: Option<Preset>)
    ensures
        preset == (if name@ == "pure"@ {
            Some(Preset::Pure)
        } else if name@ == "doa"@ {
            Some(Preset::Doa)
        } else if name@ == "doa_bf"@ {
            Some(Preset::DoaBf)
        } else if name@ == "bf_fixed"@ {
            Some(Preset::BfFixed)
        } else {
            None
        }),
{
    if same_text(name, "pure") {
        Some(Preset::Pure)
    } else if same_text(name, "doa") {
        Some(Preset::Doa)
    } else if same_text(name, "doa_bf") {
        Some(Preset::DoaBf)
    } else if same_text(name, "bf_fixed") {
        Some(Preset::BfFixed)
    } else {
        None
    }
}

/// The estimator of the presets: the default settings, and the results written to a table.
pub open spec fn preset_doa_module() -> ModuleConfig {
    let d = crate::doa::default_doa_config();
    ModuleConfig::Doa {
        enabled: true,
        enable_viewer: true,
        csv: true,
        beta: d.beta,
        cpsd_tau_ms: d.cpsd_tau_ms,
        angle_offset_deg: d.angle_offset_deg,
        clockwise: d.clockwise,
        acquire_confidence: d.acquire_confidence,
        update_confidence: d.update_confidence,
        max_coast_ms: d.max_coast_ms,
    }
}

/// A beamformer of the presets: a gain of 15 dB, both channels in the file, and the compressor.
pub open spec fn preset_beamformer_module(fixed: bool) -> ModuleConfig {
    let d = crate::beamformer::default_beamformer_config();
    ModuleConfig::Beamformer {
        enabled: true,
        algorithm: if fixed {
            BeamformerAlgorithm::DelaySum
        } else {
            BeamformerAlgorithm::RobustSuperdirective
        },
        direction_source: if fixed {
            BeamformerDirectionSource::Fixed
        } else {
            BeamformerDirectionSource::Doa
        },
        fixed_internal_angle_deg: d.fixed_internal_angle_deg,
        fallback_internal_angle_deg: d.fallback_internal_angle_deg,
        direction_smoothing_ms: if fixed {
            single(BITS_ZERO)
        } else {
            d.direction_smoothing_ms
        },
        min_wng_db: d.min_wng_db,
        sd_low_start_hz: d.sd_low_start_hz,
        sd_low_full_hz: d.sd_low_full_hz,
        sd_high_full_hz: d.sd_high_full_hz,
        sd_high_end_hz: d.sd_high_end_hz,
        output_gain_db: single(BITS_15),
        wav: true,
        compare_wav: true,
        enable_drc: true,
    }
}

/// The modules of a preset.
pub open spec fn preset_modules(preset: Preset) -> Seq<ModuleConfig> {
    match preset {
        Preset::Pure => Seq::empty(),
        Preset::Doa => seq![preset_doa_module()],
        Preset::DoaBf => seq![preset_doa_module(), preset_beamformer_module(false)],
        Preset::BfFixed => seq![preset_beamformer_module(true)],
    }
}

fn make_doa_module() -> (module: ModuleConfig)
    ensures
        module == preset_doa_module(),
{
    let d = crate::doa::DoaConfig::default();
    ModuleConfig::Doa {
        enabled: true,
        enable_viewer: true,
        csv: true,
        beta: d.beta,
        cpsd_tau_ms: d.cpsd_tau_ms,
        angle_offset_deg: d.angle_offset_deg,
        clockwise: d.clockwise,
        acquire_confidence: d.acquire_confidence,
        update_confidence: d.update_confidence,
        max_coast_ms: d.max_coast_ms,
    }
}

fn make_beamformer_module(fixed: bool) -> (module: ModuleConfig)
    ensures
        module == preset_beamformer_module(fixed),
{
    let d = crate::beamformer::BeamformerConfig::default();
    ModuleConfig::Beamformer {
        enabled: true,
        algorithm: if fixed {
            BeamformerAlgorithm::DelaySum
        } else {
            BeamformerAlgorithm::RobustSuperdirective
        },
        direction_source: if fixed {
            BeamformerDirectionSource::Fixed
        } else {
            BeamformerDirectionSource::Doa
        },
        fixed_internal_angle_deg: d.fixed_internal_angle_deg,
        fallback_internal_angle_deg: d.fallback_internal_angle_deg,
        direction_smoothing_ms: if fixed {
            single(BITS_ZERO)
        } else {
            d.direction_smoothing_ms
        },
        min_wng_db: d.min_wng_db,
        sd_low_start_hz: d.sd_low_start_hz,
        sd_low_full_hz: d.sd_low_full_hz,
        sd_high_full_hz: d.sd_high_full_hz,
        sd_high_end_hz: d.sd_high_end_hz,
        output_gain_db: single(BITS_15),
        wav: true,
        compare_wav: true,
        enable_drc: true,
    }
}

/// A configuration is that of a preset: its modules, and a recording without a time limit into the
/// default directory, named after the time.
pub open spec fn is_preset(config: AppConfig, preset: Preset) -> bool {
    &&& config.version == APP_CONFIG_VERSION
    &&& config.pipeline_enabled == !(preset is Pure)
    &&& config.pipeline.version == PIPELINE_CONFIG_VERSION
    &&& config.pipeline.modules@ == preset_modules(preset)
    &&& config.recording.duration_seconds == 0
    &&& config.recording.out_dir@ == "recordings"@
    &&& config.recording.prefix is None
}

/// The configuration of a preset. All presets are valid.
pub fn preset_config(preset: Preset) -> (config: AppConfig)
    ensures
        config.valid(),
        is_preset(config, preset),
{
    let mut config = AppConfig::default();
    match preset {
        Preset::Pure => {},
        Preset::Doa => {
            config.pipeline.modules.push(make_doa_module());
        },
        Preset::DoaBf => {
            config.pipeline.modules.push(make_doa_module());
            config.pipeline.modules.push(make_beamformer_module(false));
        },
        Preset::BfFixed => {
            config.pipeline.modules.push(make_beamformer_module(true));
        },
    }
    config.pipeline_enabled = match preset {
        Preset::Pure => false,
        _ => true,
    };
    proof {
        let modules = config.pipeline.modules@;
        assert(modules =~= preset_modules(preset));
        assert(preset_doa_module().doa_settings() == crate::doa::default_doa_config());
        assert(preset_doa_module().doa_settings().problem() is None);
        assert(preset_beamformer_module(true).beamformer_settings().problem() is None);
        assert(preset_beamformer_module(false).beamformer_settings().problem() is None);
        if modules.len() == 2 {
            assert(modules[0].is_enabled_doa());
            assert(!modules[0].is_enabled_beamformer());
            assert(crate::pipeline::doa_before(modules, 1));
        }
        assert forall|i: int| 0 <= i < modules.len() implies #[trigger] crate::pipeline::module_problem(
            modules,
            i,
        ) is None by {}
    }
    config
}

/// Recording without any processing.
pub fn preset_pure() -> (config: AppConfig)
    ensures
        config.valid(),
        is_preset(config, Preset::Pure),
{
    preset_config(Preset::Pure)
}

/// Directions only.
pub fn preset_doa() -> (config: AppConfig)
    ensures
        config.valid(),
        is_preset(config, Preset::Doa),
{
    preset_config(Preset::Doa)
}

/// A beam that follows the direction.
pub fn preset_doa_bf() -> (config: AppConfig)
    ensures
        config.valid(),
        is_preset(config, Preset::DoaBf),
{
    preset_config(Preset::DoaBf)
}

/// A beam in a fixed direction.
pub fn preset_bf_fixed() -> (config: AppConfig)
    ensures
        config.valid(),
        is_preset(config, Preset::BfFixed),
{
    preset_config(Preset::BfFixed)
}

/// Exactly these names are accepted: not empty, not longer than allowed, and made of digits, letters
/// of ASCII, dashes and underscores only.
pub proof fn law_accepted_names(s: Seq<char>, max: usize)
    requires
        s.len() <= usize::MAX,
    ensures
        safe_name(s, max) <==> 0 < s.len() <= max && forall|i: int|
            0 <= i < s.len() ==> {
                ||| '0' <= #[trigger] s[i] <= '9'
                ||| 'A' <= s[i] <= 'Z'
                ||| 'a' <= s[i] <= 'z'
                ||| s[i] == '-'
                ||| s[i] == '_'
            },
        name_problem(s, max) is None <==> safe_name(s, max),
{
    if forall|i: int|
        0 <= i < s.len() ==> {
            ||| '0' <= #[trigger] s[i] <= '9'
            ||| 'A' <= s[i] <= 'Z'
            ||| 'a' <= s[i] <= 'z'
            ||| s[i] == '-'
            ||| s[i] == '_'
        } {
        assert(name_chars(s));
    }
    if name_chars(s) {
        crate::text::lemma_name_bytes(s);
        law_name_characters_stay_in_the_directory(s);
        assert forall|i: int| 0 <= i < s.len() implies {
            ||| '0' <= #[trigger] s[i] <= '9'
            ||| 'A' <= s[i] <= 'Z'
            ||| 'a' <= s[i] <= 'z'
            ||| s[i] == '-'
            ||| s[i] == '_'
        } by {
            assert(crate::text::name_char(s[i]));
        }
    }
}

/// What is said of a refused name: its length is told first, then that it leads out of the
/// directory, and any other character last.
pub proof fn law_names_are_refused_for_a_reason(s: Seq<char>, max: usize)
    ensures
        name_problem(s, max) == Some(NameProblem::Length) <==> s.len() == 0 || byte_len(s) > max,
        0 < s.len() && byte_len(s) <= max && (s.contains('/') || s.contains('\\') || s.contains(
            '\0',
        ) || contains_text(s, ".."@)) ==> name_problem(s, max) == Some(NameProblem::LeavesDirectory),
        0 < s.len() && byte_len(s) <= max && !s.contains('/') && !s.contains('\\') && !s.contains(
            '\0',
        ) && !contains_text(s, ".."@) && !name_chars(s) ==> name_problem(s, max) == Some(
            NameProblem::Characters,
        ),
{
}

/// A recording is accepted exactly when its directory holds something besides white space and no
/// end of text, and its prefix, where there is one, is a name of at most 128 characters.
pub proof fn law_accepted_recordings(config: RecordingConfig)
    ensures
        config.valid() <==> {
            &&& exists|i: int|
                0 <= i < config.out_dir@.len() && !crate::text::white_space(
                    #[trigger] config.out_dir@[i],
                )
            &&& forall|i: int|
                0 <= i < config.out_dir@.len() ==> #[trigger] config.out_dir@[i] != '\0'
            &&& config.prefix matches Some(prefix) ==> safe_name(prefix@, 128)
        },
{
    let dir = config.out_dir@;
    if dir.contains('\0') {
        let i = choose|i: int| 0 <= i < dir.len() && dir[i] == '\0';
        assert(dir[i] == '\0');
    }
}

/// A configuration is accepted exactly when its version is known, its recording is accepted, and its
/// pipeline is, whether the pipeline is switched on or not.
pub proof fn law_accepted_applications(config: AppConfig)
    ensures
        config.valid() <==> config.version == 1 && config.recording.valid()
            && config.pipeline.valid(),
{
}

/// A file of the profile directory is a profile exactly when its name is that of the profile with
/// `.toml` behind it, and the name is accepted.
pub proof fn law_profiles_are_their_files(name: Seq<char>, file: Seq<char>)
    ensures
        profile_of(file) == Some(name) <==> safe_name(name, 64) && file == name + ".toml"@,
{
    reveal_strlit(".toml");
    if file == name + ".toml"@ {
        assert(file.take(file.len() - 5) =~= name);
        assert(file.skip(file.len() - 5) =~= ".toml"@);
    }
    if profile_of(file) == Some(name) {
        assert(file =~= file.take(file.len() - 5) + file.skip(file.len() - 5));
    }
}

/// The list of profiles holds a name exactly when one of the files is the profile of that name.
pub proof fn law_every_profile_is_listed(files: Seq<String>, name: Seq<char>)
    ensures
        profiles_among(files).contains(name) <==> safe_name(name, 64) && exists|i: int|
            0 <= i < files.len() && (#[trigger] files[i])@ == name + ".toml"@,
    decreases files.len(),
{
    if files.len() > 0 {
        let rest = files.drop_last();
        let earlier = profiles_among(rest);
        let all = profiles_among(files);
        law_every_profile_is_listed(rest, name);
        law_profiles_are_their_files(name, files.last()@);
        assert(files.last() == files[files.len() - 1]);
        if earlier.contains(name) {
            let k = choose|k: int| 0 <= k < earlier.len() && earlier[k] == name;
            assert(all[k] == name);
            let i = choose|i: int| 0 <= i < rest.len() && (#[trigger] rest[i])@ == name + ".toml"@;
            assert(files[i]@ == name + ".toml"@);
        }
        if profile_of(files.last()@) == Some(name) {
            assert(all[all.len() - 1] == name);
        }
        if all.contains(name) && !earlier.contains(name) {
            let k = choose|k: int| 0 <= k < all.len() && all[k] == name;
            if k < earlier.len() {
                assert(earlier[k] == name);
            }
        }
        if exists|i: int| 0 <= i < files.len() && (#[trigger] files[i])@ == name + ".toml"@ {
            let i = choose|i: int| 0 <= i < files.len() && (#[trigger] files[i])@ == name + ".toml"@;
            if i < rest.len() {
                assert(rest[i]@ == name + ".toml"@);
            }
        }
    }
}

/// The presets by what they do: which of them estimate directions and show and write them, which of
/// them form a beam, and what the beam steers by.
pub proof fn law_presets_do_what_they_are_named_after(preset: Preset)
    ensures
        ({
            let modules = preset_modules(preset);
            let estimates = preset is Doa || preset is DoaBf;
            let beams = preset is DoaBf || preset is BfFixed;
            &&& modules.len() == (if estimates && beams {
                2int
            } else if estimates || beams {
                1
            } else {
                0
            })
            &&& estimates ==> (modules[0] matches ModuleConfig::Doa {
                enabled,
                enable_viewer,
                csv,
                ..
            } && enabled && enable_viewer && csv)
            &&& beams ==> (modules.last() matches ModuleConfig::Beamformer {
                enabled,
                algorithm,
                direction_source,
                wav,
                compare_wav,
                enable_drc,
                output_gain_db,
                ..
            } && {
                &&& enabled && wav && compare_wav && enable_drc
                &&& output_gain_db == single(0x4170_0000)
                &&& preset is DoaBf ==> direction_source is Doa && algorithm is RobustSuperdirective
                &&& preset is BfFixed ==> direction_source is Fixed && algorithm is DelaySum
            })
        }),
{
}

/// Configurations that say the same agree in every part, and one is accepted where the other is.
pub proof fn law_same_configurations_agree(a: AppConfig, b: AppConfig)
    requires
        a.same_as(b),
    ensures
        a.version == b.version,
        a.recording.duration_seconds == b.recording.duration_seconds,
        a.recording.out_dir == b.recording.out_dir,
        a.recording.prefix == b.recording.prefix,
        a.pipeline_enabled == b.pipeline_enabled,
        a.pipeline.version == b.pipeline.version,
        a.pipeline.modules@ == b.pipeline.modules@,
        a.valid() <==> b.valid(),
{
}

/// Where nothing was saved, and with every preset, a recording has no time limit, goes to
/// `recordings` and is named after the time; only the presets with modules switch the pipeline on.
pub proof fn law_defaults_record_until_stopped(config: AppConfig, preset: Preset)
    ensures
        is_default(config) || is_preset(config, preset) ==> {
            &&& config.version == 1
            &&& config.pipeline.version == 1
            &&& config.recording.duration_seconds == 0
            &&& config.recording.out_dir@ == "recordings"@
            &&& config.recording.prefix is None
        },
        is_default(config) ==> !config.pipeline_enabled && config.pipeline.modules@.len() == 0,
        is_preset(config, preset) ==> (config.pipeline_enabled <==> config.pipeline.modules@.len()
            > 0),
        is_preset(config, preset) ==> config.pipeline.modules@ == preset_modules(preset),
{
}

/// A configuration is refused for its version before anything else, for its recording before its
/// pipeline, and a recording for its directory before its prefix.
pub proof fn law_refusals_come_in_order(config: AppConfig, e: AppConfigError)
    requires
        config.refused_with(e),
    ensures
        config.version != 1 ==> e == AppConfigError::Version(config.version),
        config.version == 1 && !config.recording.valid() ==> (
        e matches AppConfigError::Recording(message) && message@ == config.recording.problem()),
        config.version == 1 && config.recording.valid() ==> (
        e matches AppConfigError::Pipeline(problem) && config.pipeline.refused_with(problem)),
        blank(config.recording.out_dir@) || config.recording.out_dir@.contains('\0')
            ==> config.recording.problem() == "out_dir 不能为空且不得包含 NUL 字符"@,
        !blank(config.recording.out_dir@) && !config.recording.out_dir@.contains('\0')
            && config.recording.prefix is Some ==> config.recording.problem() == prefix_message(
            name_problem(config.recording.prefix->0@, 128)->0,
        ),
{
}

/// A configuration that could not be read, or not be understood, is told with its path and the
/// reason; one that was loaded, or was never saved, is not worth a warning.
pub proof fn law_unusable_configurations_are_told(outcome: LoadOutcome)
    ensures
        outcome is NoPath || outcome is Missing || outcome is Loaded ==> load_warning(outcome)
            is None,
        outcome matches LoadOutcome::Unreadable { path, error } ==> load_warning(outcome) == Some(
            "读取配置 "@ + path@ + " 失败: "@ + error@,
        ),
        outcome matches LoadOutcome::Invalid { path, error } ==> load_warning(outcome) == Some(
            "配置解析失败 "@ + path@ + ": "@ + error@,
        ),
{
}

/// What is said of a refused name speaks of what is wrong with it: the length that is allowed, what
/// leads out of the directory, or the characters that are allowed.
pub proof fn law_refused_names_are_told_why(problem: NameProblem)
    ensures
        problem is Length ==> contains_text(profile_name_message(problem), "1..=64"@)
            && contains_text(prefix_message(problem), "1..=128"@),
        problem is LeavesDirectory ==> contains_text(profile_name_message(problem), "NUL"@)
            && contains_text(prefix_message(problem), "NUL"@),
        problem is Characters ==> contains_text(profile_name_message(problem), "ASCII"@)
            && contains_text(prefix_message(problem), "ASCII"@),
{
    reveal_strlit("1..=64");
    reveal_strlit("1..=128");
    reveal_strlit("NUL");
    reveal_strlit("ASCII");
    reveal_strlit("profile 名称长度必须在 1..=64");
    reveal_strlit("profile 名称不得包含 ..、路径分隔符或 NUL 字符");
    reveal_strlit("profile 名称只允许 ASCII 字母、数字、_、-");
    reveal_strlit("prefix 长度必须在 1..=128");
    reveal_strlit("prefix 不得包含 ..、路径分隔符或 NUL 字符");
    reveal_strlit("prefix 只允许 ASCII 字母、数字、_、-");
    lemma_part_at(profile_name_message(NameProblem::Length), "1..=64"@, 16);
    lemma_part_at(prefix_message(NameProblem::Length), "1..=128"@, 13);
    lemma_part_at(profile_name_message(NameProblem::LeavesDirectory), "NUL"@, 25);
    lemma_part_at(prefix_message(NameProblem::LeavesDirectory), "NUL"@, 22);
    lemma_part_at(profile_name_message(NameProblem::Characters), "ASCII"@, 14);
    lemma_part_at(prefix_message(NameProblem::Characters), "ASCII"@, 11);
}

proof fn lemma_part_at(text: Seq<char>, part: Seq<char>, at: int)
    requires
        0 <= at,
        at + part.len() <= text.len(),
        forall|i: int| 0 <= i < part.len() ==> #[trigger] part[i] == text[at + i],
    ensures
        contains_text(text, part),
{
    assert(text.subrange(at, at + part.len()) =~= part);
    assert(crate::text::occurs_at(text, part, at));
}

} // verus!

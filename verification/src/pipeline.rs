//! The processing pipeline: its configuration, the plan that follows from it, and what its
//! modules share.

use vstd::prelude::*;
use vstd::string::*;

use crate::beamformer::{
    BeamformerAlgorithm, BeamformerConfig, BeamformerConfigError, BeamformerDirectionSource,
};
use crate::doa::{default_doa_config, DoaConfig, DoaConfigError, DoaResult, SAMPLE_RATE};
use crate::single::Single;
use crate::text::{decimal, push_decimal, push_wide_decimal};

verus! {

pub const PIPELINE_CONFIG_VERSION: u32 = 1;

/// The settings of one module.
#[derive(Clone, Copy, Debug, PartialEq, Eq, Structural)]
pub enum ModuleConfig {
    Doa {
        enabled: bool,
        enable_viewer: bool,
        csv: bool,
        beta: Single,
        cpsd_tau_ms: Single,
        angle_offset_deg: Single,
        clockwise: bool,
        acquire_confidence: Single,
        update_confidence: Single,
        max_coast_ms: u32,
    },
    Beamformer {
        enabled: bool,
        algorithm: BeamformerAlgorithm,
        direction_source: BeamformerDirectionSource,
        fixed_internal_angle_deg: Single,
        fallback_internal_angle_deg: Single,
        direction_smoothing_ms: Single,
        min_wng_db: Single,
        sd_low_start_hz: Single,
        sd_low_full_hz: Single,
        sd_high_full_hz: Single,
        sd_high_end_hz: Single,
        output_gain_db: Single,
        wav: bool,
        compare_wav: bool,
        enable_drc: bool,
    },
}

/// The modules of the pipeline, in the order in which they run.
#[derive(Debug)]
pub struct PipelineConfig {
    pub version: u32,
    pub modules: Vec<ModuleConfig>,
}

/// Why a pipeline is refused.
#[derive(Clone, Copy, Debug, PartialEq, Eq, Structural)]
pub enum PipelineConfigError {
    Version(u32),
    DuplicateDoa,
    Doa(DoaConfigError),
    DuplicateBeamformer,
    DirectionNeedsDoa,
    Beamformer(BeamformerConfigError),
}

impl ModuleConfig {
    pub open spec fn is_enabled(self) -> bool {
        match self {
            ModuleConfig::Doa { enabled, .. } => enabled,
            ModuleConfig::Beamformer { enabled, .. } => enabled,
        }
    }

    pub open spec fn is_enabled_doa(self) -> bool {
        self is Doa && self.is_enabled()
    }

    pub open spec fn is_enabled_beamformer(self) -> bool {
        self is Beamformer && self.is_enabled()
    }

    /// The estimator settings of the module.
    pub open spec fn doa_settings(self) -> DoaConfig {
        match self {
            ModuleConfig::Doa {
                beta,
                cpsd_tau_ms,
                angle_offset_deg,
                clockwise,
                acquire_confidence,
                update_confidence,
                max_coast_ms,
                ..
            } => DoaConfig {
                sample_rate: SAMPLE_RATE,
                beta,
                cpsd_tau_ms,
                angle_offset_deg,
                clockwise,
                acquire_confidence,
                update_confidence,
                max_coast_ms,
            },
            _ => default_doa_config(),
        }
    }

    /// The beamformer settings of the module.
    pub open spec fn beamformer_settings(self) -> BeamformerConfig {
        match self {
            ModuleConfig::Beamformer {
                algorithm,
                direction_source,
                fixed_internal_angle_deg,
                fallback_internal_angle_deg,
                direction_smoothing_ms,
                min_wng_db,
                sd_low_start_hz,
                sd_low_full_hz,
                sd_high_full_hz,
                sd_high_end_hz,
                output_gain_db,
                wav,
                compare_wav,
                enable_drc,
                ..
            } => BeamformerConfig {
                enabled: true,
                algorithm,
                direction_source,
                fixed_internal_angle_deg,
                fallback_internal_angle_deg,
                direction_smoothing_ms,
                min_wng_db,
                sd_low_start_hz,
                sd_low_full_hz,
                sd_high_full_hz,
                sd_high_end_hz,
                output_gain_db,
                wav,
                compare_wav,
                enable_drc,
            },
            _ => crate::beamformer::default_beamformer_config(),
        }
    }

    fn to_doa_config(&self) -> (config: DoaConfig)
        requires
            self is Doa,
        ensures
            config == self.doa_settings(),
    {
        match *self {
            ModuleConfig::Doa {
                beta,
                cpsd_tau_ms,
                angle_offset_deg,
                clockwise,
                acquire_confidence,
                update_confidence,
                max_coast_ms,
                ..
            } => DoaConfig {
                sample_rate: SAMPLE_RATE,
                beta,
                cpsd_tau_ms,
                angle_offset_deg,
                clockwise,
                acquire_confidence,
                update_confidence,
                max_coast_ms,
            },
            _ => DoaConfig::default(),
        }
    }

    fn to_beamformer_config(&self) -> (config: BeamformerConfig)
        requires
            self is Beamformer,
        ensures
            config == self.beamformer_settings(),
    {
        match *self {
            ModuleConfig::Beamformer {
                algorithm,
                direction_source,
                fixed_internal_angle_deg,
                fallback_internal_angle_deg,
                direction_smoothing_ms,
                min_wng_db,
                sd_low_start_hz,
                sd_low_full_hz,
                sd_high_full_hz,
                sd_high_end_hz,
                output_gain_db,
                wav,
                compare_wav,
                enable_drc,
                ..
            } => BeamformerConfig {
                enabled: true,
                algorithm,
                direction_source,
                fixed_internal_angle_deg,
                fallback_internal_angle_deg,
                direction_smoothing_ms,
                min_wng_db,
                sd_low_start_hz,
                sd_low_full_hz,
                sd_high_full_hz,
                sd_high_end_hz,
                output_gain_db,
                wav,
                compare_wav,
                enable_drc,
            },
            _ => BeamformerConfig::default(),
        }
    }

    /// A module of the estimator with the settings used where nothing is configured.
    pub fn default_doa() -> (module: Self)
        ensures
            module.is_enabled_doa(),
            module.doa_settings() == default_doa_config(),
            module matches ModuleConfig::Doa { enable_viewer, csv, .. } && enable_viewer && !csv,
    {
        let d = DoaConfig::default();
        ModuleConfig::Doa {
            enabled: default_enabled(),
            enable_viewer: default_enable_viewer(),
            csv: false,
            beta: d.beta,
            cpsd_tau_ms: d.cpsd_tau_ms,
            angle_offset_deg: d.angle_offset_deg,
            clockwise: d.clockwise,
            acquire_confidence: d.acquire_confidence,
            update_confidence: d.update_confidence,
            max_coast_ms: default_max_coast_ms(),
        }
    }

    /// A module of the beamformer with the settings used where nothing is configured.
    pub fn default_beamformer() -> (module: Self)
        ensures
            module.is_enabled_beamformer(),
            module.beamformer_settings() == crate::beamformer::default_beamformer_config(),
    {
        let d = BeamformerConfig::default();
        ModuleConfig::Beamformer {
            enabled: default_enabled(),
            algorithm: default_beamformer_algorithm(),
            direction_source: default_beamformer_direction_source(),
            fixed_internal_angle_deg: d.fixed_internal_angle_deg,
            fallback_internal_angle_deg: d.fallback_internal_angle_deg,
            direction_smoothing_ms: d.direction_smoothing_ms,
            min_wng_db: d.min_wng_db,
            sd_low_start_hz: d.sd_low_start_hz,
            sd_low_full_hz: d.sd_low_full_hz,
            sd_high_full_hz: d.sd_high_full_hz,
            sd_high_end_hz: d.sd_high_end_hz,
            output_gain_db: d.output_gain_db,
            wav: default_beamformer_wav(),
            compare_wav: default_compare_wav(),
            enable_drc: d.enable_drc,
        }
    }
}

pub fn default_enabled() -> (b: bool)
    ensures
        b,
{
    true
}

pub fn default_enable_viewer() -> (b: bool)
    ensures
        b,
{
    true
}

pub fn default_max_coast_ms() -> (ms: u32)
    ensures
        ms == default_doa_config().max_coast_ms,
{
    DoaConfig::default().max_coast_ms
}

pub fn default_beamformer_algorithm() -> (algorithm: BeamformerAlgorithm)
    ensures
        algorithm is RobustSuperdirective,
{
    BeamformerAlgorithm::RobustSuperdirective
}

pub fn default_beamformer_direction_source() -> (source: BeamformerDirectionSource)
    ensures
        source is Doa,
{
    BeamformerDirectionSource::Doa
}

pub fn default_beamformer_wav() -> (b: bool)
    ensures
        b,
{
    true
}

pub fn default_compare_wav() -> (b: bool)
    ensures
        !b,
{
    false
}

/// Some module before position `i` is an enabled estimator.
pub open spec fn doa_before(modules: Seq<ModuleConfig>, i: int) -> bool {
    exists|j: int| 0 <= j < i && (#[trigger] modules[j]).is_enabled_doa()
}

/// Some module before position `i` is an enabled beamformer.
pub open spec fn beamformer_before(modules: Seq<ModuleConfig>, i: int) -> bool {
    exists|j: int| 0 <= j < i && (#[trigger] modules[j]).is_enabled_beamformer()
}

/// What is wrong with the module at position `i`, given those before it: an enabled module is
/// refused when one of its kind came before, when it steers by an estimator that did not come
/// before, or when its settings are refused. A disabled module is never refused.
pub open spec fn module_problem(modules: Seq<ModuleConfig>, i: int) -> Option<PipelineConfigError> {
    let module = modules[i];
    if !module.is_enabled() {
        None
    } else {
        match module {
            ModuleConfig::Doa { .. } => if doa_before(modules, i) {
                Some(PipelineConfigError::DuplicateDoa)
            } else {
                match module.doa_settings().problem() {
                    Some(e) => Some(PipelineConfigError::Doa(e)),
                    None => None,
                }
            },
            ModuleConfig::Beamformer { direction_source, .. } => if beamformer_before(modules, i) {
                Some(PipelineConfigError::DuplicateBeamformer)
            } else if direction_source is Doa && !doa_before(modules, i) {
                Some(PipelineConfigError::DirectionNeedsDoa)
            } else {
                match module.beamformer_settings().problem() {
                    Some(e) => Some(PipelineConfigError::Beamformer(e)),
                    None => None,
                }
            },
        }
    }
}

/// The module at position `i` is the first with a problem.
pub open spec fn first_refused_at(modules: Seq<ModuleConfig>, i: int) -> bool {
    &&& 0 <= i < modules.len()
    &&& module_problem(modules, i) is Some
    &&& forall|j: int| 0 <= j < i ==> #[trigger] module_problem(modules, j) is None
}

/// The first module with a problem has this one.
pub open spec fn first_module_problem(
    modules: Seq<ModuleConfig>,
    e: PipelineConfigError,
) -> bool {
    exists|i: int| #[trigger]
        first_refused_at(modules, i) && module_problem(modules, i) == Some(e)
}

impl PipelineConfig {
    pub open spec fn valid(&self) -> bool {
        &&& self.version == PIPELINE_CONFIG_VERSION
        &&& forall|i: int|
            0 <= i < self.modules@.len() ==> #[trigger] module_problem(self.modules@, i) is None
    }

    /// A pipeline without modules.
    pub fn empty() -> (config: Self)
        ensures
            config.valid(),
            config.version == PIPELINE_CONFIG_VERSION,
            config.modules@.len() == 0,
    {
        PipelineConfig { version: PIPELINE_CONFIG_VERSION, modules: Vec::new() }
    }

    /// The first thing that is wrong with the pipeline.
    pub open spec fn refused_with(&self, e: PipelineConfigError) -> bool {
        if self.version != PIPELINE_CONFIG_VERSION {
            e == PipelineConfigError::Version(self.version)
        } else {
            first_module_problem(self.modules@, e)
        }
    }

    pub fn validate(&self) -> (result: Result<(), PipelineConfigError>)
        ensures
            result is Ok <==> self.valid(),
            result matches Err(e) ==> self.refused_with(e),
    {
        if self.version != PIPELINE_CONFIG_VERSION {
            return Err(PipelineConfigError::Version(self.version));
        }
        match self.first_refused() {
            Some((i, e)) => {
                assert(first_refused_at(self.modules@, i as int));
                Err(e)
            },
            None => Ok(()),
        }
    }

    /// The first module with a problem, and the problem.
    pub fn first_refused(&self) -> (refused: Option<(usize, PipelineConfigError)>)
        ensures
            match refused {
                Some((i, e)) => first_refused_at(self.modules@, i as int) && module_problem(
                    self.modules@,
                    i as int,
                ) == Some(e),
                None => forall|i: int|
                    0 <= i < self.modules@.len() ==> #[trigger] module_problem(self.modules@, i)
                        is None,
            },
    {
        let mut doa_seen = false;
        let mut bf_seen = false;
        for i in 0..self.modules.len()
            invariant
                doa_seen == doa_before(self.modules@, i as int),
                bf_seen == beamformer_before(self.modules@, i as int),
                forall|j: int| 0 <= j < i ==> #[trigger] module_problem(self.modules@, j) is None,
        {
            let module = self.modules[i];
            match module {
                ModuleConfig::Doa { enabled, .. } => {
                    if enabled {
                        if doa_seen {
                            let e = PipelineConfigError::DuplicateDoa;
                            assert(module_problem(self.modules@, i as int) == Some(e));
                            return Some((i, e));
                        }
                        doa_seen = true;
                        match module.to_doa_config().validate() {
                            Err(inner) => {
                                let e = PipelineConfigError::Doa(inner);
                                assert(module_problem(self.modules@, i as int) == Some(e));
                                return Some((i, e));
                            },
                            Ok(()) => {},
                        }
                        assert(self.modules@[i as int].is_enabled_doa());
                    } else {
                        assert(!self.modules@[i as int].is_enabled_doa());
                    }
                },
                ModuleConfig::Beamformer { enabled, direction_source, .. } => {
                    if enabled {
                        if bf_seen {
                            let e = PipelineConfigError::DuplicateBeamformer;
                            assert(module_problem(self.modules@, i as int) == Some(e));
                            return Some((i, e));
                        }
                        bf_seen = true;
                        if direction_source == BeamformerDirectionSource::Doa && !doa_seen {
                            let e = PipelineConfigError::DirectionNeedsDoa;
                            assert(module_problem(self.modules@, i as int) == Some(e));
                            return Some((i, e));
                        }
                        match module.to_beamformer_config().validate() {
                            Err(inner) => {
                                let e = PipelineConfigError::Beamformer(inner);
                                assert(module_problem(self.modules@, i as int) == Some(e));
                                return Some((i, e));
                            },
                            Ok(()) => {},
                        }
                        assert(self.modules@[i as int].is_enabled_beamformer());
                    } else {
                        assert(!self.modules@[i as int].is_enabled_beamformer());
                    }
                },
            }
        }
        None
    }
}

impl Clone for PipelineConfig {
    fn clone(&self) -> (config: Self)
        ensures
            config.version == self.version,
            config.modules@ == self.modules@,
    {
        let mut modules: Vec<ModuleConfig> = Vec::new();
        for i in 0..self.modules.len()
            invariant
                modules@ == self.modules@.take(i as int),
        {
            modules.push(self.modules[i]);
            assert(modules@ =~= self.modules@.take(i + 1));
        }
        assert(self.modules@.take(self.modules@.len() as int) =~= self.modules@);
        PipelineConfig { version: self.version, modules }
    }
}

/// In a valid pipeline at most one estimator and one beamformer are enabled.
pub proof fn law_modules_are_unique(config: PipelineConfig, i: int, j: int)
    requires
        config.valid(),
        0 <= i < j < config.modules@.len(),
    ensures
        !(config.modules@[i].is_enabled_doa() && config.modules@[j].is_enabled_doa()),
        !(config.modules@[i].is_enabled_beamformer() && config.modules@[j].is_enabled_beamformer()),
{
    assert(module_problem(config.modules@, j) is None);
}

/// In a valid pipeline a beamformer that steers by the estimator stands behind an enabled one.
pub proof fn law_steering_estimator_comes_first(config: PipelineConfig, i: int)
    requires
        config.valid(),
        0 <= i < config.modules@.len(),
        config.modules@[i].is_enabled_beamformer(),
        config.modules@[i].beamformer_settings().direction_source is Doa,
    ensures
        doa_before(config.modules@, i),
{
    assert(module_problem(config.modules@, i) is None);
}

/// The frames of one call, split into the three channel groups.
pub struct PipelineInputBlock<'a> {
    pub start_frame: u64,
    pub frames: usize,
    pub algo: &'a [i16],
    pub mic: &'a [i16],
    pub reference: &'a [i16],
}

/// What `validate` says of a group whose length does not fit.
pub open spec fn group_message(group: Seq<char>, len: nat, unit: Seq<char>, expected: nat) -> Seq<
    char,
> {
    "PipelineInputBlock "@ + group + " 长度 "@ + decimal(len) + " != "@ + unit + " "@ + decimal(
        expected,
    )
}

fn group_error(group: &str, len: usize, unit: &str, expected: u128) -> (message: String)
    ensures
        message@ == group_message(group@, len as nat, unit@, expected as nat),
{
    let mut message = "PipelineInputBlock ".to_owned();
    message.append(group);
    message.append(" 长度 ");
    push_decimal(&mut message, len as u64);
    message.append(" != ");
    message.append(unit);
    message.append(" ");
    push_wide_decimal(&mut message, expected);
    message
}

impl PipelineInputBlock<'_> {
    pub open spec fn well_formed(&self) -> bool {
        &&& self.algo@.len() == self.frames
        &&& self.mic@.len() == self.frames * 4
        &&& self.reference@.len() == self.frames
    }

    pub fn validate(&self) -> (result: Result<(), String>)
        ensures
            result is Ok <==> self.well_formed(),
            result matches Err(message) ==> message@ == (if self.algo@.len() != self.frames {
                group_message("algo"@, self.algo@.len(), "frames"@, self.frames as nat)
            } else if self.mic@.len() != self.frames * 4 {
                group_message("mic"@, self.mic@.len(), "frames*4"@, (self.frames * 4) as nat)
            } else {
                group_message("reference"@, self.reference@.len(), "frames"@, self.frames as nat)
            }),
    {
        if self.algo.len() != self.frames {
            return Err(group_error("algo", self.algo.len(), "frames", self.frames as u128));
        }
        let mics: u128 = self.frames as u128 * 4;
        if self.mic.len() as u128 != mics {
            return Err(group_error("mic", self.mic.len(), "frames*4", mics));
        }
        if self.reference.len() != self.frames {
            return Err(
                group_error("reference", self.reference.len(), "frames", self.frames as u128),
            );
        }
        Ok(())
    }
}

/// One module as it is to be run, with the file that it writes.
#[derive(Debug)]
pub enum ModulePlan {
    Doa { doa: DoaConfig, csv_path: Option<String> },
    Beamformer { beamformer: BeamformerConfig, wav_path: Option<String> },
}

/// The file that belongs to a recording: directory, prefix and suffix.
pub open spec fn output_path(out_dir: Seq<char>, prefix: Seq<char>, suffix: Seq<char>) -> Seq<char> {
    out_dir + "/"@ + prefix + suffix
}

pub fn make_output_path(out_dir: &str, prefix: &str, suffix: &str) -> (path: String)
    ensures
        path@ == output_path(out_dir@, prefix@, suffix@),
{
    let mut path = out_dir.to_owned();
    path.append("/");
    path.append(prefix);
    path.append(suffix);
    path
}

/// The plan of a module carries its settings and names its file where it writes one.
pub open spec fn is_plan_of(
    plan: ModulePlan,
    module: ModuleConfig,
    out_dir: Seq<char>,
    prefix: Seq<char>,
) -> bool {
    match module {
        ModuleConfig::Doa { csv, .. } => plan matches ModulePlan::Doa { doa, csv_path } && {
            &&& doa == module.doa_settings()
            &&& csv_path is Some <==> csv
            &&& csv_path matches Some(path) ==> path@ == output_path(
                out_dir,
                prefix,
                "_respeaker_doa.csv"@,
            )
        },
        ModuleConfig::Beamformer { wav, .. } => plan matches ModulePlan::Beamformer {
            beamformer,
            wav_path,
        } && {
            &&& beamformer == module.beamformer_settings()
            &&& wav_path is Some <==> wav
            &&& wav_path matches Some(path) ==> path@ == output_path(
                out_dir,
                prefix,
                "_respeaker_bf.wav"@,
            )
        },
    }
}

/// The positions of the enabled modules among the first `n`, in order.
pub open spec fn enabled_positions(modules: Seq<ModuleConfig>, n: nat) -> Seq<int>
    decreases n,
{
    if n == 0 {
        Seq::empty()
    } else {
        let before = enabled_positions(modules, (n - 1) as nat);
        if modules[n - 1].is_enabled() {
            before.push(n - 1)
        } else {
            before
        }
    }
}

/// The viewer setting of the last enabled estimator among the first `n` modules.
pub open spec fn viewer_of(modules: Seq<ModuleConfig>, n: nat) -> bool
    decreases n,
{
    if n == 0 {
        false
    } else {
        match modules[n - 1] {
            ModuleConfig::Doa { enabled, enable_viewer, .. } => if enabled {
                enable_viewer
            } else {
                viewer_of(modules, (n - 1) as nat)
            },
            _ => viewer_of(modules, (n - 1) as nat),
        }
    }
}

/// What is to be run: the enabled modules in order, and whether the viewer is.
#[derive(Debug)]
pub struct PipelinePlan {
    pub modules: Vec<ModulePlan>,
    pub viewer: bool,
}

/// The plan of a pipeline.
pub fn plan_pipeline(config: &PipelineConfig, out_dir: &str, prefix: &str) -> (plan: PipelinePlan)
    ensures
        plan.modules@.len() == enabled_positions(
            config.modules@,
            config.modules@.len(),
        ).len(),
        forall|k: int|
            0 <= k < plan.modules@.len() ==> is_plan_of(
                #[trigger] plan.modules@[k],
                config.modules@[enabled_positions(config.modules@, config.modules@.len())[k]],
                out_dir@,
                prefix@,
            ),
        plan.viewer == viewer_of(config.modules@, config.modules@.len()),
{
    let mut modules: Vec<ModulePlan> = Vec::new();
    let mut viewer = false;
    for i in 0..config.modules.len()
        invariant
            modules@.len() == enabled_positions(config.modules@, i as nat).len(),
            forall|k: int|
                0 <= k < modules@.len() ==> is_plan_of(
                    #[trigger] modules@[k],
                    config.modules@[enabled_positions(config.modules@, i as nat)[k]],
                    out_dir@,
                    prefix@,
                ),
            viewer == viewer_of(config.modules@, i as nat),
    {
        let module = config.modules[i];
        match module {
            ModuleConfig::Doa { enabled, enable_viewer, csv, .. } => {
                if enabled {
                    viewer = enable_viewer;
                    let csv_path = if csv {
                        Some(make_output_path(out_dir, prefix, "_respeaker_doa.csv"))
                    } else {
                        None
                    };
                    modules.push(ModulePlan::Doa { doa: module.to_doa_config(), csv_path });
                }
            },
            ModuleConfig::Beamformer { enabled, wav, .. } => {
                if enabled {
                    let wav_path = if wav {
                        Some(make_output_path(out_dir, prefix, "_respeaker_bf.wav"))
                    } else {
                        None
                    };
                    modules.push(
                        ModulePlan::Beamformer {
                            beamformer: module.to_beamformer_config(),
                            wav_path,
                        },
                    );
                }
            },
        }
    }
    PipelinePlan { modules, viewer }
}

/// What the modules share while the pipeline runs.
#[derive(Debug)]
pub struct PipelineState {
    pub latest_doa: Option<DoaResult>,
    pub doa_sequence: u64,
}

impl PipelineState {
    pub fn new() -> (state: Self)
        ensures
            state.latest_doa is None,
            state.doa_sequence == 0,
    {
        PipelineState { latest_doa: None, doa_sequence: 0 }
    }

    /// Takes in a result of the estimator and returns its number, counted from one.
    pub fn publish(&mut self, result: DoaResult) -> (number: u64)
        requires
            old(self).doa_sequence < u64::MAX,
        ensures
            final(self).latest_doa == Some(result),
            final(self).doa_sequence == old(self).doa_sequence + 1,
            number == final(self).doa_sequence,
    {
        self.latest_doa = Some(result);
        self.doa_sequence = self.doa_sequence + 1;
        self.doa_sequence
    }
}

/// Keeps the first of several errors.
pub fn keep_first(first: &mut Option<String>, result: Result<(), String>)
    ensures
        match (*old(first), result) {
            (Some(e), _) => *final(first) == Some(e),
            (None, Err(e)) => *final(first) == Some(e),
            (None, Ok(())) => *final(first) is None,
        },
{
    if first.is_none() {
        if let Err(e) = result {
            *first = Some(e);
        }
    }
}

/// Exactly these pipelines are accepted: of the enabled modules, each has settings that are accepted
/// for themselves, none comes behind another of its kind, and a beamformer that steers by the
/// estimator comes behind one. What is disabled does not matter.
pub proof fn law_accepted_pipelines(config: PipelineConfig)
    ensures
        config.valid() <==> {
            &&& config.version == 1
            &&& forall|i: int|
                0 <= i < config.modules@.len() ==> match #[trigger] config.modules@[i] {
                    ModuleConfig::Doa { enabled, .. } => enabled ==> {
                        &&& config.modules@[i].doa_settings().valid()
                        &&& forall|j: int|
                            0 <= j < i ==> !(#[trigger] config.modules@[j] matches ModuleConfig::Doa {
                                enabled: other,
                                ..
                            } && other)
                    },
                    ModuleConfig::Beamformer { enabled, direction_source, .. } => enabled ==> {
                        &&& config.modules@[i].beamformer_settings().valid()
                        &&& forall|j: int|
                            0 <= j < i
                                ==> !(#[trigger] config.modules@[j] matches ModuleConfig::Beamformer {
                                enabled: other,
                                ..
                            } && other)
                        &&& direction_source is Doa ==> exists|j: int|
                            0 <= j < i && (#[trigger] config.modules@[j] matches ModuleConfig::Doa {
                                enabled: other,
                                ..
                            } && other)
                    },
                }
        },
{
    let modules = config.modules@;
    assert forall|i: int| 0 <= i < modules.len() implies (#[trigger] module_problem(modules, i)
        is None <==> match modules[i] {
        ModuleConfig::Doa { enabled, .. } => enabled ==> {
            &&& modules[i].doa_settings().valid()
            &&& forall|j: int|
                0 <= j < i ==> !(#[trigger] modules[j] matches ModuleConfig::Doa {
                    enabled: other,
                    ..
                } && other)
        },
        ModuleConfig::Beamformer { enabled, direction_source, .. } => enabled ==> {
            &&& modules[i].beamformer_settings().valid()
            &&& forall|j: int|
                0 <= j < i ==> !(#[trigger] modules[j] matches ModuleConfig::Beamformer {
                    enabled: other,
                    ..
                } && other)
            &&& direction_source is Doa ==> exists|j: int|
                0 <= j < i && (#[trigger] modules[j] matches ModuleConfig::Doa {
                    enabled: other,
                    ..
                } && other)
        },
    }) by {
        crate::doa::law_accepted_configurations(modules[i].doa_settings());
        crate::beamformer::law_accepted_configurations(modules[i].beamformer_settings());
        if doa_before(modules, i) {
            let j = choose|j: int| 0 <= j < i && (#[trigger] modules[j]).is_enabled_doa();
            assert(modules[j] matches ModuleConfig::Doa { enabled: other, .. } && other);
        }
        if beamformer_before(modules, i) {
            let j = choose|j: int| 0 <= j < i && (#[trigger] modules[j]).is_enabled_beamformer();
            assert(modules[j] matches ModuleConfig::Beamformer { enabled: other, .. } && other);
        }
    }
    if config.valid() {
        assert forall|i: int| 0 <= i < modules.len() implies match #[trigger] modules[i] {
            ModuleConfig::Doa { enabled, .. } => enabled ==> {
                &&& modules[i].doa_settings().valid()
                &&& forall|j: int|
                    0 <= j < i ==> !(#[trigger] modules[j] matches ModuleConfig::Doa {
                        enabled: other,
                        ..
                    } && other)
            },
            ModuleConfig::Beamformer { enabled, direction_source, .. } => enabled ==> {
                &&& modules[i].beamformer_settings().valid()
                &&& forall|j: int|
                    0 <= j < i ==> !(#[trigger] modules[j] matches ModuleConfig::Beamformer {
                        enabled: other,
                        ..
                    } && other)
                &&& direction_source is Doa ==> exists|j: int|
                    0 <= j < i && (#[trigger] modules[j] matches ModuleConfig::Doa {
                        enabled: other,
                        ..
                    } && other)
            },
        } by {
            assert(module_problem(modules, i) is None);
        }
    }
}

/// What is named in a refusal of a module is so.
pub proof fn law_refusals_name_the_fault(modules: Seq<ModuleConfig>, i: int)
    requires
        0 <= i < modules.len(),
    ensures
        match module_problem(modules, i) {
            None => true,
            Some(PipelineConfigError::Version(_)) => false,
            Some(PipelineConfigError::DuplicateDoa) => modules[i] is Doa && exists|j: int|
                0 <= j < i && #[trigger] modules[j] is Doa && modules[j].is_enabled(),
            Some(PipelineConfigError::Doa(e)) => modules[i] is Doa
                && modules[i].doa_settings().problem() == Some(e),
            Some(PipelineConfigError::DuplicateBeamformer) => modules[i] is Beamformer
                && exists|j: int|
                0 <= j < i && #[trigger] modules[j] is Beamformer && modules[j].is_enabled(),
            Some(PipelineConfigError::DirectionNeedsDoa) => {
                &&& modules[i] matches ModuleConfig::Beamformer { direction_source, .. }
                &&& direction_source is Doa
                &&& forall|j: int|
                    0 <= j < i ==> !(#[trigger] modules[j] is Doa && modules[j].is_enabled())
            },
            Some(PipelineConfigError::Beamformer(e)) => modules[i] is Beamformer
                && modules[i].beamformer_settings().problem() == Some(e),
        },
{
}

/// The settings of a module reach the estimator and the beamformer unchanged, at 16 kHz.
pub proof fn law_settings_reach_the_modules(module: ModuleConfig)
    ensures
        module matches ModuleConfig::Doa {
            beta,
            cpsd_tau_ms,
            angle_offset_deg,
            clockwise,
            acquire_confidence,
            update_confidence,
            max_coast_ms,
            ..
        } ==> {
            let s = module.doa_settings();
            &&& s.sample_rate == 16000
            &&& s.beta == beta && s.cpsd_tau_ms == cpsd_tau_ms
            &&& s.angle_offset_deg == angle_offset_deg && s.clockwise == clockwise
            &&& s.acquire_confidence == acquire_confidence
            &&& s.update_confidence == update_confidence
            &&& s.max_coast_ms == max_coast_ms
        },
        module matches ModuleConfig::Beamformer {
            algorithm,
            direction_source,
            fixed_internal_angle_deg,
            fallback_internal_angle_deg,
            direction_smoothing_ms,
            min_wng_db,
            sd_low_start_hz,
            sd_low_full_hz,
            sd_high_full_hz,
            sd_high_end_hz,
            output_gain_db,
            wav,
            compare_wav,
            enable_drc,
            ..
        } ==> {
            let s = module.beamformer_settings();
            &&& s.enabled && s.algorithm == algorithm && s.direction_source == direction_source
            &&& s.fixed_internal_angle_deg == fixed_internal_angle_deg
            &&& s.fallback_internal_angle_deg == fallback_internal_angle_deg
            &&& s.direction_smoothing_ms == direction_smoothing_ms && s.min_wng_db == min_wng_db
            &&& s.sd_low_start_hz == sd_low_start_hz && s.sd_low_full_hz == sd_low_full_hz
            &&& s.sd_high_full_hz == sd_high_full_hz && s.sd_high_end_hz == sd_high_end_hz
            &&& s.output_gain_db == output_gain_db && s.wav == wav
            &&& s.compare_wav == compare_wav && s.enable_drc == enable_drc
        },
{
}

/// The enabled modules, all of them and no others, run in the order in which they are configured.
pub proof fn law_enabled_modules_run_in_order(modules: Seq<ModuleConfig>, n: nat)
    requires
        n <= modules.len(),
    ensures
        forall|k: int, l: int|
            0 <= k < l < enabled_positions(modules, n).len() ==> #[trigger] enabled_positions(
                modules,
                n,
            )[k] < #[trigger] enabled_positions(modules, n)[l],
        forall|i: int|
            #[trigger] enabled_positions(modules, n).contains(i) <==> 0 <= i < n && match modules[i] {
                ModuleConfig::Doa { enabled, .. } => enabled,
                ModuleConfig::Beamformer { enabled, .. } => enabled,
            },
    decreases n,
{
    if n > 0 {
        let earlier = enabled_positions(modules, (n - 1) as nat);
        let all = enabled_positions(modules, n);
        law_enabled_modules_run_in_order(modules, (n - 1) as nat);
        assert forall|k: int, l: int| 0 <= k < l < all.len() implies #[trigger] all[k]
            < #[trigger] all[l] by {
            assert(earlier.contains(earlier[k]));
            if l < earlier.len() {
                assert(earlier[k] < earlier[l]);
            }
        }
        assert forall|i: int| #[trigger] all.contains(i) <==> 0 <= i < n && match modules[i] {
            ModuleConfig::Doa { enabled, .. } => enabled,
            ModuleConfig::Beamformer { enabled, .. } => enabled,
        } by {
            if earlier.contains(i) {
                let k = choose|k: int| 0 <= k < earlier.len() && earlier[k] == i;
                assert(all[k] == i);
            }
            if i == n - 1 && modules[i].is_enabled() {
                assert(all[all.len() - 1] == i);
            }
            if all.contains(i) && i != n - 1 {
                let k = choose|k: int| 0 <= k < all.len() && all[k] == i;
                assert(earlier[k] == i);
            }
        }
    } else {
        assert forall|i: int| !(#[trigger] enabled_positions(modules, 0).contains(i)) by {}
    }
}

/// The viewer runs exactly when the last enabled estimator asks for it.
pub proof fn law_viewer_follows_the_estimator(modules: Seq<ModuleConfig>, n: nat)
    requires
        n <= modules.len(),
    ensures
        viewer_of(modules, n) <==> exists|i: int| 0 <= i < n && #[trigger] asks_for_viewer(
            modules,
            n as int,
            i,
        ),
    decreases n,
{
    if n > 0 {
        let earlier = (n - 1) as nat;
        law_viewer_follows_the_estimator(modules, earlier);
        let last = modules[n - 1];
        if last is Doa && last.is_enabled() {
            if viewer_of(modules, n) {
                assert(asks_for_viewer(modules, n as int, n - 1));
            }
            assert forall|i: int| 0 <= i < n - 1 implies !asks_for_viewer(modules, n as int, i) by {
                assert(modules[n - 1] is Doa && modules[n - 1].is_enabled());
            }
        } else {
            assert forall|i: int| 0 <= i < n implies asks_for_viewer(modules, n as int, i) == (i < n
                - 1 && asks_for_viewer(modules, n - 1, i)) by {}
            if viewer_of(modules, n) {
                let i = choose|i: int|
                    0 <= i < n - 1 && #[trigger] asks_for_viewer(modules, n - 1, i);
                assert(asks_for_viewer(modules, n as int, i));
            }
            if exists|i: int| 0 <= i < n && #[trigger] asks_for_viewer(modules, n as int, i) {
                let i = choose|i: int| 0 <= i < n && #[trigger] asks_for_viewer(modules, n as int, i);
                assert(asks_for_viewer(modules, n - 1, i));
            }
        }
    }
}

/// Module `i` is an enabled estimator that asks for the viewer, and the last one among the first
/// `n` modules.
pub open spec fn asks_for_viewer(modules: Seq<ModuleConfig>, n: int, i: int) -> bool {
    &&& modules[i] matches ModuleConfig::Doa { enabled, enable_viewer, .. }
    &&& enabled && enable_viewer
    &&& forall|j: int| i < j < n ==> !(#[trigger] modules[j] is Doa && modules[j].is_enabled())
}

/// A pipeline is refused for its version before anything else, and otherwise for the first of its
/// modules with a problem.
pub proof fn law_first_fault_is_told(config: PipelineConfig, e: PipelineConfigError, i: int)
    requires
        config.refused_with(e),
    ensures
        config.version != 1 ==> e == PipelineConfigError::Version(config.version),
        config.version == 1 && 0 <= i < config.modules@.len() && module_problem(config.modules@, i)
            is Some && (forall|j: int|
            0 <= j < i ==> #[trigger] module_problem(config.modules@, j) is None) ==> Some(e)
            == module_problem(config.modules@, i),
{
    if config.version == 1 && first_refused_at(config.modules@, i) {
        let k = choose|k: int| #[trigger]
            first_refused_at(config.modules@, k) && module_problem(config.modules@, k) == Some(e);
        if k < i {
            assert(module_problem(config.modules@, k) is None);
        }
        if i < k {
            assert(module_problem(config.modules@, i) is None);
        }
    }
}

/// A block fits together exactly when each group has one sample per frame and channel, of which
/// there are one, four and one.
pub proof fn law_groups_have_their_channels(block: PipelineInputBlock)
    ensures
        block.well_formed() <==> block.algo@.len() == block.frames && block.mic@.len() == 4
            * block.frames && block.reference@.len() == block.frames,
{
}

/// Of an enabled module it is told first that it is a second one of its kind, then that its
/// estimator is missing, and its settings last.
pub proof fn law_faults_of_a_module_come_in_order(modules: Seq<ModuleConfig>, i: int, j: int)
    requires
        0 <= i < modules.len(),
        modules[i].is_enabled(),
    ensures
        modules[i] is Doa && 0 <= j < i && modules[j] is Doa && modules[j].is_enabled()
            ==> module_problem(modules, i) == Some(PipelineConfigError::DuplicateDoa),
        modules[i] is Beamformer && 0 <= j < i && modules[j] is Beamformer && modules[j].is_enabled()
            ==> module_problem(modules, i) == Some(PipelineConfigError::DuplicateBeamformer),
        modules[i] is Beamformer && (forall|k: int|
            0 <= k < i ==> !(#[trigger] modules[k]).is_enabled()) && (
        modules[i] matches ModuleConfig::Beamformer { direction_source, .. } && direction_source
            is Doa) ==> module_problem(modules, i) == Some(PipelineConfigError::DirectionNeedsDoa),
        modules[i] is Doa && (forall|k: int|
            0 <= k < i ==> !(#[trigger] modules[k] is Doa && modules[k].is_enabled()))
            ==> module_problem(modules, i) == (match modules[i].doa_settings().problem() {
            Some(e) => Some(PipelineConfigError::Doa(e)),
            None => None,
        }),
{
    if 0 <= j < i && modules[j] is Doa && modules[j].is_enabled() {
        assert(modules[j].is_enabled_doa());
    }
    if 0 <= j < i && modules[j] is Beamformer && modules[j].is_enabled() {
        assert(modules[j].is_enabled_beamformer());
    }
}

} // verus!

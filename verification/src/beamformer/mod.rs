//! The beamformer: configuration, the choice of direction, and the account of its output.

pub mod stft;
pub mod weights;

use vstd::arithmetic::power2::{lemma2_to64, lemma_pow2_adds, pow2};
use vstd::prelude::*;
use vstd::string::*;

use crate::beamformer::stft::BeamformerStft;
use crate::doa::circle::{is_wrapped, wrap_360};
use crate::doa::tracker::TrackStatus;
use crate::doa::{DoaResult, HOP_SIZE, MIC_COUNT};
use crate::single::{lemma_key_order_is_numeric, lemma_reads_as, reads_as, single, Single};
use crate::text::{decimal, push_decimal};

verus! {

/// 0.0
pub const BITS_ZERO: u32 = 0;

/// 3.0
pub const BITS_3: u32 = 0x4040_0000;

/// -3.0
pub const BITS_MINUS_3: u32 = 0xC040_0000;

/// 6.0
pub const BITS_6: u32 = 0x40C0_0000;

/// 24.0
pub const BITS_24: u32 = 0x41C0_0000;

/// -24.0
pub const BITS_MINUS_24: u32 = 0xC1C0_0000;

/// 64.0
pub const BITS_64: u32 = 0x4280_0000;

/// 350.0
pub const BITS_350: u32 = 0x43AF_0000;

/// 500.0
pub const BITS_500: u32 = 0x43FA_0000;

/// 2500.0
pub const BITS_2500: u32 = 0x451C_4000;

/// 3500.0
pub const BITS_3500: u32 = 0x455A_C000;

/// 8000.0
pub const BITS_8000: u32 = 0x45FA_0000;

#[derive(Clone, Copy, Debug, PartialEq, Eq, Structural)]
pub enum BeamformerAlgorithm {
    DelaySum,
    RobustSuperdirective,
}

#[derive(Clone, Copy, Debug, PartialEq, Eq, Structural)]
pub enum BeamformerDirectionSource {
    Doa,
    Fixed,
}

#[derive(Clone, Copy, Debug, PartialEq, Eq, Structural)]
pub struct BeamformerConfig {
    pub enabled: bool,
    pub algorithm: BeamformerAlgorithm,
    pub direction_source: BeamformerDirectionSource,
    pub fixed_internal_angle_deg: Single,
    pub fallback_internal_angle_deg: Single,
    pub direction_smoothing_ms: Single,
    pub min_wng_db: Single,
    pub sd_low_start_hz: Single,
    pub sd_low_full_hz: Single,
    pub sd_high_full_hz: Single,
    pub sd_high_end_hz: Single,
    pub output_gain_db: Single,
    pub wav: bool,
    /// The output file holds two channels: the first microphone beside the output.
    pub compare_wav: bool,
    /// The output passes the dynamic range compressor.
    pub enable_drc: bool,
}

/// The configuration used where nothing is configured.
pub open spec fn default_beamformer_config() -> BeamformerConfig {
    BeamformerConfig {
        enabled: true,
        algorithm: BeamformerAlgorithm::RobustSuperdirective,
        direction_source: BeamformerDirectionSource::Doa,
        fixed_internal_angle_deg: single(BITS_ZERO),
        fallback_internal_angle_deg: single(BITS_ZERO),
        direction_smoothing_ms: single(BITS_64),
        min_wng_db: single(BITS_3),
        sd_low_start_hz: single(BITS_350),
        sd_low_full_hz: single(BITS_500),
        sd_high_full_hz: single(BITS_2500),
        sd_high_end_hz: single(BITS_3500),
        output_gain_db: single(BITS_MINUS_3),
        wav: true,
        compare_wav: false,
        enable_drc: true,
    }
}

impl Default for BeamformerConfig {
    fn default() -> (config: Self)
        ensures
            config == default_beamformer_config(),
    {
        BeamformerConfig {
            enabled: true,
            algorithm: BeamformerAlgorithm::RobustSuperdirective,
            direction_source: BeamformerDirectionSource::Doa,
            fixed_internal_angle_deg: single(BITS_ZERO),
            fallback_internal_angle_deg: single(BITS_ZERO),
            direction_smoothing_ms: single(BITS_64),
            min_wng_db: single(BITS_3),
            sd_low_start_hz: single(BITS_350),
            sd_low_full_hz: single(BITS_500),
            sd_high_full_hz: single(BITS_2500),
            sd_high_end_hz: single(BITS_3500),
            output_gain_db: single(BITS_MINUS_3),
            wav: true,
            compare_wav: false,
            enable_drc: true,
        }
    }
}

/// A numeric field of the configuration.
#[derive(Clone, Copy, Debug, PartialEq, Eq, Structural)]
pub enum BeamformerField {
    FixedInternalAngleDeg,
    FallbackInternalAngleDeg,
    DirectionSmoothingMs,
    MinWngDb,
    SdLowStartHz,
    SdLowFullHz,
    SdHighFullHz,
    SdHighEndHz,
    OutputGainDb,
}

/// The name of a field as it stands in a configuration file.
pub open spec fn field_name(field: BeamformerField) -> Seq<char> {
    match field {
        BeamformerField::FixedInternalAngleDeg => "fixed_internal_angle_deg"@,
        BeamformerField::FallbackInternalAngleDeg => "fallback_internal_angle_deg"@,
        BeamformerField::DirectionSmoothingMs => "direction_smoothing_ms"@,
        BeamformerField::MinWngDb => "min_wng_db"@,
        BeamformerField::SdLowStartHz => "sd_low_start_hz"@,
        BeamformerField::SdLowFullHz => "sd_low_full_hz"@,
        BeamformerField::SdHighFullHz => "sd_high_full_hz"@,
        BeamformerField::SdHighEndHz => "sd_high_end_hz"@,
        BeamformerField::OutputGainDb => "output_gain_db"@,
    }
}

impl BeamformerField {
    pub fn name(self) -> (name: &'static str)
        ensures
            name@ == field_name(self),
    {
        match self {
            BeamformerField::FixedInternalAngleDeg => "fixed_internal_angle_deg",
            BeamformerField::FallbackInternalAngleDeg => "fallback_internal_angle_deg",
            BeamformerField::DirectionSmoothingMs => "direction_smoothing_ms",
            BeamformerField::MinWngDb => "min_wng_db",
            BeamformerField::SdLowStartHz => "sd_low_start_hz",
            BeamformerField::SdLowFullHz => "sd_low_full_hz",
            BeamformerField::SdHighFullHz => "sd_high_full_hz",
            BeamformerField::SdHighEndHz => "sd_high_end_hz",
            BeamformerField::OutputGainDb => "output_gain_db",
        }
    }
}

/// Why a configuration is refused.
#[derive(Clone, Copy, Debug, PartialEq, Eq, Structural)]
pub enum BeamformerConfigError {
    NotFinite(BeamformerField),
    Smoothing(Single),
    MinWng(Single),
    Band { low_start: Single, low_full: Single, high_full: Single, high_end: Single },
    OutputGain(Single),
}

impl BeamformerConfig {
    /// The first numeric field that is not finite.
    pub open spec fn first_non_finite(self) -> Option<BeamformerField> {
        if !self.fixed_internal_angle_deg.finite() {
            Some(BeamformerField::FixedInternalAngleDeg)
        } else if !self.fallback_internal_angle_deg.finite() {
            Some(BeamformerField::FallbackInternalAngleDeg)
        } else if !self.direction_smoothing_ms.finite() {
            Some(BeamformerField::DirectionSmoothingMs)
        } else if !self.min_wng_db.finite() {
            Some(BeamformerField::MinWngDb)
        } else if !self.sd_low_start_hz.finite() {
            Some(BeamformerField::SdLowStartHz)
        } else if !self.sd_low_full_hz.finite() {
            Some(BeamformerField::SdLowFullHz)
        } else if !self.sd_high_full_hz.finite() {
            Some(BeamformerField::SdHighFullHz)
        } else if !self.sd_high_end_hz.finite() {
            Some(BeamformerField::SdHighEndHz)
        } else if !self.output_gain_db.finite() {
            Some(BeamformerField::OutputGainDb)
        } else {
            None
        }
    }

    /// 0 <= low_start <= low_full <= high_full <= high_end <= 8000
    pub open spec fn band_ordered(self) -> bool {
        &&& single(BITS_ZERO).at_most(self.sd_low_start_hz)
        &&& self.sd_low_start_hz.at_most(self.sd_low_full_hz)
        &&& self.sd_low_full_hz.at_most(self.sd_high_full_hz)
        &&& self.sd_high_full_hz.at_most(self.sd_high_end_hz)
        &&& self.sd_high_end_hz.at_most(single(BITS_8000))
    }

    pub open spec fn valid(self) -> bool {
        &&& self.first_non_finite() is None
        &&& single(BITS_ZERO).at_most(self.direction_smoothing_ms)
        &&& self.min_wng_db.within(single(BITS_ZERO), single(BITS_6))
        &&& self.band_ordered()
        &&& self.output_gain_db.within(single(BITS_MINUS_24), single(BITS_24))
    }

    /// The first of the conditions that fails, in the order in which they are checked.
    pub open spec fn problem(self) -> Option<BeamformerConfigError> {
        if let Some(field) = self.first_non_finite() {
            Some(BeamformerConfigError::NotFinite(field))
        } else if !single(BITS_ZERO).at_most(self.direction_smoothing_ms) {
            Some(BeamformerConfigError::Smoothing(self.direction_smoothing_ms))
        } else if !self.min_wng_db.within(single(BITS_ZERO), single(BITS_6)) {
            Some(BeamformerConfigError::MinWng(self.min_wng_db))
        } else if !self.band_ordered() {
            Some(
                BeamformerConfigError::Band {
                    low_start: self.sd_low_start_hz,
                    low_full: self.sd_low_full_hz,
                    high_full: self.sd_high_full_hz,
                    high_end: self.sd_high_end_hz,
                },
            )
        } else if !self.output_gain_db.within(single(BITS_MINUS_24), single(BITS_24)) {
            Some(BeamformerConfigError::OutputGain(self.output_gain_db))
        } else {
            None
        }
    }

    fn non_finite_field(&self) -> (field: Option<BeamformerField>)
        ensures
            field == self.first_non_finite(),
    {
        if !self.fixed_internal_angle_deg.is_finite() {
            Some(BeamformerField::FixedInternalAngleDeg)
        } else if !self.fallback_internal_angle_deg.is_finite() {
            Some(BeamformerField::FallbackInternalAngleDeg)
        } else if !self.direction_smoothing_ms.is_finite() {
            Some(BeamformerField::DirectionSmoothingMs)
        } else if !self.min_wng_db.is_finite() {
            Some(BeamformerField::MinWngDb)
        } else if !self.sd_low_start_hz.is_finite() {
            Some(BeamformerField::SdLowStartHz)
        } else if !self.sd_low_full_hz.is_finite() {
            Some(BeamformerField::SdLowFullHz)
        } else if !self.sd_high_full_hz.is_finite() {
            Some(BeamformerField::SdHighFullHz)
        } else if !self.sd_high_end_hz.is_finite() {
            Some(BeamformerField::SdHighEndHz)
        } else if !self.output_gain_db.is_finite() {
            Some(BeamformerField::OutputGainDb)
        } else {
            None
        }
    }

    pub fn validate(&self) -> (result: Result<(), BeamformerConfigError>)
        ensures
            result is Ok <==> self.valid(),
            result matches Err(e) ==> self.problem() == Some(e),
    {
        if let Some(field) = self.non_finite_field() {
            return Err(BeamformerConfigError::NotFinite(field));
        }
        let zero = single(BITS_ZERO);
        if self.direction_smoothing_ms.lt(zero) {
            return Err(BeamformerConfigError::Smoothing(self.direction_smoothing_ms));
        }
        if !self.min_wng_db.between(zero, single(BITS_6)) {
            return Err(BeamformerConfigError::MinWng(self.min_wng_db));
        }
        let ls = self.sd_low_start_hz;
        let lf = self.sd_low_full_hz;
        let hf = self.sd_high_full_hz;
        let he = self.sd_high_end_hz;
        if !(zero.le(ls) && ls.le(lf) && lf.le(hf) && hf.le(he) && he.le(single(BITS_8000))) {
            return Err(
                BeamformerConfigError::Band {
                    low_start: ls,
                    low_full: lf,
                    high_full: hf,
                    high_end: he,
                },
            );
        }
        if !self.output_gain_db.between(single(BITS_MINUS_24), single(BITS_24)) {
            return Err(BeamformerConfigError::OutputGain(self.output_gain_db));
        }
        Ok(())
    }
}

/// The default configuration is valid.
pub proof fn law_default_configuration_is_valid()
    ensures
        default_beamformer_config().valid(),
{
}

/// The bounds of the checks are the numbers that they are named after, counted in the unit of
/// `Single::units`, of which 2^149 make one.
pub proof fn lemma_bounds_are_their_numbers()
    ensures
        single(BITS_ZERO).units() == 0,
        single(BITS_6).units() == 6 * pow2(149),
        single(BITS_24).units() == 24 * pow2(149),
        single(BITS_MINUS_24).units() == -24 * pow2(149),
        single(BITS_8000).units() == 8000 * pow2(149),
{
    lemma2_to64();
    lemma_pow2_adds(128, 21);
    lemma_pow2_adds(130, 19);
    lemma_pow2_adds(138, 11);
    assert(crate::single::magnitude_units(0x40C0_0000) == 0xC0_0000 * pow2(128)) by {
        assert(0x40C0_0000int / 0x80_0000 == 129);
        assert(0x40C0_0000int % 0x80_0000 == 0x40_0000);
    }
    assert(crate::single::magnitude_units(0x41C0_0000) == 0xC0_0000 * pow2(130)) by {
        assert(0x41C0_0000int / 0x80_0000 == 131);
        assert(0x41C0_0000int % 0x80_0000 == 0x40_0000);
    }
    assert(crate::single::magnitude_units(0x45FA_0000) == 0xFA_0000 * pow2(138)) by {
        assert(0x45FA_0000int / 0x80_0000 == 139);
        assert(0x45FA_0000int % 0x80_0000 == 0x7A_0000);
    }
    assert(pow2(149) == pow2(128) * 0x20_0000);
    assert(pow2(149) == pow2(130) * 0x8_0000);
    assert(pow2(149) == pow2(138) * 0x800);
}

/// A configuration is accepted exactly when all numbers are finite, the smoothing is not negative,
/// the gain lies between 0 and 6, the corner frequencies ascend from 0 to at most 8000, and the
/// output gain lies between -24 and 24.
pub proof fn law_accepted_configurations(config: BeamformerConfig)
    ensures
        config.valid() <==> {
            &&& config.fixed_internal_angle_deg.finite()
            &&& config.fallback_internal_angle_deg.finite()
            &&& config.direction_smoothing_ms.finite() && config.direction_smoothing_ms.units() >= 0
            &&& config.min_wng_db.finite() && 0 <= config.min_wng_db.units() <= 6 * pow2(149)
            &&& config.sd_low_start_hz.finite() && config.sd_low_full_hz.finite()
            &&& config.sd_high_full_hz.finite() && config.sd_high_end_hz.finite()
            &&& 0 <= config.sd_low_start_hz.units() <= config.sd_low_full_hz.units()
            &&& config.sd_low_full_hz.units() <= config.sd_high_full_hz.units()
            &&& config.sd_high_full_hz.units() <= config.sd_high_end_hz.units() <= 8000 * pow2(149)
            &&& config.output_gain_db.finite()
            &&& -24 * pow2(149) <= config.output_gain_db.units() <= 24 * pow2(149)
        },
        config.problem() is None <==> config.valid(),
{
    lemma_bounds_are_their_numbers();
    let zero = single(BITS_ZERO);
    lemma_key_order_is_numeric(zero, config.direction_smoothing_ms);
    lemma_key_order_is_numeric(zero, config.min_wng_db);
    lemma_key_order_is_numeric(config.min_wng_db, single(BITS_6));
    lemma_key_order_is_numeric(zero, config.sd_low_start_hz);
    lemma_key_order_is_numeric(config.sd_low_start_hz, config.sd_low_full_hz);
    lemma_key_order_is_numeric(config.sd_low_full_hz, config.sd_high_full_hz);
    lemma_key_order_is_numeric(config.sd_high_full_hz, config.sd_high_end_hz);
    lemma_key_order_is_numeric(config.sd_high_end_hz, single(BITS_8000));
    lemma_key_order_is_numeric(single(BITS_MINUS_24), config.output_gain_db);
    lemma_key_order_is_numeric(config.output_gain_db, single(BITS_24));
}

/// The number in a field.
pub open spec fn field_of(config: BeamformerConfig, field: BeamformerField) -> Single {
    match field {
        BeamformerField::FixedInternalAngleDeg => config.fixed_internal_angle_deg,
        BeamformerField::FallbackInternalAngleDeg => config.fallback_internal_angle_deg,
        BeamformerField::DirectionSmoothingMs => config.direction_smoothing_ms,
        BeamformerField::MinWngDb => config.min_wng_db,
        BeamformerField::SdLowStartHz => config.sd_low_start_hz,
        BeamformerField::SdLowFullHz => config.sd_low_full_hz,
        BeamformerField::SdHighFullHz => config.sd_high_full_hz,
        BeamformerField::SdHighEndHz => config.sd_high_end_hz,
        BeamformerField::OutputGainDb => config.output_gain_db,
    }
}

/// The place of a field among those that are checked.
pub open spec fn field_place(field: BeamformerField) -> int {
    match field {
        BeamformerField::FixedInternalAngleDeg => 0,
        BeamformerField::FallbackInternalAngleDeg => 1,
        BeamformerField::DirectionSmoothingMs => 2,
        BeamformerField::MinWngDb => 3,
        BeamformerField::SdLowStartHz => 4,
        BeamformerField::SdLowFullHz => 5,
        BeamformerField::SdHighFullHz => 6,
        BeamformerField::SdHighEndHz => 7,
        BeamformerField::OutputGainDb => 8,
    }
}

/// Of several faults the first is told: a number that is not finite before any range, the first such
/// number in the order of the fields, and the ranges in the order of smoothing, gain against noise,
/// corner frequencies and output gain.
pub proof fn law_first_fault_is_told(config: BeamformerConfig, field: BeamformerField)
    ensures
        !field_of(config, field).finite() ==> (
        config.problem() matches Some(BeamformerConfigError::NotFinite(named)) && field_place(named)
            <= field_place(field)),
        config.problem() matches Some(e) ==> {
            &&& e is MinWng || e is Band || e is OutputGain ==> single(BITS_ZERO).at_most(
                config.direction_smoothing_ms,
            )
            &&& e is Band || e is OutputGain ==> config.min_wng_db.within(
                single(BITS_ZERO),
                single(BITS_6),
            )
            &&& e is OutputGain ==> config.sd_high_end_hz.at_most(single(BITS_8000))
                && config.sd_high_full_hz.at_most(config.sd_high_end_hz)
                && config.sd_low_full_hz.at_most(config.sd_high_full_hz)
                && config.sd_low_start_hz.at_most(config.sd_low_full_hz)
                && single(BITS_ZERO).at_most(config.sd_low_start_hz)
        },
{
}

/// What is named in a refusal is at fault, with its value; a range is refused only where all numbers
/// are finite.
pub proof fn law_refusals_name_the_fault(config: BeamformerConfig, field: BeamformerField)
    ensures
        match config.problem() {
            None => field_of(config, field).finite(),
            Some(BeamformerConfigError::NotFinite(named)) => !field_of(config, named).finite(),
            Some(BeamformerConfigError::Smoothing(x)) => {
                &&& x == config.direction_smoothing_ms && x.below(single(BITS_ZERO))
                &&& field_of(config, field).finite()
            },
            Some(BeamformerConfigError::MinWng(x)) => {
                &&& x == config.min_wng_db
                &&& x.below(single(BITS_ZERO)) || single(BITS_6).below(x)
                &&& field_of(config, field).finite()
            },
            Some(
                BeamformerConfigError::Band { low_start, low_full, high_full, high_end },
            ) => {
                &&& low_start == config.sd_low_start_hz && low_full == config.sd_low_full_hz
                &&& high_full == config.sd_high_full_hz && high_end == config.sd_high_end_hz
                &&& {
                    ||| low_start.below(single(BITS_ZERO))
                    ||| low_full.below(low_start)
                    ||| high_full.below(low_full)
                    ||| high_end.below(high_full)
                    ||| single(BITS_8000).below(high_end)
                }
                &&& field_of(config, field).finite()
            },
            Some(BeamformerConfigError::OutputGain(x)) => {
                &&& x == config.output_gain_db
                &&& x.below(single(BITS_MINUS_24)) || single(BITS_24).below(x)
                &&& field_of(config, field).finite()
            },
        },
{
}

/// The default settings by their numbers: superdirective weights that follow the estimator, smoothed
/// over 64 ms, with a gain against noise of at least 3 dB between 350 and 3500 Hz, fully from 500 to
/// 2500 Hz, and an output 3 dB down, written as one channel behind the compressor.
pub proof fn law_default_settings()
    ensures
        reads_as(default_beamformer_config().fixed_internal_angle_deg, 0, 1),
        reads_as(default_beamformer_config().fallback_internal_angle_deg, 0, 1),
        reads_as(default_beamformer_config().direction_smoothing_ms, 64, 1),
        reads_as(default_beamformer_config().min_wng_db, 3, 1),
        reads_as(default_beamformer_config().sd_low_start_hz, 350, 1),
        reads_as(default_beamformer_config().sd_low_full_hz, 500, 1),
        reads_as(default_beamformer_config().sd_high_full_hz, 2500, 1),
        reads_as(default_beamformer_config().sd_high_end_hz, 3500, 1),
        reads_as(default_beamformer_config().output_gain_db, -3, 1),
        default_beamformer_config().enabled,
        default_beamformer_config().algorithm is RobustSuperdirective,
        default_beamformer_config().direction_source is Doa,
        default_beamformer_config().wav,
        !default_beamformer_config().compare_wav,
        default_beamformer_config().enable_drc,
{
    lemma2_to64();
    lemma_reads_as(single(BITS_3), 128, 0xC00000, 0x400000, 3, 1);
    lemma_reads_as(single(BITS_MINUS_3), 128, 0xC00000, 0x400000, -3, 1);
    lemma_reads_as(single(BITS_6), 129, 0xC00000, 0x200000, 6, 1);
    lemma_reads_as(single(BITS_24), 131, 0xC00000, 0x80000, 24, 1);
    lemma_reads_as(single(BITS_MINUS_24), 131, 0xC00000, 0x80000, -24, 1);
    lemma_reads_as(single(BITS_64), 133, 0x800000, 0x20000, 64, 1);
    lemma_reads_as(single(BITS_350), 135, 0xAF0000, 0x8000, 350, 1);
    lemma_reads_as(single(BITS_500), 135, 0xFA0000, 0x8000, 500, 1);
    lemma_reads_as(single(BITS_2500), 138, 0x9C4000, 0x1000, 2500, 1);
    lemma_reads_as(single(BITS_3500), 138, 0xDAC000, 0x1000, 3500, 1);
    lemma_reads_as(single(BITS_8000), 139, 0xFA0000, 0x800, 8000, 1);
}

#[derive(Clone, Copy, Debug, Default, PartialEq, Eq, Structural)]
pub struct BeamformerStats {
    pub input_frames: u64,
    pub output_frames: u64,
    pub stft_frames: u64,
    pub clipped_samples: u64,
    pub das_fallback_bins: u64,
    pub min_generated_wng_db: Single,
}

/// The direction to steer to, in the coordinates of the array: the fixed one; or the one the
/// tracker holds, and the fallback while it holds none. It stands as configured or reported and
/// may lie off the circle.
pub open spec fn target_angle(config: BeamformerConfig, doa: Option<DoaResult>) -> Single {
    match config.direction_source {
        BeamformerDirectionSource::Fixed => config.fixed_internal_angle_deg,
        BeamformerDirectionSource::Doa => match doa {
            Some(r) => match (r.status, r.tracked_internal_deg) {
                (TrackStatus::Searching, _) => config.fallback_internal_angle_deg,
                (_, Some(angle)) => angle,
                (_, None) => config.fallback_internal_angle_deg,
            },
            None => config.fallback_internal_angle_deg,
        },
    }
}

/// The direction to steer to, on the circle.
pub fn select_target_angle(config: &BeamformerConfig, doa: Option<&DoaResult>) -> (angle: Single)
    ensures
        is_wrapped(
            angle,
            target_angle(
                *config,
                match doa {
                    Some(r) => Some(*r),
                    None => None,
                },
            ),
        ),
        config.direction_source is Fixed ==> is_wrapped(angle, config.fixed_internal_angle_deg),
        config.direction_source is Doa && doa is None ==> is_wrapped(
            angle,
            config.fallback_internal_angle_deg,
        ),
{
    let target = match config.direction_source {
        BeamformerDirectionSource::Fixed => config.fixed_internal_angle_deg,
        BeamformerDirectionSource::Doa => match doa {
            Some(r) => match r.status {
                TrackStatus::Searching => config.fallback_internal_angle_deg,
                _ => match r.tracked_internal_deg {
                    Some(angle) => angle,
                    None => config.fallback_internal_angle_deg,
                },
            },
            None => config.fallback_internal_angle_deg,
        },
    };
    wrap_360(target)
}

/// The angles that are displayed never steer: two results that differ in nothing else lead to
/// the same direction.
pub proof fn law_displayed_angles_never_steer(
    config: BeamformerConfig,
    a: DoaResult,
    b: DoaResult,
)
    requires
        a.status == b.status,
        a.tracked_internal_deg == b.tracked_internal_deg,
    ensures
        target_angle(config, Some(a)) == target_angle(config, Some(b)),
{
}

/// With a fixed direction the steering goes to that direction, brought onto the circle, whatever
/// the estimator reports and whatever the fallback is.
pub proof fn law_fixed_direction_is_steered_to(
    config: BeamformerConfig,
    doa: Option<DoaResult>,
    angle: Single,
)
    requires
        config.direction_source is Fixed,
    ensures
        target_angle(config, doa) == config.fixed_internal_angle_deg,
        is_wrapped(angle, target_angle(config, doa)) <==> is_wrapped(
            angle,
            config.fixed_internal_angle_deg,
        ),
{
}

/// With the estimator as the source, a direction that it follows or coasts on is steered to, and
/// the fixed and the fallback direction have no part in it.
pub proof fn law_reported_direction_is_steered_to(
    config: BeamformerConfig,
    result: DoaResult,
    reported: Single,
    angle: Single,
)
    requires
        config.direction_source is Doa,
        result.status is Tracking || result.status is Coasting,
        result.tracked_internal_deg == Some(reported),
    ensures
        is_wrapped(angle, target_angle(config, Some(result))) <==> is_wrapped(angle, reported),
{
}

/// With the estimator as the source, the steering goes to the fallback direction exactly while
/// there is no result, or none with a direction that is followed or coasted on.
pub proof fn law_fallback_direction_while_nothing_is_followed(
    config: BeamformerConfig,
    doa: Option<DoaResult>,
    angle: Single,
)
    requires
        config.direction_source is Doa,
        doa matches Some(r) ==> r.status is Searching || r.tracked_internal_deg is None,
    ensures
        is_wrapped(angle, target_angle(config, doa)) <==> is_wrapped(
            angle,
            config.fallback_internal_angle_deg,
        ),
{
}

/// The greatest and the smallest value of a 16-bit sample, and everything between them as it is.
pub open spec fn saturated(value: int) -> int {
    if value > i16::MAX {
        i16::MAX as int
    } else if value < i16::MIN {
        i16::MIN as int
    } else {
        value
    }
}

/// How many values of a sequence do not fit a 16-bit sample.
pub open spec fn clipped_in(values: Seq<i64>) -> int
    decreases values.len(),
{
    if values.len() == 0 {
        0
    } else {
        clipped_in(values.drop_last()) + (if saturated(values.last() as int) != values.last() {
            1int
        } else {
            0
        })
    }
}

/// The sample for a rounded amplitude. A value out of range is cut off, and counted.
pub fn saturate(value: i64, clipped: &mut u64) -> (sample: i16)
    requires
        *old(clipped) < u64::MAX,
    ensures
        sample == saturated(value as int),
        *final(clipped) == *old(clipped) + (if sample != value {
            1int
        } else {
            0
        }),
{
    if value > i16::MAX as i64 {
        *clipped = *clipped + 1;
        i16::MAX
    } else if value < i16::MIN as i64 {
        *clipped = *clipped + 1;
        i16::MIN
    } else {
        value as i16
    }
}

/// The samples for a run of rounded amplitudes.
pub fn saturate_all(values: &[i64], clipped: &mut u64) -> (samples: Vec<i16>)
    requires
        *old(clipped) + values@.len() <= u64::MAX,
    ensures
        samples@.len() == values@.len(),
        forall|i: int|
            0 <= i < samples@.len() ==> #[trigger] samples@[i] == saturated(values@[i] as int),
        *final(clipped) == *old(clipped) + clipped_in(values@),
{
    let mut samples: Vec<i16> = Vec::new();
    let ghost start = *clipped as int;
    for i in 0..values.len()
        invariant
            start + values@.len() <= u64::MAX,
            samples@.len() == i,
            forall|k: int| 0 <= k < i ==> #[trigger] samples@[k] == saturated(values@[k] as int),
            *clipped == start + clipped_in(values@.take(i as int)),
            0 <= clipped_in(values@.take(i as int)) <= i,
    {
        let sample = saturate(values[i], clipped);
        samples.push(sample);
        assert(values@.take(i + 1).drop_last() =~= values@.take(i as int));
    }
    assert(values@.take(values@.len() as int) =~= values@);
    samples
}

/// A value that fits a 16-bit sample is kept, and one that does not becomes the nearest that does.
pub proof fn law_values_are_cut_off_at_the_range(value: int)
    ensures
        -32768 <= value <= 32767 ==> saturated(value) == value,
        value > 32767 ==> saturated(value) == 32767,
        value < -32768 ==> saturated(value) == -32768,
{
}

/// Exactly the values that do not fit a 16-bit sample are counted as cut off.
pub proof fn law_cut_off_values_are_counted(values: Seq<i64>)
    ensures
        clipped_in(values) == values.filter(|v: i64| v > 32767 || v < -32768).len(),
    decreases values.len(),
{
    reveal(Seq::filter);
    if values.len() > 0 {
        law_cut_off_values_are_counted(values.drop_last());
    }
}

/// Two channels, sample by sample: left, right, left, right.
pub fn interleave_stereo(left: &[i16], right: &[i16]) -> (stereo: Vec<i16>)
    requires
        left@.len() == right@.len(),
    ensures
        stereo@.len() == 2 * left@.len(),
        forall|i: int|
            0 <= i < left@.len() ==> stereo@[2 * i] == #[trigger] left@[i] && stereo@[2 * i + 1]
                == right@[i],
{
    let mut stereo: Vec<i16> = Vec::new();
    let mut i: usize = 0;
    while i < left.len()
        invariant
            i <= left@.len(),
            left@.len() == right@.len(),
            stereo@.len() == 2 * i,
            forall|k: int|
                0 <= k < i ==> stereo@[2 * k] == #[trigger] left@[k] && stereo@[2 * k + 1]
                    == right@[k],
        decreases left.len() - i,
    {
        let ghost so_far = stereo@;
        stereo.push(left[i]);
        stereo.push(right[i]);
        proof {
            assert forall|k: int| 0 <= k < i + 1 implies stereo@[2 * k] == #[trigger] left@[k]
                && stereo@[2 * k + 1] == right@[k] by {
                if k < i {
                    assert(stereo@[2 * k] == so_far[2 * k]);
                    assert(stereo@[2 * k + 1] == so_far[2 * k + 1]);
                }
            }
        }
        i += 1;
    }
    stereo
}

/// How many channels the output file has.
pub fn wav_channels(config: &BeamformerConfig) -> (n: u16)
    ensures
        n == (if config.compare_wav {
            2int
        } else {
            1
        }),
{
    if config.compare_wav {
        2
    } else {
        1
    }
}

/// The first channel of an interleaved four-channel stream.
pub open spec fn first_channel(mics: Seq<i16>) -> Seq<i16> {
    Seq::new(mics.len() / MIC_COUNT as nat, |i: int| mics[i * MIC_COUNT])
}

/// Channel `ch` of frame `p` of a stream that begins with the held frames and goes on with the
/// interleaved samples.
pub open spec fn stream_sample(held: Seq<[i16; MIC_COUNT]>, mics: Seq<i16>, p: int, ch: int) -> i16 {
    if p < held.len() {
        held[p]@[ch]
    } else {
        mics[(p - held.len()) * MIC_COUNT + ch]
    }
}

/// The hop holds the frames of the stream from `k * HOP_SIZE` on, by channel.
pub open spec fn is_hop_of(
    hop: Vec<Vec<i16>>,
    held: Seq<[i16; MIC_COUNT]>,
    mics: Seq<i16>,
    k: int,
) -> bool {
    &&& stft::is_hop(hop@)
    &&& forall|ch: int, n: int|
        0 <= ch < MIC_COUNT && 0 <= n < HOP_SIZE ==> #[trigger] hop@[ch]@[n] == stream_sample(
            held,
            mics,
            k * HOP_SIZE + n,
            ch,
        )
}

/// The frames hold the stream from position `from` on.
pub open spec fn holds_from(
    frames: Seq<[i16; MIC_COUNT]>,
    held: Seq<[i16; MIC_COUNT]>,
    mics: Seq<i16>,
    from: int,
) -> bool {
    forall|n: int, ch: int|
        0 <= n < frames.len() && 0 <= ch < MIC_COUNT ==> #[trigger] frames[n]@[ch]
            == stream_sample(held, mics, from + n, ch)
}

/// The stream does not show where one block ended and the next began: the frames that were left
/// from the first block, followed by the second block, are the rest of the stream of both.
proof fn lemma_stream_goes_on(
    start: Seq<[i16; MIC_COUNT]>,
    first: Seq<i16>,
    left: Seq<[i16; MIC_COUNT]>,
    second: Seq<i16>,
    from: int,
    p: int,
    ch: int,
)
    requires
        first.len() % MIC_COUNT as nat == 0,
        from >= 0,
        from + left.len() == start.len() + first.len() / MIC_COUNT as nat,
        holds_from(left, start, first, from),
        0 <= p,
        0 <= ch < MIC_COUNT,
        (p - left.len()) * MIC_COUNT + ch < second.len(),
    ensures
        stream_sample(left, second, p, ch) == stream_sample(start, first + second, from + p, ch),
{
    let q = from + p - start.len();
    if p < left.len() {
        assert(left[p]@[ch] == stream_sample(start, first, from + p, ch));
        if q >= 0 {
            assert(q * 4 + ch < first.len());
        }
    } else {
        assert(q * 4 + ch == first.len() + (p - left.len()) * 4 + ch);
    }
}

/// The hops do not depend on how the stream was cut into blocks. Of two blocks that follow each
/// other, a hop that the first one completes, and likewise one that the second one completes, is
/// the hop that both as one block give at its place; and the same frames are left.
pub proof fn law_hops_do_not_depend_on_blocks(
    start: Seq<[i16; MIC_COUNT]>,
    first: Seq<i16>,
    first_hops: Seq<Vec<Vec<i16>>>,
    left: Seq<[i16; MIC_COUNT]>,
    second: Seq<i16>,
    second_hops: Seq<Vec<Vec<i16>>>,
    rest: Seq<[i16; MIC_COUNT]>,
)
    requires
        first.len() % MIC_COUNT as nat == 0,
        second.len() % MIC_COUNT as nat == 0,
        first_hops.len() * HOP_SIZE + left.len() == start.len() + first.len() / MIC_COUNT as nat,
        forall|k: int|
            0 <= k < first_hops.len() ==> is_hop_of(#[trigger] first_hops[k], start, first, k),
        holds_from(left, start, first, first_hops.len() * HOP_SIZE),
        second_hops.len() * HOP_SIZE + rest.len() == left.len() + second.len() / MIC_COUNT as nat,
        forall|k: int|
            0 <= k < second_hops.len() ==> is_hop_of(#[trigger] second_hops[k], left, second, k),
        holds_from(rest, left, second, second_hops.len() * HOP_SIZE),
    ensures
        (first_hops + second_hops).len() * HOP_SIZE + rest.len() == start.len() + (first
            + second).len() / MIC_COUNT as nat,
        forall|k: int|
            0 <= k < (first_hops + second_hops).len() ==> is_hop_of(
                #[trigger] (first_hops + second_hops)[k],
                start,
                first + second,
                k,
            ),
        holds_from(rest, start, first + second, (first_hops + second_hops).len() * HOP_SIZE),
{
    let n = first_hops.len() as int;
    let m = second_hops.len() as int;
    let both = first_hops + second_hops;
    assert forall|k: int| 0 <= k < both.len() implies is_hop_of(
        #[trigger] both[k],
        start,
        first + second,
        k,
    ) by {
        if k < n {
            assert(is_hop_of(first_hops[k], start, first, k));
            assert forall|ch: int, i: int| 0 <= ch < MIC_COUNT && 0 <= i < HOP_SIZE implies
                #[trigger] both[k]@[ch]@[i] == stream_sample(
                start,
                first + second,
                k * HOP_SIZE + i,
                ch,
            ) by {
                assert(first_hops[k]@[ch]@[i] == stream_sample(start, first, k * HOP_SIZE + i, ch));
                let q = k * HOP_SIZE + i - start.len();
                if q >= 0 {
                    assert(q * 4 + ch < first.len());
                }
            }
        } else {
            let j = k - n;
            assert(is_hop_of(second_hops[j], left, second, j));
            assert forall|ch: int, i: int| 0 <= ch < MIC_COUNT && 0 <= i < HOP_SIZE implies
                #[trigger] both[k]@[ch]@[i] == stream_sample(
                start,
                first + second,
                k * HOP_SIZE + i,
                ch,
            ) by {
                let p = j * HOP_SIZE + i;
                assert(second_hops[j]@[ch]@[i] == stream_sample(left, second, p, ch));
                lemma_stream_goes_on(start, first, left, second, n * HOP_SIZE, p, ch);
                assert(n * HOP_SIZE + p == k * HOP_SIZE + i);
            }
        }
    }
    assert forall|i: int, ch: int| 0 <= i < rest.len() && 0 <= ch < MIC_COUNT implies
        #[trigger] rest[i]@[ch] == stream_sample(
        start,
        first + second,
        both.len() * HOP_SIZE + i,
        ch,
    ) by {
        let p = m * HOP_SIZE + i;
        assert(rest[i]@[ch] == stream_sample(left, second, p, ch));
        lemma_stream_goes_on(start, first, left, second, n * HOP_SIZE, p, ch);
        assert(n * HOP_SIZE + p == both.len() * HOP_SIZE + i);
    }
}

/// From the start of a stream, hop `k` holds samples `256 * k` to `256 * k + 255` of each channel,
/// in the order in which they came; frames that were held come first.
pub proof fn law_hops_hold_the_stream_in_order(
    hop: Vec<Vec<i16>>,
    held: Seq<[i16; MIC_COUNT]>,
    mics: Seq<i16>,
    k: int,
    ch: int,
    n: int,
)
    requires
        is_hop_of(hop, held, mics, k),
        k >= 0,
        0 <= ch < 4,
        0 <= n < 256,
    ensures
        hop@.len() == 4,
        hop@[ch]@.len() == 256,
        256 * k + n < held.len() ==> hop@[ch]@[n] == held[256 * k + n]@[ch],
        256 * k + n >= held.len() ==> hop@[ch]@[n] == mics[4 * (256 * k + n - held.len()) + ch],
{
    assert(hop@[ch]@[n] == stream_sample(held, mics, k * HOP_SIZE + n, ch));
}

/// The first channel of an interleaved stream is every fourth sample of it.
pub proof fn law_first_channel_is_every_fourth_sample(mics: Seq<i16>, i: int)
    requires
        0 <= i,
        4 * i + 3 < mics.len(),
    ensures
        first_channel(mics).len() == mics.len() / 4,
        first_channel(mics)[i] == mics[4 * i],
{
}

/// The samples of the first microphone that belong beside `count` samples of output from position
/// `from` on.
pub open spec fn beside(input: Seq<i16>, mic0: Seq<i16>, from: int, count: int) -> bool {
    &&& input.len() == count
    &&& forall|i: int| 0 <= i < count ==> #[trigger] input[i] == mic0[from + i]
}

/// Pieces of input that stand beside pieces of output make up the input beside the whole of it: from
/// the start of a recording on, instant by instant, what the first microphone heard.
pub proof fn law_input_stays_beside_the_output(
    mic0: Seq<i16>,
    so_far: Seq<i16>,
    piece: Seq<i16>,
    output_frames: int,
    count: int,
)
    requires
        output_frames >= 0,
        count >= 0,
        beside(so_far, mic0, 0, output_frames),
        beside(piece, mic0, output_frames, count),
        output_frames + count <= mic0.len(),
    ensures
        beside(so_far + piece, mic0, 0, output_frames + count),
        so_far + piece == mic0.take(output_frames + count),
{
    let all = so_far + piece;
    assert forall|i: int| 0 <= i < output_frames + count implies #[trigger] all[i] == mic0[0 + i] by {
        if i >= output_frames {
            assert(piece[i - output_frames] == mic0[output_frames + (i - output_frames)]);
        } else {
            assert(so_far[i] == mic0[0 + i]);
        }
    }
    assert(all =~= mic0.take(output_frames + count));
}

/// Output samples that are ready to be written, with the samples of the first microphone of the
/// same instants where the file shows both.
#[derive(Debug)]
pub struct ReadyOutput<U> {
    pub output: Vec<U>,
    pub input: Vec<i16>,
}

/// The stream side of the beamformer: what it hands to the transform and what it gets back.
pub struct BeamformerRuntime {
    pub config: BeamformerConfig,
    pub stft: BeamformerStft<i16>,
    pub stats: BeamformerStats,
    /// Samples of the first microphone that wait for the output of their instant.
    pub mic0_buf: Vec<i16>,
    pub finalized: bool,
    /// All samples of the first microphone so far.
    pub mic0: Ghost<Seq<i16>>,
}

impl BeamformerRuntime {
    pub open spec fn well_formed(&self) -> bool {
        &&& self.config.valid()
        &&& self.stft.well_formed()
        &&& self.stft.zero == 0
        &&& self.stats.input_frames == self.stft.input_frames
        &&& self.stats.output_frames == self.stft.output_frames
        &&& self.stats.stft_frames == self.stft.stft_frames
        &&& self.mic0@.len() == self.stft.input_frames
        &&& self.finalized == self.stft.finalized
        &&& self.stft.output_frames <= self.stft.input_frames
        &&& self.config.compare_wav && !self.stft.finalized ==> self.mic0_buf@ == self.mic0@.skip(
            self.stft.output_frames as int,
        )
    }

    /// Refuses an invalid configuration. The weight table reports the fallbacks and the gain.
    pub fn new(
        config: BeamformerConfig,
        das_fallback_bins: u64,
        min_generated_wng_db: Single,
    ) -> (result: Result<Self, BeamformerConfigError>)
        ensures
            match result {
                Ok(runtime) => {
                    &&& config.valid()
                    &&& runtime.well_formed()
                    &&& runtime.config == config
                    &&& !runtime.finalized && !runtime.stft.finalized
                    &&& runtime.stft.hops_out == 0
                    &&& runtime.mic0@.len() == 0
                    &&& runtime.stats == (BeamformerStats {
                        input_frames: 0,
                        output_frames: 0,
                        stft_frames: 0,
                        clipped_samples: 0,
                        das_fallback_bins,
                        min_generated_wng_db,
                    })
                },
                Err(e) => config.problem() == Some(e),
            },
    {
        match config.validate() {
            Err(e) => Err(e),
            Ok(()) => {
                let runtime = BeamformerRuntime {
                    config,
                    stft: BeamformerStft::new(0),
                    stats: BeamformerStats {
                        input_frames: 0,
                        output_frames: 0,
                        stft_frames: 0,
                        clipped_samples: 0,
                        das_fallback_bins,
                        min_generated_wng_db,
                    },
                    mic0_buf: Vec::new(),
                    finalized: false,
                    mic0: Ghost(Seq::empty()),
                };
                assert(runtime.mic0_buf@ =~= runtime.mic0@.skip(0));
                Ok(runtime)
            },
        }
    }

    /// Takes in interleaved samples of the four microphones and returns the hops that they
    /// complete, by channel, in order.
    pub fn push_block(&mut self, mics_interleaved: &[i16]) -> (result: Result<
        Vec<Vec<Vec<i16>>>,
        String,
    >)
        requires
            old(self).well_formed(),
            old(self).finalized || old(self).stft.input_frames + mics_interleaved@.len()
                <= u64::MAX,
        ensures
            final(self).well_formed(),
            final(self).config == old(self).config,
            final(self).finalized == old(self).finalized,
            final(self).stft.finalized == old(self).stft.finalized,
            final(self).stft.stft_frames == old(self).stft.stft_frames,
            final(self).stft.output_frames == old(self).stft.output_frames,
            match result {
                Err(message) => {
                    &&& message@ == (if old(self).finalized {
                        "BeamformerRuntime 已 finalize"@
                    } else {
                        "BF 输入长度 "@ + decimal(mics_interleaved@.len()) + " 不是 4 的整数倍"@
                    })
                    &&& old(self).finalized || mics_interleaved@.len() % MIC_COUNT as nat != 0
                    &&& *final(self) == *old(self)
                },
                Ok(hops) => {
                    &&& !old(self).finalized
                    &&& mics_interleaved@.len() % MIC_COUNT as nat == 0
                    &&& final(self).stft.input_frames == old(self).stft.input_frames
                        + mics_interleaved@.len() / MIC_COUNT as nat
                    &&& final(self).stats == (BeamformerStats {
                        input_frames: final(self).stft.input_frames,
                        ..old(self).stats
                    })
                    &&& final(self).mic0@ == old(self).mic0@ + first_channel(mics_interleaved@)
                    &&& hops@.len() == final(self).stft.hops_out - old(self).stft.hops_out
                    &&& hops@.len() * HOP_SIZE + final(self).stft.hop@.len() == old(
                        self,
                    ).stft.hop@.len() + mics_interleaved@.len() / MIC_COUNT as nat
                    &&& forall|k: int|
                        0 <= k < hops@.len() ==> is_hop_of(
                            #[trigger] hops@[k],
                            old(self).stft.hop@,
                            mics_interleaved@,
                            k,
                        )
                    &&& holds_from(
                        final(self).stft.hop@,
                        old(self).stft.hop@,
                        mics_interleaved@,
                        hops@.len() * HOP_SIZE,
                    )
                },
            },
    {
        if self.finalized {
            return Err("BeamformerRuntime 已 finalize".to_owned());
        }
        if mics_interleaved.len() % MIC_COUNT != 0 {
            let mut message = "BF 输入长度 ".to_owned();
            push_decimal(&mut message, mics_interleaved.len() as u64);
            message.append(" 不是 4 的整数倍");
            return Err(message);
        }
        let mut hops: Vec<Vec<Vec<i16>>> = Vec::new();
        let length: usize = mics_interleaved.len();
        let count: usize = length / MIC_COUNT;
        let ghost first = first_channel(mics_interleaved@);
        let ghost start = old(self).mic0@;
        let ghost held = old(self).stft.hop@;
        assert(start + first.take(0) =~= start);
        for i in 0..count
            invariant
                length == mics_interleaved@.len(),
                length == count * MIC_COUNT,
                first == first_channel(mics_interleaved@),
                start == old(self).mic0@,
                !old(self).stft.finalized,
                old(self).stft.input_frames + mics_interleaved@.len() <= u64::MAX,
                self.well_formed(),
                !self.finalized,
                !self.stft.finalized,
                self.config == old(self).config,
                self.stft.input_frames == old(self).stft.input_frames + i,
                self.stft.stft_frames == old(self).stft.stft_frames,
                self.stft.output_frames == old(self).stft.output_frames,
                self.stats == (BeamformerStats {
                    input_frames: self.stft.input_frames,
                    ..old(self).stats
                }),
                self.mic0@ == start + first.take(i as int),
                hops@.len() == self.stft.hops_out - old(self).stft.hops_out,
                held == old(self).stft.hop@,
                hops@.len() * HOP_SIZE + self.stft.hop@.len() == held.len() + i,
                forall|k: int|
                    0 <= k < hops@.len() ==> is_hop_of(
                        #[trigger] hops@[k],
                        held,
                        mics_interleaved@,
                        k,
                    ),
                holds_from(self.stft.hop@, held, mics_interleaved@, hops@.len() * HOP_SIZE),
        {
            let ghost waiting = self.stft.hop@;
            let at: usize = i * MIC_COUNT;
            if self.config.compare_wav {
                self.mic0_buf.push(mics_interleaved[at]);
            }
            let frame = [
                mics_interleaved[at],
                mics_interleaved[at + 1],
                mics_interleaved[at + 2],
                mics_interleaved[at + 3],
            ];
            let ghost heard = self.mic0@;
            self.mic0 = Ghost(self.mic0@.push(mics_interleaved@[at as int]));
            proof {
                let now = self.mic0@;
                assert(now =~= start + first.take(i + 1));
                assert(now.skip(self.stft.output_frames as int) =~= heard.skip(
                    self.stft.output_frames as int,
                ).push(mics_interleaved@[at as int]));
            }
            let ghost position = hops@.len() * HOP_SIZE;
            assert(holds_from(waiting.push(frame), held, mics_interleaved@, position)) by {
                assert forall|n: int, ch: int|
                    0 <= n < waiting.push(frame).len() && 0 <= ch
                        < MIC_COUNT implies #[trigger] waiting.push(frame)[n]@[ch] == stream_sample(
                    held,
                    mics_interleaved@,
                    position + n,
                    ch,
                ) by {
                    if n < waiting.len() {
                        assert(waiting.push(frame)[n]@[ch] == waiting[n]@[ch]);
                    } else {
                        assert(position + n == held.len() + i);
                        assert(waiting.push(frame)[n] == frame);
                        assert(frame@[ch] == mics_interleaved@[i * MIC_COUNT + ch]);
                    }
                }
            }
            match self.stft.push_frame(frame) {
                Ok(Some(hop)) => {
                    assert(is_hop_of(hop, held, mics_interleaved@, hops@.len() as int)) by {
                        assert forall|ch: int, n: int|
                            0 <= ch < MIC_COUNT && 0 <= n < HOP_SIZE implies #[trigger] hop@[ch]@[n]
                            == stream_sample(held, mics_interleaved@, position + n, ch) by {
                            assert(hop@[ch]@[n] == waiting.push(frame)[n]@[ch]);
                        }
                    }
                    hops.push(hop);
                },
                Ok(None) => {},
                Err(message) => {
                    assert(false);
                    return Err(message);
                },
            }
            self.stats.input_frames = self.stats.input_frames + 1;
        }
        assert(first.take(count as int) =~= first);
        Ok(hops)
    }

    /// Takes back what was computed for a hop: the output that belongs to the recording, and,
    /// for a file that shows both, the input of the same instants.
    pub fn on_hop<U: Copy>(&mut self, computed: &[U]) -> (ready: ReadyOutput<U>)
        requires
            old(self).well_formed(),
            !old(self).stft.finalized,
            old(self).stft.stft_frames < old(self).stft.hops_out,
            computed@.len() == HOP_SIZE,
        ensures
            final(self).well_formed(),
            final(self).config == old(self).config,
            final(self).finalized == old(self).finalized,
            !final(self).stft.finalized,
            final(self).mic0@ == old(self).mic0@,
            final(self).stft.hops_out == old(self).stft.hops_out,
            final(self).stft.hop@ == old(self).stft.hop@,
            final(self).stft.stft_frames == old(self).stft.stft_frames + 1,
            ready.output@ == (if old(self).stft.stft_frames == 0 {
                Seq::<U>::empty()
            } else {
                computed@
            }),
            final(self).stats == (BeamformerStats {
                output_frames: (old(self).stats.output_frames + ready.output@.len()) as u64,
                stft_frames: (old(self).stats.stft_frames + 1) as u64,
                ..old(self).stats
            }),
            ready.input@ == (if old(self).config.compare_wav {
                old(self).mic0@.subrange(
                    old(self).stats.output_frames as int,
                    old(self).stats.output_frames + ready.output@.len(),
                )
            } else {
                Seq::<i16>::empty()
            }),
            old(self).config.compare_wav ==> beside(
                ready.input@,
                old(self).mic0@,
                old(self).stats.output_frames as int,
                ready.output@.len() as int,
            ),
    {
        let ghost before = self.stft.output_frames as int;
        let output = self.stft.release(computed);
        proof {
            stft::lemma_output_within_input(
                self.stft.hops_out as int,
                self.stft.stft_frames as int,
                self.stft.input_frames as int,
            );
        }
        let mut input: Vec<i16> = Vec::new();
        if self.config.compare_wav {
            let mut rest = self.mic0_buf.split_off(output.len());
            std::mem::swap(&mut rest, &mut self.mic0_buf);
            input = rest;
            assert(input@ =~= self.mic0@.subrange(before, before + output@.len()));
            assert(self.mic0_buf@ =~= self.mic0@.skip(before + output@.len()));
        }
        self.stats.output_frames = self.stft.output_frames;
        self.stats.stft_frames = self.stft.stft_frames;
        ReadyOutput { output, input }
    }

    /// Counts samples that were cut off.
    pub fn add_clipped(&mut self, clipped: u64)
        requires
            old(self).well_formed(),
            old(self).stats.clipped_samples + clipped <= u64::MAX,
        ensures
            final(self).well_formed(),
            final(self).config == old(self).config,
            final(self).finalized == old(self).finalized,
            final(self).stft == old(self).stft,
            final(self).mic0@ == old(self).mic0@,
            final(self).stats == (BeamformerStats {
                clipped_samples: (old(self).stats.clipped_samples + clipped) as u64,
                ..old(self).stats
            }),
    {
        self.stats.clipped_samples = self.stats.clipped_samples + clipped;
    }

    /// Ends the stream: the hops that are left to process, the part of the output of each that is
    /// kept, and the input of the same instants. What is kept brings the output to the length of
    /// the input. A second call has nothing left to do and changes nothing.
    pub fn finalize(&mut self) -> (plan: Vec<FinalHop>)
        requires
            old(self).well_formed(),
            old(self).finalized || old(self).stft.stft_frames == old(self).stft.hops_out,
        ensures
            final(self).well_formed(),
            final(self).finalized,
            old(self).finalized ==> *final(self) == *old(self),
            final(self).config == old(self).config,
            final(self).mic0@ == old(self).mic0@,
            final(self).stats == (BeamformerStats {
                output_frames: old(self).stats.input_frames,
                stft_frames: (old(self).stats.stft_frames + plan@.len()) as u64,
                ..old(self).stats
            }),
            plan@.len() == (if old(self).finalized {
                0
            } else {
                stft::flush_hops(
                    old(self).stats.input_frames as int,
                    old(self).stft.hop@.len() as int,
                )
            }),
            final_kept(plan@, plan@.len() as int) == old(self).stats.input_frames - old(
                self,
            ).stats.output_frames,
            forall|k: int|
                0 <= k < plan@.len() ==> {
                    &&& stft::is_hop((#[trigger] plan@[k]).channels@)
                    &&& stft::by_channel(
                        plan@[k].channels@,
                        stft::padded(
                            if k == 0 {
                                old(self).stft.hop@
                            } else {
                                Seq::<[i16; MIC_COUNT]>::empty()
                            },
                            0,
                        ),
                    )
                    &&& plan@[k].skip == (if old(self).stft.stft_frames + k == 0 {
                        HOP_SIZE as int
                    } else {
                        0
                    })
                    &&& plan@[k].keep == stft::part_kept(
                        plan@[k].skip as int,
                        old(self).stats.input_frames - old(self).stats.output_frames - final_kept(
                            plan@,
                            k,
                        ),
                    )
                    &&& plan@[k].input@ == (if old(self).config.compare_wav {
                        let from = old(self).stats.output_frames + final_kept(plan@, k);
                        old(self).mic0@.subrange(from, from + plan@[k].keep)
                    } else {
                        Seq::<i16>::empty()
                    })
                },
    {
        if self.finalized {
            return Vec::new();
        }
        let ghost emitted = self.stft.output_frames as int;
        let ghost total = self.stft.input_frames as int;
        let hops = self.stft.flush_zeros();
        let ghost flushed = hops@;
        let ghost sums = Seq::new(flushed.len() + 1, |k: int| stft::kept(flushed.take(k)));
        proof {
            assert(flushed.take(0) =~= Seq::<stft::FlushHop<i16>>::empty());
            assert(flushed.take(flushed.len() as int) =~= flushed);
            assert forall|k: int| 0 <= k < flushed.len() implies #[trigger] sums[k + 1] == sums[k]
                + flushed[k].keep by {
                assert(flushed.take(k + 1).drop_last() =~= flushed.take(k));
            }
            assert forall|k: int| 0 <= k <= flushed.len() implies 0 <= #[trigger] sums[k] <= total
                - emitted by {
                stft::lemma_kept_prefix(flushed, k);
            }
        }
        let mut plan: Vec<FinalHop> = Vec::new();
        let compare = self.config.compare_wav;
        let ghost mic0 = self.mic0@;
        let mut waiting: Vec<i16> = Vec::new();
        std::mem::swap(&mut waiting, &mut self.mic0_buf);
        let mut left = hops;
        assert(flushed.skip(0) =~= flushed);
        while left.len() > 0
            invariant
                left@ == flushed.skip(plan@.len() as int),
                plan@.len() + left@.len() == flushed.len(),
                mic0.len() == total,
                0 <= emitted <= total,
                sums.len() == flushed.len() + 1,
                forall|k: int|
                    0 <= k < flushed.len() ==> #[trigger] sums[k + 1] == sums[k] + flushed[k].keep,
                forall|k: int|
                    0 <= k <= flushed.len() ==> 0 <= #[trigger] sums[k] <= total - emitted,
                compare ==> waiting@ == mic0.skip(emitted + sums[plan@.len() as int]),
                forall|k: int|
                    0 <= k < plan@.len() ==> {
                        &&& (#[trigger] plan@[k]).channels == flushed[k].channels
                        &&& plan@[k].skip == flushed[k].skip
                        &&& plan@[k].keep == flushed[k].keep
                        &&& plan@[k].input@ == (if compare {
                            mic0.subrange(emitted + sums[k], emitted + sums[k] + plan@[k].keep)
                        } else {
                            Seq::<i16>::empty()
                        })
                    },
            decreases left.len(),
        {
            let ghost n = plan@.len() as int;
            let hop = left.remove(0);
            let mut input: Vec<i16> = Vec::new();
            assert(hop == flushed[n]);
            assert(sums[n + 1] == sums[n] + flushed[n].keep);
            if compare {
                let mut rest = waiting.split_off(hop.keep);
                std::mem::swap(&mut rest, &mut waiting);
                input = rest;
                assert(input@ =~= mic0.subrange(emitted + sums[n], emitted + sums[n] + hop.keep));
                assert(waiting@ =~= mic0.skip(emitted + sums[n + 1]));
            }
            plan.push(FinalHop { channels: hop.channels, skip: hop.skip, keep: hop.keep, input });
            assert(left@ =~= flushed.skip(plan@.len() as int));
        }
        proof {
            assert forall|k: int| 0 <= k <= plan@.len() implies #[trigger] final_kept(plan@, k)
                == sums[k] by {
                lemma_final_kept_is_the_sum(plan@, sums, k);
            }
        }
        self.stats.output_frames = self.stft.output_frames;
        self.stats.stft_frames = self.stft.stft_frames;
        self.finalized = true;
        plan
    }

    pub fn stats(&self) -> (stats: BeamformerStats)
        ensures
            stats == self.stats,
    {
        self.stats
    }
}

/// A hop to process at the end of the stream, with the part of its output that is kept and the
/// input of the same instants.
#[derive(Debug)]
pub struct FinalHop {
    pub channels: Vec<Vec<i16>>,
    pub skip: usize,
    pub keep: usize,
    pub input: Vec<i16>,
}

/// How many samples the first `k` hops of a plan keep.
pub open spec fn final_kept(plan: Seq<FinalHop>, k: int) -> int
    decreases k,
{
    if k <= 0 {
        0
    } else {
        final_kept(plan, k - 1) + plan[k - 1].keep
    }
}

proof fn lemma_final_kept_is_the_sum(plan: Seq<FinalHop>, sums: Seq<int>, k: int)
    requires
        sums.len() == plan.len() + 1,
        sums[0] == 0,
        forall|i: int| 0 <= i < plan.len() ==> #[trigger] sums[i + 1] == sums[i] + plan[i].keep,
        0 <= k <= plan.len(),
    ensures
        final_kept(plan, k) == sums[k],
    decreases k,
{
    if k > 0 {
        lemma_final_kept_is_the_sum(plan, sums, k - 1);
        assert(sums[k - 1 + 1] == sums[k - 1] + plan[k - 1].keep);
    }
}

/// The frames that are left from a block are the last ones of the stream, in order.
pub proof fn law_left_frames_go_on_with_the_stream(
    frames: Seq<[i16; MIC_COUNT]>,
    held: Seq<[i16; MIC_COUNT]>,
    mics: Seq<i16>,
    from: int,
    n: int,
    ch: int,
)
    requires
        holds_from(frames, held, mics, from),
        from >= 0,
        0 <= n < frames.len(),
        0 <= ch < 4,
    ensures
        from + n < held.len() ==> frames[n]@[ch] == held[from + n]@[ch],
        from + n >= held.len() ==> frames[n]@[ch] == mics[4 * (from + n - held.len()) + ch],
{
    assert(frames[n]@[ch] == stream_sample(held, mics, from + n, ch));
}

} // verus!

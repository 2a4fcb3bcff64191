//! The settings of the dynamic range compressor, and the ranges that they are kept in.

use vstd::arithmetic::power2::{lemma2_to64, lemma2_to64_rest};
use vstd::prelude::*;

use crate::single::{
    lemma_key_order_is_numeric, lemma_reads_as, reads_as, single, Single,
};

verus! {

/// 0.0
pub const BITS_0: u32 = 0x0000_0000;

/// 0.0001
pub const BITS_0_0001: u32 = 0x38D1_B717;

/// 0.001
pub const BITS_0_001: u32 = 0x3A83_126F;

/// 0.002
pub const BITS_0_002: u32 = 0x3B03_126F;

/// 0.003
pub const BITS_0_003: u32 = 0x3B44_9BA6;

/// 0.006
pub const BITS_0_006: u32 = 0x3BC4_9BA6;

/// 0.05
pub const BITS_0_05: u32 = 0x3D4C_CCCD;

/// 0.09
pub const BITS_0_09: u32 = 0x3DB8_51EC;

/// 0.16
pub const BITS_0_16: u32 = 0x3E23_D70A;

/// 0.42
pub const BITS_0_42: u32 = 0x3ED7_0A3D;

/// 0.6
pub const BITS_0_6: u32 = 0x3F19_999A;

/// 0.98
pub const BITS_0_98: u32 = 0x3F7A_E148;

/// 1.0
pub const BITS_1: u32 = 0x3F80_0000;

/// 5.0
pub const BITS_5: u32 = 0x40A0_0000;

/// 8.0
pub const BITS_8: u32 = 0x4100_0000;

/// 10.0
pub const BITS_10: u32 = 0x4120_0000;

/// 25.0
pub const BITS_25: u32 = 0x41C8_0000;

/// 60.0
pub const BITS_60: u32 = 0x4270_0000;

/// 80.0
pub const BITS_80: u32 = 0x42A0_0000;

/// 100.0
pub const BITS_100: u32 = 0x42C8_0000;

/// 10000.0
pub const BITS_10000: u32 = 0x461C_4000;

/// -1.0
pub const BITS_MINUS_1: u32 = 0xBF80_0000;

/// -20.0
pub const BITS_MINUS_20: u32 = 0xC1A0_0000;

/// -48.0
pub const BITS_MINUS_48: u32 = 0xC240_0000;

/// -54.0
pub const BITS_MINUS_54: u32 = 0xC258_0000;

/// -60.0
pub const BITS_MINUS_60: u32 = 0xC270_0000;

/// -80.0
pub const BITS_MINUS_80: u32 = 0xC2A0_0000;

/// -160.0
pub const BITS_MINUS_160: u32 = 0xC320_0000;

/// The settings of gate, compressor and limiter.
#[derive(Clone, Copy, Debug, PartialEq, Eq, Structural)]
pub struct DrcConfig {
    pub gate_enabled: bool,
    pub gate_open_threshold_db: Single,
    pub gate_close_threshold_db: Single,
    pub gate_attack_s: Single,
    pub gate_release_s: Single,
    pub gate_hold_ms: Single,
    pub gate_floor_db: Single,
    pub pregain_db: Single,
    pub compressor_threshold_db: Single,
    pub compressor_knee_db: Single,
    pub compressor_ratio: Single,
    pub compressor_attack_s: Single,
    pub compressor_release_s: Single,
    pub predelay_s: Single,
    pub release_zone1: Single,
    pub release_zone2: Single,
    pub release_zone3: Single,
    pub release_zone4: Single,
    pub postgain_db: Single,
    pub wet: Single,
    pub auto_makeup_gain: bool,
    pub limiter_enabled: bool,
    pub limiter_ceiling_dbfs: Single,
    pub limiter_release_s: Single,
}

/// The settings of the output path: a look-ahead of 2 ms and a gain of 5 dB before the compressor.
pub open spec fn pipeline_settings() -> DrcConfig {
    DrcConfig {
        gate_enabled: true,
        gate_open_threshold_db: single(BITS_MINUS_48),
        gate_close_threshold_db: single(BITS_MINUS_54),
        gate_attack_s: single(BITS_0_003),
        gate_release_s: single(BITS_0_05),
        gate_hold_ms: single(BITS_10),
        gate_floor_db: single(BITS_MINUS_80),
        pregain_db: single(BITS_5),
        compressor_threshold_db: single(BITS_MINUS_20),
        compressor_knee_db: single(BITS_25),
        compressor_ratio: single(BITS_8),
        compressor_attack_s: single(BITS_0_001),
        compressor_release_s: single(BITS_0_6),
        predelay_s: single(BITS_0_002),
        release_zone1: single(BITS_0_09),
        release_zone2: single(BITS_0_16),
        release_zone3: single(BITS_0_42),
        release_zone4: single(BITS_0_98),
        postgain_db: single(BITS_0),
        wet: single(BITS_1),
        auto_makeup_gain: false,
        limiter_enabled: true,
        limiter_ceiling_dbfs: single(BITS_MINUS_1),
        limiter_release_s: single(BITS_0_05),
    }
}

/// A setting that is finite and lies in its range: the value itself as far as possible.
pub open spec fn fitted(value: Single, fallback: Single, low: Single, high: Single) -> Single {
    value.spec_finite_or(fallback).spec_clamped(low, high)
}

fn fit(value: Single, fallback: Single, low: Single, high: Single) -> (r: Single)
    ensures
        r == fitted(value, fallback, low, high),
{
    value.finite_or(fallback).clamped(low, high)
}

/// The settings with every value replaced by a usable one. The release zones do not decrease, and
/// the noise gate does not close above the level at which it opens.
pub open spec fn sanitized(config: DrcConfig, max_predelay_s: Single) -> DrcConfig {
    let release_zone1 = fitted(config.release_zone1, single(BITS_0_09), single(BITS_0_0001), single(BITS_1));
    let release_zone2 = fitted(config.release_zone2, single(BITS_0_16), release_zone1, single(BITS_1));
    let release_zone3 = fitted(config.release_zone3, single(BITS_0_42), release_zone2, single(BITS_1));
    let release_zone4 = fitted(config.release_zone4, single(BITS_0_98), release_zone3, single(BITS_1));
    let open_db = fitted(config.gate_open_threshold_db, single(BITS_MINUS_48), single(BITS_MINUS_160), single(BITS_0));
    let close_db = fitted(config.gate_close_threshold_db, single(BITS_MINUS_54), single(BITS_MINUS_160), single(BITS_0));
    DrcConfig {
        gate_enabled: config.gate_enabled,
        gate_open_threshold_db: open_db,
        gate_close_threshold_db: if open_db.below(close_db) {
            open_db
        } else {
            close_db
        },
        gate_attack_s: fitted(config.gate_attack_s, single(BITS_0_003), single(BITS_0), single(BITS_10)),
        gate_release_s: fitted(config.gate_release_s, single(BITS_0_05), single(BITS_0), single(BITS_10)),
        gate_hold_ms: fitted(config.gate_hold_ms, single(BITS_10), single(BITS_0), single(BITS_10000)),
        gate_floor_db: fitted(config.gate_floor_db, single(BITS_MINUS_80), single(BITS_MINUS_160), single(BITS_0)),
        pregain_db: fitted(config.pregain_db, single(BITS_5), single(BITS_MINUS_60), single(BITS_60)),
        compressor_threshold_db: fitted(config.compressor_threshold_db, single(BITS_MINUS_20), single(BITS_MINUS_160), single(BITS_0)),
        compressor_knee_db: fitted(config.compressor_knee_db, single(BITS_25), single(BITS_0), single(BITS_80)),
        compressor_ratio: fitted(config.compressor_ratio, single(BITS_8), single(BITS_1), single(BITS_100)),
        compressor_attack_s: fitted(config.compressor_attack_s, single(BITS_0_001), single(BITS_0), single(BITS_10)),
        compressor_release_s: fitted(config.compressor_release_s, single(BITS_0_6), single(BITS_0), single(BITS_10)),
        predelay_s: fitted(config.predelay_s, single(BITS_0_006), single(BITS_0), max_predelay_s),
        release_zone1,
        release_zone2,
        release_zone3,
        release_zone4,
        postgain_db: fitted(config.postgain_db, single(BITS_0), single(BITS_MINUS_60), single(BITS_60)),
        wet: fitted(config.wet, single(BITS_1), single(BITS_0), single(BITS_1)),
        auto_makeup_gain: config.auto_makeup_gain,
        limiter_enabled: config.limiter_enabled,
        limiter_ceiling_dbfs: fitted(config.limiter_ceiling_dbfs, single(BITS_MINUS_1), single(BITS_MINUS_60), single(BITS_0)),
        limiter_release_s: fitted(config.limiter_release_s, single(BITS_0_05), single(BITS_0), single(BITS_10)),
    }
}

impl DrcConfig {
    pub fn pipeline() -> (config: Self)
        ensures
            config == pipeline_settings(),
    {
        DrcConfig {
            gate_enabled: true,
            gate_open_threshold_db: single(BITS_MINUS_48),
            gate_close_threshold_db: single(BITS_MINUS_54),
            gate_attack_s: single(BITS_0_003),
            gate_release_s: single(BITS_0_05),
            gate_hold_ms: single(BITS_10),
            gate_floor_db: single(BITS_MINUS_80),
            pregain_db: single(BITS_5),
            compressor_threshold_db: single(BITS_MINUS_20),
            compressor_knee_db: single(BITS_25),
            compressor_ratio: single(BITS_8),
            compressor_attack_s: single(BITS_0_001),
            compressor_release_s: single(BITS_0_6),
            predelay_s: single(BITS_0_002),
            release_zone1: single(BITS_0_09),
            release_zone2: single(BITS_0_16),
            release_zone3: single(BITS_0_42),
            release_zone4: single(BITS_0_98),
            postgain_db: single(BITS_0),
            wet: single(BITS_1),
            auto_makeup_gain: false,
            limiter_enabled: true,
            limiter_ceiling_dbfs: single(BITS_MINUS_1),
            limiter_release_s: single(BITS_0_05),
        }
    }

    /// Usable settings; `max_predelay_s` is the longest look-ahead that the delay line can hold.
    pub fn sanitize(&self, max_predelay_s: Single) -> (safe: Self)
        ensures
            safe == sanitized(*self, max_predelay_s),
    {
        let config = self;
        let release_zone1 = fit(config.release_zone1, single(BITS_0_09), single(BITS_0_0001), single(BITS_1));
        let release_zone2 = fit(config.release_zone2, single(BITS_0_16), release_zone1, single(BITS_1));
        let release_zone3 = fit(config.release_zone3, single(BITS_0_42), release_zone2, single(BITS_1));
        let release_zone4 = fit(config.release_zone4, single(BITS_0_98), release_zone3, single(BITS_1));
        let open_db = fit(config.gate_open_threshold_db, single(BITS_MINUS_48), single(BITS_MINUS_160), single(BITS_0));
        let close_db = fit(config.gate_close_threshold_db, single(BITS_MINUS_54), single(BITS_MINUS_160), single(BITS_0));
        DrcConfig {
            gate_enabled: config.gate_enabled,
            gate_open_threshold_db: open_db,
            gate_close_threshold_db: if open_db.lt(close_db) {
                open_db
            } else {
                close_db
            },
            gate_attack_s: fit(config.gate_attack_s, single(BITS_0_003), single(BITS_0), single(BITS_10)),
            gate_release_s: fit(config.gate_release_s, single(BITS_0_05), single(BITS_0), single(BITS_10)),
            gate_hold_ms: fit(config.gate_hold_ms, single(BITS_10), single(BITS_0), single(BITS_10000)),
            gate_floor_db: fit(config.gate_floor_db, single(BITS_MINUS_80), single(BITS_MINUS_160), single(BITS_0)),
            pregain_db: fit(config.pregain_db, single(BITS_5), single(BITS_MINUS_60), single(BITS_60)),
            compressor_threshold_db: fit(config.compressor_threshold_db, single(BITS_MINUS_20), single(BITS_MINUS_160), single(BITS_0)),
            compressor_knee_db: fit(config.compressor_knee_db, single(BITS_25), single(BITS_0), single(BITS_80)),
            compressor_ratio: fit(config.compressor_ratio, single(BITS_8), single(BITS_1), single(BITS_100)),
            compressor_attack_s: fit(config.compressor_attack_s, single(BITS_0_001), single(BITS_0), single(BITS_10)),
            compressor_release_s: fit(config.compressor_release_s, single(BITS_0_6), single(BITS_0), single(BITS_10)),
            predelay_s: fit(config.predelay_s, single(BITS_0_006), single(BITS_0), max_predelay_s),
            release_zone1,
            release_zone2,
            release_zone3,
            release_zone4,
            postgain_db: fit(config.postgain_db, single(BITS_0), single(BITS_MINUS_60), single(BITS_60)),
            wet: fit(config.wet, single(BITS_1), single(BITS_0), single(BITS_1)),
            auto_makeup_gain: config.auto_makeup_gain,
            limiter_enabled: config.limiter_enabled,
            limiter_ceiling_dbfs: fit(config.limiter_ceiling_dbfs, single(BITS_MINUS_1), single(BITS_MINUS_60), single(BITS_0)),
            limiter_release_s: fit(config.limiter_release_s, single(BITS_0_05), single(BITS_0), single(BITS_10)),
        }
    }
}

proof fn lemma_fitted(value: Single, fallback: Single, low: Single, high: Single)
    requires
        fallback.finite(),
        low.finite(),
        high.finite(),
        low.at_most(high),
    ensures
        fitted(value, fallback, low, high).finite(),
        fitted(value, fallback, low, high).within(low, high),
{
}

/// Whatever was configured, every sanitized setting is finite and lies in its range.
pub proof fn law_sanitized_settings_are_in_range(config: DrcConfig, max_predelay_s: Single)
    requires
        max_predelay_s.finite(),
        single(0).at_most(max_predelay_s),
    ensures
        sanitized(config, max_predelay_s).gate_open_threshold_db.within(single(BITS_MINUS_160), single(BITS_0)),
        sanitized(config, max_predelay_s).gate_close_threshold_db.within(single(BITS_MINUS_160), single(BITS_0)),
        sanitized(config, max_predelay_s).gate_attack_s.within(single(BITS_0), single(BITS_10)),
        sanitized(config, max_predelay_s).gate_release_s.within(single(BITS_0), single(BITS_10)),
        sanitized(config, max_predelay_s).gate_hold_ms.within(single(BITS_0), single(BITS_10000)),
        sanitized(config, max_predelay_s).gate_floor_db.within(single(BITS_MINUS_160), single(BITS_0)),
        sanitized(config, max_predelay_s).pregain_db.within(single(BITS_MINUS_60), single(BITS_60)),
        sanitized(config, max_predelay_s).compressor_threshold_db.within(single(BITS_MINUS_160), single(BITS_0)),
        sanitized(config, max_predelay_s).compressor_knee_db.within(single(BITS_0), single(BITS_80)),
        sanitized(config, max_predelay_s).compressor_ratio.within(single(BITS_1), single(BITS_100)),
        sanitized(config, max_predelay_s).compressor_attack_s.within(single(BITS_0), single(BITS_10)),
        sanitized(config, max_predelay_s).compressor_release_s.within(single(BITS_0), single(BITS_10)),
        sanitized(config, max_predelay_s).predelay_s.within(single(BITS_0), max_predelay_s),
        sanitized(config, max_predelay_s).release_zone1.within(single(BITS_0_0001), single(BITS_1)),
        sanitized(config, max_predelay_s).release_zone2.within(sanitized(config, max_predelay_s).release_zone1, single(BITS_1)),
        sanitized(config, max_predelay_s).release_zone3.within(sanitized(config, max_predelay_s).release_zone2, single(BITS_1)),
        sanitized(config, max_predelay_s).release_zone4.within(sanitized(config, max_predelay_s).release_zone3, single(BITS_1)),
        sanitized(config, max_predelay_s).postgain_db.within(single(BITS_MINUS_60), single(BITS_60)),
        sanitized(config, max_predelay_s).wet.within(single(BITS_0), single(BITS_1)),
        sanitized(config, max_predelay_s).limiter_ceiling_dbfs.within(single(BITS_MINUS_60), single(BITS_0)),
        sanitized(config, max_predelay_s).limiter_release_s.within(single(BITS_0), single(BITS_10)),
        sanitized(config, max_predelay_s).gate_close_threshold_db.at_most(
            sanitized(config, max_predelay_s).gate_open_threshold_db,
        ),
{
    let s = sanitized(config, max_predelay_s);
    lemma_fitted(config.release_zone1, single(BITS_0_09), single(BITS_0_0001), single(BITS_1));
    lemma_fitted(config.release_zone2, single(BITS_0_16), s.release_zone1, single(BITS_1));
    lemma_fitted(config.release_zone3, single(BITS_0_42), s.release_zone2, single(BITS_1));
    lemma_fitted(config.release_zone4, single(BITS_0_98), s.release_zone3, single(BITS_1));
}

/// The settings of the output path are usable as they are, where the delay line can hold them.
pub proof fn law_pipeline_settings_are_kept(max_predelay_s: Single)
    requires
        single(BITS_0_002).at_most(max_predelay_s),
    ensures
        sanitized(pipeline_settings(), max_predelay_s) == pipeline_settings(),
{
}

/// `safe` is what a configured value becomes: the value itself, or the given one where it is not
/// finite, as long as that lies in the range; and the bound that it lies beyond where it does not.
pub open spec fn stands_for(
    safe: Single,
    value: Single,
    fallback: Single,
    low: Single,
    high: Single,
) -> bool {
    let wanted = if value.finite() {
        value
    } else {
        fallback
    };
    &&& low.units() <= wanted.units() <= high.units() ==> safe == wanted
    &&& wanted.units() < low.units() ==> safe == low
    &&& wanted.units() > high.units() ==> safe == high
}

proof fn lemma_fitted_stands_for(value: Single, fallback: Single, low: Single, high: Single)
    requires
        fallback.finite(),
        low.finite(),
        high.finite(),
        low.at_most(high),
    ensures
        stands_for(fitted(value, fallback, low, high), value, fallback, low, high),
{
    let wanted = if value.finite() {
        value
    } else {
        fallback
    };
    lemma_key_order_is_numeric(wanted, low);
    lemma_key_order_is_numeric(wanted, high);
    lemma_key_order_is_numeric(low, high);
}

/// A setting that is usable is kept, one that is not finite is replaced, and one beyond its range
/// becomes the bound; the switches are kept.
pub proof fn law_usable_settings_are_kept(config: DrcConfig, max_predelay_s: Single)
    requires
        max_predelay_s.finite(),
        single(0).at_most(max_predelay_s),
    ensures
        sanitized(config, max_predelay_s).gate_enabled == config.gate_enabled,
        sanitized(config, max_predelay_s).auto_makeup_gain == config.auto_makeup_gain,
        sanitized(config, max_predelay_s).limiter_enabled == config.limiter_enabled,
        stands_for(
            sanitized(config, max_predelay_s).predelay_s,
            config.predelay_s,
            single(BITS_0_006),
            single(BITS_0),
            max_predelay_s,
        ),
        stands_for(
            sanitized(config, max_predelay_s).gate_attack_s,
            config.gate_attack_s,
            single(BITS_0_003),
            single(BITS_0),
            single(BITS_10),
        ),
        stands_for(
            sanitized(config, max_predelay_s).gate_release_s,
            config.gate_release_s,
            single(BITS_0_05),
            single(BITS_0),
            single(BITS_10),
        ),
        stands_for(
            sanitized(config, max_predelay_s).gate_hold_ms,
            config.gate_hold_ms,
            single(BITS_10),
            single(BITS_0),
            single(BITS_10000),
        ),
        stands_for(
            sanitized(config, max_predelay_s).gate_floor_db,
            config.gate_floor_db,
            single(BITS_MINUS_80),
            single(BITS_MINUS_160),
            single(BITS_0),
        ),
        stands_for(
            sanitized(config, max_predelay_s).pregain_db,
            config.pregain_db,
            single(BITS_5),
            single(BITS_MINUS_60),
            single(BITS_60),
        ),
        stands_for(
            sanitized(config, max_predelay_s).compressor_threshold_db,
            config.compressor_threshold_db,
            single(BITS_MINUS_20),
            single(BITS_MINUS_160),
            single(BITS_0),
        ),
        stands_for(
            sanitized(config, max_predelay_s).compressor_knee_db,
            config.compressor_knee_db,
            single(BITS_25),
            single(BITS_0),
            single(BITS_80),
        ),
        stands_for(
            sanitized(config, max_predelay_s).compressor_ratio,
            config.compressor_ratio,
            single(BITS_8),
            single(BITS_1),
            single(BITS_100),
        ),
        stands_for(
            sanitized(config, max_predelay_s).compressor_attack_s,
            config.compressor_attack_s,
            single(BITS_0_001),
            single(BITS_0),
            single(BITS_10),
        ),
        stands_for(
            sanitized(config, max_predelay_s).compressor_release_s,
            config.compressor_release_s,
            single(BITS_0_6),
            single(BITS_0),
            single(BITS_10),
        ),
        stands_for(
            sanitized(config, max_predelay_s).postgain_db,
            config.postgain_db,
            single(BITS_0),
            single(BITS_MINUS_60),
            single(BITS_60),
        ),
        stands_for(
            sanitized(config, max_predelay_s).wet,
            config.wet,
            single(BITS_1),
            single(BITS_0),
            single(BITS_1),
        ),
        stands_for(
            sanitized(config, max_predelay_s).limiter_ceiling_dbfs,
            config.limiter_ceiling_dbfs,
            single(BITS_MINUS_1),
            single(BITS_MINUS_60),
            single(BITS_0),
        ),
        stands_for(
            sanitized(config, max_predelay_s).limiter_release_s,
            config.limiter_release_s,
            single(BITS_0_05),
            single(BITS_0),
            single(BITS_10),
        ),
        stands_for(
            sanitized(config, max_predelay_s).gate_open_threshold_db,
            config.gate_open_threshold_db,
            single(BITS_MINUS_48),
            single(BITS_MINUS_160),
            single(BITS_0),
        ),
        stands_for(
            sanitized(config, max_predelay_s).release_zone1,
            config.release_zone1,
            single(BITS_0_09),
            single(BITS_0_0001),
            single(BITS_1),
        ),
        stands_for(
            sanitized(config, max_predelay_s).release_zone2,
            config.release_zone2,
            single(BITS_0_16),
            sanitized(config, max_predelay_s).release_zone1,
            single(BITS_1),
        ),
        stands_for(
            sanitized(config, max_predelay_s).release_zone3,
            config.release_zone3,
            single(BITS_0_42),
            sanitized(config, max_predelay_s).release_zone2,
            single(BITS_1),
        ),
        stands_for(
            sanitized(config, max_predelay_s).release_zone4,
            config.release_zone4,
            single(BITS_0_98),
            sanitized(config, max_predelay_s).release_zone3,
            single(BITS_1),
        ),
{
    let s = sanitized(config, max_predelay_s);
    lemma_fitted_stands_for(config.predelay_s, single(BITS_0_006), single(BITS_0), max_predelay_s);
    lemma_fitted(config.release_zone1, single(BITS_0_09), single(BITS_0_0001), single(BITS_1));
    lemma_fitted(config.release_zone2, single(BITS_0_16), s.release_zone1, single(BITS_1));
    lemma_fitted(config.release_zone3, single(BITS_0_42), s.release_zone2, single(BITS_1));
    lemma_fitted_stands_for(config.release_zone1, single(BITS_0_09), single(BITS_0_0001), single(BITS_1));
    lemma_fitted_stands_for(config.release_zone2, single(BITS_0_16), s.release_zone1, single(BITS_1));
    lemma_fitted_stands_for(config.release_zone3, single(BITS_0_42), s.release_zone2, single(BITS_1));
    lemma_fitted_stands_for(config.release_zone4, single(BITS_0_98), s.release_zone3, single(BITS_1));
    lemma_fitted_stands_for(config.gate_attack_s, single(BITS_0_003), single(BITS_0), single(BITS_10));
    lemma_fitted_stands_for(config.gate_release_s, single(BITS_0_05), single(BITS_0), single(BITS_10));
    lemma_fitted_stands_for(config.gate_hold_ms, single(BITS_10), single(BITS_0), single(BITS_10000));
    lemma_fitted_stands_for(config.gate_floor_db, single(BITS_MINUS_80), single(BITS_MINUS_160), single(BITS_0));
    lemma_fitted_stands_for(config.pregain_db, single(BITS_5), single(BITS_MINUS_60), single(BITS_60));
    lemma_fitted_stands_for(config.compressor_threshold_db, single(BITS_MINUS_20), single(BITS_MINUS_160), single(BITS_0));
    lemma_fitted_stands_for(config.compressor_knee_db, single(BITS_25), single(BITS_0), single(BITS_80));
    lemma_fitted_stands_for(config.compressor_ratio, single(BITS_8), single(BITS_1), single(BITS_100));
    lemma_fitted_stands_for(config.compressor_attack_s, single(BITS_0_001), single(BITS_0), single(BITS_10));
    lemma_fitted_stands_for(config.compressor_release_s, single(BITS_0_6), single(BITS_0), single(BITS_10));
    lemma_fitted_stands_for(config.postgain_db, single(BITS_0), single(BITS_MINUS_60), single(BITS_60));
    lemma_fitted_stands_for(config.wet, single(BITS_1), single(BITS_0), single(BITS_1));
    lemma_fitted_stands_for(config.limiter_ceiling_dbfs, single(BITS_MINUS_1), single(BITS_MINUS_60), single(BITS_0));
    lemma_fitted_stands_for(config.limiter_release_s, single(BITS_0_05), single(BITS_0), single(BITS_10));
    lemma_fitted_stands_for(config.gate_open_threshold_db, single(BITS_MINUS_48), single(BITS_MINUS_160), single(BITS_0));
}

/// The level at which the noise gate closes is kept as long as it is usable and not above the level
/// at which it opens; above it, the noise gate closes where it opens.
pub proof fn law_gate_does_not_close_above_its_opening_level(
    config: DrcConfig,
    max_predelay_s: Single,
)
    ensures
        ({
            let s = sanitized(config, max_predelay_s);
            let close = config.gate_close_threshold_db;
            let open = s.gate_open_threshold_db;
            &&& close.finite() && close.within(single(BITS_MINUS_160), open)
                ==> s.gate_close_threshold_db == close
            &&& close.finite() && open.below(close) ==> s.gate_close_threshold_db.within(open, open)
            &&& close.finite() && close.below(single(BITS_MINUS_160)) ==> s.gate_close_threshold_db
                == single(BITS_MINUS_160)
            &&& !close.finite() && single(BITS_MINUS_54).at_most(open) ==> s.gate_close_threshold_db
                == single(BITS_MINUS_54)
        }),
{
    lemma_fitted(
        config.gate_open_threshold_db,
        single(BITS_MINUS_48),
        single(BITS_MINUS_160),
        single(BITS_0),
    );
}

/// The bounds and values of the settings that are whole numbers are those that they are named after.
pub proof fn law_whole_constants_are_their_numbers()
    ensures
        reads_as(single(BITS_0), 0, 1),
        reads_as(single(BITS_1), 1, 1),
        reads_as(single(BITS_5), 5, 1),
        reads_as(single(BITS_8), 8, 1),
        reads_as(single(BITS_10), 10, 1),
        reads_as(single(BITS_25), 25, 1),
        reads_as(single(BITS_60), 60, 1),
        reads_as(single(BITS_80), 80, 1),
        reads_as(single(BITS_100), 100, 1),
        reads_as(single(BITS_10000), 10000, 1),
        reads_as(single(BITS_MINUS_1), -1, 1),
        reads_as(single(BITS_MINUS_20), -20, 1),
        reads_as(single(BITS_MINUS_48), -48, 1),
        reads_as(single(BITS_MINUS_54), -54, 1),
        reads_as(single(BITS_MINUS_60), -60, 1),
        reads_as(single(BITS_MINUS_80), -80, 1),
        reads_as(single(BITS_MINUS_160), -160, 1),
{
    lemma_positive_constants();
    lemma_negative_constants();
}

proof fn lemma_positive_constants()
    ensures
        reads_as(single(BITS_0), 0, 1),
        reads_as(single(BITS_1), 1, 1),
        reads_as(single(BITS_5), 5, 1),
        reads_as(single(BITS_8), 8, 1),
        reads_as(single(BITS_10), 10, 1),
        reads_as(single(BITS_25), 25, 1),
        reads_as(single(BITS_60), 60, 1),
        reads_as(single(BITS_80), 80, 1),
        reads_as(single(BITS_100), 100, 1),
        reads_as(single(BITS_10000), 10000, 1),
{
    assert(reads_as(single(BITS_1), 1, 1)) by {
        lemma2_to64();
        lemma_reads_as(single(BITS_1), 127, 0x800000, 0x800000, 1, 1);
    }
    assert(reads_as(single(BITS_5), 5, 1)) by {
        lemma2_to64();
        lemma_reads_as(single(BITS_5), 129, 0xA00000, 0x200000, 5, 1);
    }
    assert(reads_as(single(BITS_8), 8, 1)) by {
        lemma2_to64();
        lemma_reads_as(single(BITS_8), 130, 0x800000, 0x100000, 8, 1);
    }
    assert(reads_as(single(BITS_10), 10, 1)) by {
        lemma2_to64();
        lemma_reads_as(single(BITS_10), 130, 0xA00000, 0x100000, 10, 1);
    }
    assert(reads_as(single(BITS_25), 25, 1)) by {
        lemma2_to64();
        lemma_reads_as(single(BITS_25), 131, 0xC80000, 0x80000, 25, 1);
    }
    assert(reads_as(single(BITS_60), 60, 1)) by {
        lemma2_to64();
        lemma_reads_as(single(BITS_60), 132, 0xF00000, 0x40000, 60, 1);
    }
    assert(reads_as(single(BITS_80), 80, 1)) by {
        lemma2_to64();
        lemma_reads_as(single(BITS_80), 133, 0xA00000, 0x20000, 80, 1);
    }
    assert(reads_as(single(BITS_100), 100, 1)) by {
        lemma2_to64();
        lemma_reads_as(single(BITS_100), 133, 0xC80000, 0x20000, 100, 1);
    }
    assert(reads_as(single(BITS_10000), 10000, 1)) by {
        lemma2_to64();
        lemma_reads_as(single(BITS_10000), 140, 0x9C4000, 0x400, 10000, 1);
    }
}

proof fn lemma_negative_constants()
    ensures
        reads_as(single(BITS_MINUS_1), -1, 1),
        reads_as(single(BITS_MINUS_20), -20, 1),
        reads_as(single(BITS_MINUS_48), -48, 1),
        reads_as(single(BITS_MINUS_54), -54, 1),
        reads_as(single(BITS_MINUS_60), -60, 1),
        reads_as(single(BITS_MINUS_80), -80, 1),
        reads_as(single(BITS_MINUS_160), -160, 1),
{
    assert(reads_as(single(BITS_MINUS_1), -1, 1)) by {
        lemma2_to64();
        lemma_reads_as(single(BITS_MINUS_1), 127, 0x800000, 0x800000, -1, 1);
    }
    assert(reads_as(single(BITS_MINUS_20), -20, 1)) by {
        lemma2_to64();
        lemma_reads_as(single(BITS_MINUS_20), 131, 0xA00000, 0x80000, -20, 1);
    }
    assert(reads_as(single(BITS_MINUS_48), -48, 1)) by {
        lemma2_to64();
        lemma_reads_as(single(BITS_MINUS_48), 132, 0xC00000, 0x40000, -48, 1);
    }
    assert(reads_as(single(BITS_MINUS_54), -54, 1)) by {
        lemma2_to64();
        lemma_reads_as(single(BITS_MINUS_54), 132, 0xD80000, 0x40000, -54, 1);
    }
    assert(reads_as(single(BITS_MINUS_60), -60, 1)) by {
        lemma2_to64();
        lemma_reads_as(single(BITS_MINUS_60), 132, 0xF00000, 0x40000, -60, 1);
    }
    assert(reads_as(single(BITS_MINUS_80), -80, 1)) by {
        lemma2_to64();
        lemma_reads_as(single(BITS_MINUS_80), 133, 0xA00000, 0x20000, -80, 1);
    }
    assert(reads_as(single(BITS_MINUS_160), -160, 1)) by {
        lemma2_to64();
        lemma_reads_as(single(BITS_MINUS_160), 134, 0xA00000, 0x10000, -160, 1);
    }
}

/// The bounds and values of the settings that are no whole numbers are those that they are named after.
pub proof fn law_fractional_constants_are_their_numbers()
    ensures
        reads_as(single(BITS_0_0001), 1, 10000),
        reads_as(single(BITS_0_001), 1, 1000),
        reads_as(single(BITS_0_002), 2, 1000),
        reads_as(single(BITS_0_003), 3, 1000),
        reads_as(single(BITS_0_006), 6, 1000),
        reads_as(single(BITS_0_05), 5, 100),
        reads_as(single(BITS_0_09), 9, 100),
        reads_as(single(BITS_0_16), 16, 100),
        reads_as(single(BITS_0_42), 42, 100),
        reads_as(single(BITS_0_6), 6, 10),
        reads_as(single(BITS_0_98), 98, 100),
{
    assert(reads_as(single(BITS_0_0001), 1, 10000)) by {
        lemma2_to64_rest();
        lemma_reads_as(single(BITS_0_0001), 113, 0xD1B717, 0x2000000000, 1, 10000);
    }
    assert(reads_as(single(BITS_0_001), 1, 1000)) by {
        lemma2_to64_rest();
        lemma_reads_as(single(BITS_0_001), 117, 0x83126F, 0x200000000, 1, 1000);
    }
    assert(reads_as(single(BITS_0_002), 2, 1000)) by {
        lemma2_to64();
        lemma_reads_as(single(BITS_0_002), 118, 0x83126F, 0x100000000, 2, 1000);
    }
    assert(reads_as(single(BITS_0_003), 3, 1000)) by {
        lemma2_to64();
        lemma_reads_as(single(BITS_0_003), 118, 0xC49BA6, 0x100000000, 3, 1000);
    }
    assert(reads_as(single(BITS_0_006), 6, 1000)) by {
        lemma2_to64();
        lemma_reads_as(single(BITS_0_006), 119, 0xC49BA6, 0x80000000, 6, 1000);
    }
    assert(reads_as(single(BITS_0_05), 5, 100)) by {
        lemma2_to64();
        lemma_reads_as(single(BITS_0_05), 122, 0xCCCCCD, 0x10000000, 5, 100);
    }
    assert(reads_as(single(BITS_0_09), 9, 100)) by {
        lemma2_to64();
        lemma_reads_as(single(BITS_0_09), 123, 0xB851EC, 0x8000000, 9, 100);
    }
    assert(reads_as(single(BITS_0_16), 16, 100)) by {
        lemma2_to64();
        lemma_reads_as(single(BITS_0_16), 124, 0xA3D70A, 0x4000000, 16, 100);
    }
    assert(reads_as(single(BITS_0_42), 42, 100)) by {
        lemma2_to64();
        lemma_reads_as(single(BITS_0_42), 125, 0xD70A3D, 0x2000000, 42, 100);
    }
    assert(reads_as(single(BITS_0_6), 6, 10)) by {
        lemma2_to64();
        lemma_reads_as(single(BITS_0_6), 126, 0x99999A, 0x1000000, 6, 10);
    }
    assert(reads_as(single(BITS_0_98), 98, 100)) by {
        lemma2_to64();
        lemma_reads_as(single(BITS_0_98), 126, 0xFAE148, 0x1000000, 98, 100);
    }
}

/// The settings of the output path by their numbers, in decibels, seconds, milliseconds and shares:
/// the noise gate and the limiter are on, and no gain is made up for.
pub proof fn law_settings_of_the_output_path()
    ensures
        pipeline_settings().gate_enabled,
        pipeline_settings().limiter_enabled,
        !pipeline_settings().auto_makeup_gain,
        reads_as(pipeline_settings().gate_open_threshold_db, -48, 1),
        reads_as(pipeline_settings().gate_close_threshold_db, -54, 1),
        reads_as(pipeline_settings().gate_attack_s, 3, 1000),
        reads_as(pipeline_settings().gate_release_s, 5, 100),
        reads_as(pipeline_settings().gate_hold_ms, 10, 1),
        reads_as(pipeline_settings().gate_floor_db, -80, 1),
        reads_as(pipeline_settings().pregain_db, 5, 1),
        reads_as(pipeline_settings().compressor_threshold_db, -20, 1),
        reads_as(pipeline_settings().compressor_knee_db, 25, 1),
        reads_as(pipeline_settings().compressor_ratio, 8, 1),
        reads_as(pipeline_settings().compressor_attack_s, 1, 1000),
        reads_as(pipeline_settings().compressor_release_s, 6, 10),
        reads_as(pipeline_settings().predelay_s, 2, 1000),
        reads_as(pipeline_settings().release_zone1, 9, 100),
        reads_as(pipeline_settings().release_zone2, 16, 100),
        reads_as(pipeline_settings().release_zone3, 42, 100),
        reads_as(pipeline_settings().release_zone4, 98, 100),
        reads_as(pipeline_settings().postgain_db, 0, 1),
        reads_as(pipeline_settings().wet, 1, 1),
        reads_as(pipeline_settings().limiter_ceiling_dbfs, -1, 1),
        reads_as(pipeline_settings().limiter_release_s, 5, 100),
{
    law_whole_constants_are_their_numbers();
    law_fractional_constants_are_their_numbers();
}

} // verus!

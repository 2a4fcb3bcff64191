//! Direction of arrival: framing, the confidence gate around the tracker, and the configuration
//! of the estimator.

pub mod circle;
pub mod framer;
pub mod geometry;
pub mod output;
pub mod srp;
pub mod tracker;

use vstd::arithmetic::power2::{lemma2_to64, lemma_pow2_adds, pow2};
use vstd::prelude::*;
use vstd::string::*;

pub use crate::doa::circle::wrap_360;

use crate::doa::framer::{window_ready, FrameAssembler};
use crate::doa::srp::Observation;
use crate::doa::tracker::TrackStatus;
use crate::single::{lemma_key_order_is_numeric, lemma_reads_as, reads_as, single, Single};
use crate::text::{decimal, push_decimal};

verus! {

pub const SAMPLE_RATE: u32 = 16000;

pub const MIC_COUNT: usize = 4;

/// 32 ms
pub const FRAME_SIZE: usize = 512;

/// 16 ms
pub const HOP_SIZE: usize = 256;

pub const FFT_BINS: usize = 257;

pub const ANGLE_COUNT: usize = 360;

/// The first two windows fill the averages; results begin with the third.
pub const WARMUP_FRAMES: u64 = 2;

/// 0.0
pub const BITS_ZERO: u32 = 0;

/// 0.40
pub const BITS_0_40: u32 = 0x3ECC_CCCD;

/// 0.65
pub const BITS_0_65: u32 = 0x3F26_6666;

/// 0.75
pub const BITS_0_75: u32 = 0x3F40_0000;

/// 1.0
pub const BITS_1: u32 = 0x3F80_0000;

/// 100.0
pub const BITS_100: u32 = 0x42C8_0000;

#[derive(Clone, Copy, Debug, PartialEq, Eq, Structural)]
pub struct DoaConfig {
    pub sample_rate: u32,
    pub beta: Single,
    pub cpsd_tau_ms: Single,
    pub angle_offset_deg: Single,
    pub clockwise: bool,
    pub acquire_confidence: Single,
    pub update_confidence: Single,
    pub max_coast_ms: u32,
}

/// Why a configuration is refused.
#[derive(Clone, Copy, Debug, PartialEq, Eq, Structural)]
pub enum DoaConfigError {
    SampleRate(u32),
    Beta(Single),
    CpsdTau(Single),
    AcquireConfidence(Single),
    UpdateConfidence(Single),
    UpdateAboveAcquire { update: Single, acquire: Single },
    MaxCoastZero,
    NotFinite,
}

/// The configuration used where nothing is configured.
pub open spec fn default_doa_config() -> DoaConfig {
    DoaConfig {
        sample_rate: SAMPLE_RATE,
        beta: single(BITS_0_75),
        cpsd_tau_ms: single(BITS_100),
        angle_offset_deg: single(BITS_ZERO),
        clockwise: false,
        acquire_confidence: single(BITS_0_65),
        update_confidence: single(BITS_0_40),
        max_coast_ms: 500,
    }
}

impl Default for DoaConfig {
    fn default() -> (config: Self)
        ensures
            config == default_doa_config(),
    {
        DoaConfig {
            sample_rate: SAMPLE_RATE,
            beta: single(BITS_0_75),
            cpsd_tau_ms: single(BITS_100),
            angle_offset_deg: single(BITS_ZERO),
            clockwise: false,
            acquire_confidence: single(BITS_0_65),
            update_confidence: single(BITS_0_40),
            max_coast_ms: 500,
        }
    }
}

/// Between 0 and 1.
pub open spec fn is_fraction(x: Single) -> bool {
    x.within(single(BITS_ZERO), single(BITS_1))
}

impl DoaConfig {
    /// Every parameter lies in its range, and an observation that corrects a track needs no more
    /// confidence than one that begins it.
    pub open spec fn valid(self) -> bool {
        &&& self.sample_rate == SAMPLE_RATE
        &&& is_fraction(self.beta)
        &&& self.cpsd_tau_ms.finite() && single(BITS_ZERO).below(self.cpsd_tau_ms)
        &&& is_fraction(self.acquire_confidence)
        &&& is_fraction(self.update_confidence)
        &&& self.update_confidence.at_most(self.acquire_confidence)
        &&& self.max_coast_ms > 0
        &&& self.angle_offset_deg.finite()
    }

    /// The first of the conditions that fails, in the order in which they are checked.
    pub open spec fn problem(self) -> Option<DoaConfigError> {
        if self.sample_rate != SAMPLE_RATE {
            Some(DoaConfigError::SampleRate(self.sample_rate))
        } else if !is_fraction(self.beta) {
            Some(DoaConfigError::Beta(self.beta))
        } else if !(self.cpsd_tau_ms.finite() && single(BITS_ZERO).below(self.cpsd_tau_ms)) {
            Some(DoaConfigError::CpsdTau(self.cpsd_tau_ms))
        } else if !is_fraction(self.acquire_confidence) {
            Some(DoaConfigError::AcquireConfidence(self.acquire_confidence))
        } else if !is_fraction(self.update_confidence) {
            Some(DoaConfigError::UpdateConfidence(self.update_confidence))
        } else if !self.update_confidence.at_most(self.acquire_confidence) {
            Some(
                DoaConfigError::UpdateAboveAcquire {
                    update: self.update_confidence,
                    acquire: self.acquire_confidence,
                },
            )
        } else if self.max_coast_ms == 0 {
            Some(DoaConfigError::MaxCoastZero)
        } else if !self.angle_offset_deg.finite() {
            Some(DoaConfigError::NotFinite)
        } else {
            None
        }
    }

    pub fn validate(&self) -> (result: Result<(), DoaConfigError>)
        ensures
            result is Ok <==> self.valid(),
            result matches Err(e) ==> self.problem() == Some(e),
    {
        let zero = single(BITS_ZERO);
        let one = single(BITS_1);
        if self.sample_rate != SAMPLE_RATE {
            return Err(DoaConfigError::SampleRate(self.sample_rate));
        }
        if !self.beta.between(zero, one) {
            return Err(DoaConfigError::Beta(self.beta));
        }
        if !self.cpsd_tau_ms.is_finite() || !zero.lt(self.cpsd_tau_ms) {
            return Err(DoaConfigError::CpsdTau(self.cpsd_tau_ms));
        }
        if !self.acquire_confidence.between(zero, one) {
            return Err(DoaConfigError::AcquireConfidence(self.acquire_confidence));
        }
        if !self.update_confidence.between(zero, one) {
            return Err(DoaConfigError::UpdateConfidence(self.update_confidence));
        }
        if !self.update_confidence.le(self.acquire_confidence) {
            return Err(
                DoaConfigError::UpdateAboveAcquire {
                    update: self.update_confidence,
                    acquire: self.acquire_confidence,
                },
            );
        }
        if self.max_coast_ms == 0 {
            return Err(DoaConfigError::MaxCoastZero);
        }
        if !self.angle_offset_deg.is_finite() {
            return Err(DoaConfigError::NotFinite);
        }
        Ok(())
    }
}

/// The default configuration is valid, and a valid configuration holds finite numbers only.
pub proof fn law_valid_configurations_are_finite(config: DoaConfig)
    requires
        config.valid(),
    ensures
        config.beta.finite(),
        config.cpsd_tau_ms.finite(),
        config.angle_offset_deg.finite(),
        config.acquire_confidence.finite(),
        config.update_confidence.finite(),
        default_doa_config().valid(),
{
}

proof fn lemma_zero_and_one()
    ensures
        single(BITS_ZERO).units() == 0,
        single(BITS_1).units() == pow2(149),
{
    lemma2_to64();
    lemma_pow2_adds(23, 126);
    assert(single(BITS_1).magnitude() / 0x80_0000 == 127);
    assert(single(BITS_1).magnitude() % 0x80_0000 == 0);
    assert(single(BITS_1).units() == 0x80_0000 * pow2(126));
}

/// A configuration is accepted exactly when the sample rate is 16 kHz, the weights and confidences
/// lie between zero and one, the averaging time is above zero, the confidence for a correction is
/// not above that for an acquisition, the coasting time is above zero, and all numbers are finite.
pub proof fn law_accepted_configurations(config: DoaConfig)
    ensures
        config.valid() <==> {
            &&& config.sample_rate == 16000
            &&& config.beta.finite() && 0 <= config.beta.units() <= pow2(149)
            &&& config.cpsd_tau_ms.finite() && config.cpsd_tau_ms.units() > 0
            &&& config.acquire_confidence.finite() && 0 <= config.acquire_confidence.units()
                <= pow2(149)
            &&& config.update_confidence.finite() && 0 <= config.update_confidence.units()
            &&& config.update_confidence.units() <= config.acquire_confidence.units()
            &&& config.max_coast_ms > 0
            &&& config.angle_offset_deg.finite()
        },
        config.problem() is None <==> config.valid(),
{
    lemma_zero_and_one();
    let zero = single(BITS_ZERO);
    let one = single(BITS_1);
    lemma_key_order_is_numeric(zero, config.beta);
    lemma_key_order_is_numeric(config.beta, one);
    lemma_key_order_is_numeric(zero, config.cpsd_tau_ms);
    lemma_key_order_is_numeric(zero, config.acquire_confidence);
    lemma_key_order_is_numeric(config.acquire_confidence, one);
    lemma_key_order_is_numeric(zero, config.update_confidence);
    lemma_key_order_is_numeric(config.update_confidence, one);
    lemma_key_order_is_numeric(config.update_confidence, config.acquire_confidence);
}

/// Settings are checked in this order: sample rate, weight, averaging time, the two confidences, how
/// they compare, coasting time, offset. What is named in a refusal is at fault, with its value, and
/// all that is checked before it is not.
pub proof fn law_refusals_name_the_first_fault(config: DoaConfig)
    ensures
        ({
            let rate = config.sample_rate == 16000;
            let beta = is_fraction(config.beta);
            let tau = config.cpsd_tau_ms.finite() && single(BITS_ZERO).below(config.cpsd_tau_ms);
            let acquire = is_fraction(config.acquire_confidence);
            let update = is_fraction(config.update_confidence);
            let ordered = config.update_confidence.at_most(config.acquire_confidence);
            let coast = config.max_coast_ms > 0;
            let offset = config.angle_offset_deg.finite();
            let told = config.problem();
            &&& !rate ==> told == Some(DoaConfigError::SampleRate(config.sample_rate))
            &&& rate && !beta ==> told == Some(DoaConfigError::Beta(config.beta))
            &&& rate && beta && !tau ==> told == Some(DoaConfigError::CpsdTau(config.cpsd_tau_ms))
            &&& rate && beta && tau && !acquire ==> told == Some(
                DoaConfigError::AcquireConfidence(config.acquire_confidence),
            )
            &&& rate && beta && tau && acquire && !update ==> told == Some(
                DoaConfigError::UpdateConfidence(config.update_confidence),
            )
            &&& rate && beta && tau && acquire && update && !ordered ==> told == Some(
                DoaConfigError::UpdateAboveAcquire {
                    update: config.update_confidence,
                    acquire: config.acquire_confidence,
                },
            )
            &&& rate && beta && tau && acquire && update && ordered && !coast ==> told == Some(
                DoaConfigError::MaxCoastZero,
            )
            &&& rate && beta && tau && acquire && update && ordered && coast && !offset ==> told
                == Some(DoaConfigError::NotFinite)
        }),
{
}

/// The default settings by their numbers: a weight of 0.75, an average over 100 ms, no offset,
/// confidences of 0.65 and 0.40, and half a second of coasting, at 16 kHz and counterclockwise.
pub proof fn law_default_settings()
    ensures
        reads_as(default_doa_config().beta, 75, 100),
        reads_as(default_doa_config().cpsd_tau_ms, 100, 1),
        reads_as(default_doa_config().angle_offset_deg, 0, 1),
        reads_as(default_doa_config().acquire_confidence, 65, 100),
        reads_as(default_doa_config().update_confidence, 4, 10),
        default_doa_config().sample_rate == 16000,
        default_doa_config().max_coast_ms == 500,
        !default_doa_config().clockwise,
{
    lemma2_to64();
    lemma_reads_as(single(BITS_0_40), 125, 0xCCCCCD, 0x2000000, 4, 10);
    lemma_reads_as(single(BITS_0_65), 126, 0xA66666, 0x1000000, 65, 100);
    lemma_reads_as(single(BITS_0_75), 126, 0xC00000, 0x1000000, 75, 100);
    lemma_reads_as(single(BITS_1), 127, 0x800000, 0x800000, 1, 1);
    lemma_reads_as(single(BITS_100), 133, 0xC80000, 0x20000, 100, 1);
}

/// The result of one frame. The angles named internal are those of the array; the others have
/// been turned and mirrored for display.
#[derive(Clone, Copy, Debug, PartialEq, Eq, Structural)]
pub struct DoaResult {
    /// The position of the last sample of the window in the recording.
    pub end_sample: u64,
    pub raw_internal_deg: Option<Single>,
    pub tracked_internal_deg: Option<Single>,
    pub raw_angle_deg: Option<Single>,
    pub tracked_angle_deg: Option<Single>,
    pub confidence: Single,
    pub status: TrackStatus,
    pub observation_used: bool,
    pub peak_score: Single,
    pub second_peak_score: Single,
    pub peak_gap_ratio: Single,
    pub prominence: Single,
    pub mean_msc: Single,
    pub rms_dbfs: Single,
}

/// What the tracker says of a frame.
#[derive(Clone, Copy, Debug, PartialEq, Eq, Structural)]
pub struct TrackReport {
    pub tracked_internal_deg: Option<Single>,
    pub status: TrackStatus,
    pub observation_used: bool,
}

/// The angles of a frame as they are displayed.
#[derive(Clone, Copy, Debug, PartialEq, Eq, Structural)]
pub struct DisplayedAngles {
    pub raw_angle_deg: Option<Single>,
    pub tracked_angle_deg: Option<Single>,
}

/// Puts a result together. Without an observation all measures are zero but the level.
pub fn make_result(
    end_sample: u64,
    obs: Option<Observation>,
    report: TrackReport,
    displayed: DisplayedAngles,
    rms_dbfs: Single,
) -> (result: DoaResult)
    ensures
        result.end_sample == end_sample,
        result.tracked_internal_deg == report.tracked_internal_deg,
        result.raw_angle_deg == displayed.raw_angle_deg,
        result.tracked_angle_deg == displayed.tracked_angle_deg,
        result.status == report.status,
        result.observation_used == report.observation_used,
        match obs {
            Some(o) => {
                &&& result.raw_internal_deg == Some(o.raw_internal_deg)
                &&& result.confidence == o.confidence
                &&& result.peak_score == o.peak_score
                &&& result.second_peak_score == o.second_peak_score
                &&& result.peak_gap_ratio == o.peak_gap_ratio
                &&& result.prominence == o.prominence
                &&& result.mean_msc == o.mean_msc
                &&& result.rms_dbfs == o.rms_dbfs
            },
            None => {
                let zero = single(BITS_ZERO);
                &&& result.raw_internal_deg is None
                &&& result.confidence == zero
                &&& result.peak_score == zero
                &&& result.second_peak_score == zero
                &&& result.peak_gap_ratio == zero
                &&& result.prominence == zero
                &&& result.mean_msc == zero
                &&& result.rms_dbfs == rms_dbfs
            },
        },
{
    let zero = single(BITS_ZERO);
    let metrics = match obs {
        Some(o) => o,
        None => Observation {
            raw_internal_deg: zero,
            confidence: zero,
            peak_score: zero,
            second_peak_score: zero,
            peak_gap_ratio: zero,
            prominence: zero,
            mean_msc: zero,
            rms_dbfs,
        },
    };
    DoaResult {
        end_sample,
        raw_internal_deg: match obs {
            Some(o) => Some(o.raw_internal_deg),
            None => None,
        },
        tracked_internal_deg: report.tracked_internal_deg,
        raw_angle_deg: displayed.raw_angle_deg,
        tracked_angle_deg: displayed.tracked_angle_deg,
        confidence: metrics.confidence,
        status: report.status,
        observation_used: report.observation_used,
        peak_score: metrics.peak_score,
        second_peak_score: metrics.second_peak_score,
        peak_gap_ratio: metrics.peak_gap_ratio,
        prominence: metrics.prominence,
        mean_msc: metrics.mean_msc,
        rms_dbfs: metrics.rms_dbfs,
    }
}

/// A window of samples that is due for analysis.
#[derive(Debug)]
pub struct AnalysisFrame {
    /// The window by channel, each oldest sample first.
    pub channels: Vec<Vec<i16>>,
    /// The position of the last sample of the window in the recording.
    pub end_sample: u64,
    /// Whether the window gives a result, or only fills the averages.
    pub emit: bool,
}

/// The four samples of instant `i` in an interleaved stream.
pub open spec fn instant(mics: Seq<i16>, i: int) -> Seq<i16> {
    mics.subrange(i * MIC_COUNT, (i + 1) * MIC_COUNT)
}

/// All instants of an interleaved stream.
pub open spec fn instants(mics: Seq<i16>) -> Seq<Seq<i16>> {
    Seq::new(mics.len() / MIC_COUNT as nat, |i: int| instant(mics, i))
}

/// The window that ends at position `end` of a stream of instants, channel `ch`.
pub open spec fn window_channel(stream: Seq<Seq<i16>>, end: int, ch: int) -> Seq<i16> {
    Seq::new(FRAME_SIZE as nat, |n: int| stream[end - FRAME_SIZE + n][ch])
}

/// Cuts the microphone stream into the windows of the estimator.
pub struct DoaProcessor {
    pub config: DoaConfig,
    pub framer: FrameAssembler<i16>,
    pub frame_count: u64,
    /// The stream so far.
    pub heard: Ghost<Seq<Seq<i16>>>,
}

impl DoaProcessor {
    pub open spec fn well_formed(&self) -> bool {
        &&& self.config.valid()
        &&& self.framer.well_formed()
        &&& self.framer.total_samples == self.heard@.len()
        &&& self.frame_count == windows_in(self.heard@.len() as int)
        &&& self.framer.window().len() == framer::last_window(self.heard@).len()
        &&& forall|n: int|
            0 <= n < self.framer.window().len() ==> (#[trigger] self.framer.window()[n])@
                == framer::last_window(self.heard@)[n]
        &&& forall|i: int| 0 <= i < self.heard@.len() ==> (#[trigger] self.heard@[i]).len() == MIC_COUNT
    }

    /// Refuses an invalid configuration.
    pub fn new(config: DoaConfig) -> (result: Result<Self, DoaConfigError>)
        ensures
            match result {
                Ok(p) => config.valid() && p.well_formed() && p.config == config && p.heard@
                    == Seq::<Seq<i16>>::empty(),
                Err(e) => config.problem() == Some(e),
            },
    {
        match config.validate() {
            Err(e) => Err(e),
            Ok(()) => Ok(
                DoaProcessor {
                    config,
                    framer: FrameAssembler::new(),
                    frame_count: 0,
                    heard: Ghost(Seq::empty()),
                },
            ),
        }
    }

    /// Takes in interleaved samples of the four microphones and returns the windows that they
    /// complete. A length that is no multiple of four is refused, with nothing taken in.
    pub fn push_interleaved(&mut self, mics_interleaved: &[i16]) -> (result: Result<
        Vec<AnalysisFrame>,
        String,
    >)
        requires
            old(self).well_formed(),
            old(self).heard@.len() + mics_interleaved@.len() <= u64::MAX,
        ensures
            final(self).well_formed(),
            final(self).config == old(self).config,
            match result {
                Err(message) => {
                    &&& mics_interleaved@.len() % MIC_COUNT as nat != 0
                    &&& message@ == "DOA 输入长度 "@ + decimal(mics_interleaved@.len())
                        + " 不是 4 的整数倍（mic 通道数）"@
                    &&& final(self).heard@ == old(self).heard@
                },
                Ok(frames) => {
                    let stream = old(self).heard@ + instants(mics_interleaved@);
                    &&& mics_interleaved@.len() % MIC_COUNT as nat == 0
                    &&& final(self).heard@ == stream
                    &&& frames@.len() == windows_in(stream.len() as int) - windows_in(
                        old(self).heard@.len() as int,
                    )
                    &&& forall|k: int|
                        0 <= k < frames@.len() ==> is_numbered_window(
                            #[trigger] frames@[k],
                            windows_in(old(self).heard@.len() as int) + k + 1,
                            stream,
                        )
                },
            },
    {
        if mics_interleaved.len() % MIC_COUNT != 0 {
            let mut message = "DOA 输入长度 ".to_owned();
            push_decimal(&mut message, mics_interleaved.len() as u64);
            message.append(" 不是 4 的整数倍（mic 通道数）");
            return Err(message);
        }
        let ghost before = self.heard@;
        let ghost added = instants(mics_interleaved@);
        let ghost stream = before + added;
        let ghost seen = windows_in(before.len() as int);
        let mut frames: Vec<AnalysisFrame> = Vec::new();
        let length: usize = mics_interleaved.len();
        let count: usize = length / MIC_COUNT;
        assert(before + added.take(0) =~= before);
        for i in 0..count
            invariant
                length == mics_interleaved@.len(),
                length == count * MIC_COUNT,
                count == added.len(),
                added == instants(mics_interleaved@),
                stream == before + added,
                seen == windows_in(before.len() as int),
                self.well_formed(),
                self.config == old(self).config,
                self.heard@ == before + added.take(i as int),
                before.len() + mics_interleaved@.len() <= u64::MAX,
                frames@.len() == windows_in(self.heard@.len() as int) - seen,
                forall|k: int|
                    0 <= k < frames@.len() ==> is_numbered_window(
                        #[trigger] frames@[k],
                        seen + k + 1,
                        stream,
                    ),
        {
            let at: usize = i * MIC_COUNT;
            let sample = [
                mics_interleaved[at],
                mics_interleaved[at + 1],
                mics_interleaved[at + 2],
                mics_interleaved[at + 3],
            ];
            let ghost previous = self.heard@;
            let ghost window = self.framer.window();
            proof {
                assert(sample@ =~= instant(mics_interleaved@, i as int));
                assert(added.take(i + 1) =~= added.take(i as int).push(added[i as int]));
                assert(previous.push(sample@) =~= before + added.take(i + 1));
            }
            let ready = self.framer.push(sample);
            self.heard = Ghost(self.heard@.push(sample@));
            proof {
                let after = self.heard@;
                let total = after.len() as int;
                lemma_next_window(total);
                let now = self.framer.window();
                let expected = framer::last_window(after);
                assert(now == framer::last_window(window.push(sample)));
                assert forall|n: int| 0 <= n < now.len() implies (#[trigger] now[n])@
                    == expected[n] by {
                    if n == now.len() - 1 {
                        assert(now[n] == sample);
                    } else if window.len() < FRAME_SIZE {
                        assert(now[n] == window[n]);
                    } else {
                        assert(now[n] == window[n + 1]);
                    }
                }
                assert(after =~= stream.take(total));
            }
            if ready {
                self.frame_count = self.frame_count + 1;
                let channels = self.framer.copy_frame();
                let frame = AnalysisFrame {
                    channels,
                    end_sample: self.framer.total_samples(),
                    emit: self.frame_count > WARMUP_FRAMES,
                };
                proof {
                    let end = frame.end_sample as int;
                    assert forall|ch: int| 0 <= ch < MIC_COUNT implies (#[trigger] frame.channels@[ch])@
                        == window_channel(stream, end, ch) by {
                        let row = frame.channels@[ch]@;
                        let want = window_channel(stream, end, ch);
                        assert forall|n: int| 0 <= n < FRAME_SIZE implies row[n] == want[n] by {
                            assert(row[n] == self.framer.window()[n]@[ch]);
                            assert(self.framer.window()[n]@ == framer::last_window(
                                self.heard@,
                            )[n]);
                            assert(framer::last_window(self.heard@)[n] == stream[end - FRAME_SIZE
                                + n]);
                        }
                        assert(row =~= want);
                    }
                }
                frames.push(frame);
            }
        }
        proof {
            assert(added.take(count as int) =~= added);
        }
        Ok(frames)
    }
}

/// How many windows a stream of `total` samples completes.
pub open spec fn windows_in(total: int) -> int {
    if total < FRAME_SIZE {
        0
    } else {
        (total - FRAME_SIZE) / HOP_SIZE as int + 1
    }
}

/// Where window number `n` ends, counted from one.
pub open spec fn window_end(n: int) -> int {
    FRAME_SIZE + (n - 1) * HOP_SIZE
}

/// The frame holds the window of the stream that ends at its position.
pub open spec fn is_window_of(frame: AnalysisFrame, stream: Seq<Seq<i16>>) -> bool {
    &&& FRAME_SIZE <= frame.end_sample <= stream.len()
    &&& frame.channels@.len() == MIC_COUNT
    &&& forall|ch: int|
        0 <= ch < MIC_COUNT ==> (#[trigger] frame.channels@[ch])@ == window_channel(
            stream,
            frame.end_sample as int,
            ch,
        )
}

/// The frame holds window number `number` of the stream; the first two give no result.
pub open spec fn is_numbered_window(
    frame: AnalysisFrame,
    number: int,
    stream: Seq<Seq<i16>>,
) -> bool {
    &&& frame.end_sample == window_end(number)
    &&& frame.emit == (number > WARMUP_FRAMES)
    &&& is_window_of(frame, stream)
}

proof fn lemma_next_window(total: int)
    requires
        total > 0,
    ensures
        window_ready(total) ==> windows_in(total) == windows_in(total - 1) + 1 && total
            == window_end(windows_in(total)),
        !window_ready(total) ==> windows_in(total) == windows_in(total - 1),
        windows_in(total) <= total,
{
    if total > FRAME_SIZE {
        let a = total - FRAME_SIZE;
        let h = HOP_SIZE as int;
        assert(a % h == 0 ==> a / h == (a - 1) / h + 1 && a == (a / h) * h) by (nonlinear_arith)
            requires
                a > 0,
                h == 256,
        ;
        assert(a % h != 0 ==> a / h == (a - 1) / h) by (nonlinear_arith)
            requires
                a > 0,
                h == 256,
        ;
        assert(a / h <= a) by (nonlinear_arith)
            requires
                a > 0,
                h == 256,
        ;
    }
}

/// The first result comes with the third window, at 1024 samples.
pub proof fn law_first_result_at_1024_samples(total: int)
    requires
        0 <= total,
    ensures
        windows_in(total) > WARMUP_FRAMES <==> total >= 1024,
        window_end(WARMUP_FRAMES + 1) == 1024,
{
    if total >= 1024 {
        assert((total - 512) / 256 >= 2) by (nonlinear_arith)
            requires
                total >= 1024,
        ;
    } else if total >= 512 {
        assert((total - 512) / 256 < 2) by (nonlinear_arith)
            requires
                total < 1024,
        ;
    }
}

/// Window number `n` is complete exactly from 512 samples and 256 more for each window before it.
pub proof fn law_windows_are_complete_in_time(total: int, n: int)
    requires
        total >= 0,
        n >= 1,
    ensures
        windows_in(total) >= n <==> total >= 512 + (n - 1) * 256,
        window_end(n) == 512 + (n - 1) * 256,
{
    if total >= 512 {
        let a = total - 512;
        assert(a / 256 >= n - 1 <==> a >= (n - 1) * 256) by (nonlinear_arith);
    } else {
        assert((n - 1) * 256 >= 0);
    }
}

/// A window holds the last 512 samples of each channel before its end, in the order in which they
/// came.
pub proof fn law_windows_hold_the_last_samples(
    frame: AnalysisFrame,
    number: int,
    mics: Seq<i16>,
    ch: int,
    n: int,
)
    requires
        mics.len() % 4 == 0,
        is_numbered_window(frame, number, instants(mics)),
        number >= 1,
        0 <= ch < 4,
        0 <= n < 512,
    ensures
        frame.channels@.len() == 4,
        frame.channels@[ch]@.len() == 512,
        frame.channels@[ch]@[n] == mics[4 * (256 * (number - 1) + n) + ch],
        frame.end_sample == 512 + 256 * (number - 1),
        frame.emit <==> number >= 3,
{
    let stream = instants(mics);
    let end = frame.end_sample as int;
    assert(frame.channels@[ch]@ == window_channel(stream, end, ch));
    let i = end - FRAME_SIZE + n;
    assert(stream[i] == instant(mics, i));
    assert((i + 1) * 4 <= mics.len()) by (nonlinear_arith)
        requires
            i < mics.len() / 4,
    ;
    assert(instant(mics, i)[ch] == mics[i * 4 + ch]);
}

} // verus!

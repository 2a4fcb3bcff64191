//! The dynamic range compressor: its gate, its look-ahead and the pace of its envelope.
//!
//! The gain itself is computed elsewhere, sample by sample; what is decided here is when the
//! noise gate is open, which sample the gain applies to, and when the envelope is computed anew.

pub mod config;

use vstd::prelude::*;
use vstd::string::*;

use crate::single::Single;

verus! {

/// The longest look-ahead in samples.
pub const MAX_DELAY: usize = 1024;

/// The envelope is computed anew every this many samples.
pub const CHUNK_SAMPLES: u32 = 16;

/// The noise gate: it opens at one level, and closes below another once the hold time has passed.
#[derive(Clone, Copy, Debug, PartialEq, Eq, Structural)]
pub struct Gate {
    pub enabled: bool,
    pub is_open: bool,
    pub open_threshold: Single,
    pub close_threshold: Single,
    pub hold_samples: u32,
    pub hold_counter: u32,
}

impl Gate {
    pub open spec fn well_formed(self) -> bool {
        self.hold_counter <= self.hold_samples
    }

    /// The noise gate after a sample of the given level, and whether the sample is let through.
    pub open spec fn after(self, level: Single) -> (Gate, bool) {
        if !self.enabled {
            (self, true)
        } else if self.is_open {
            if self.close_threshold.at_most(level) {
                (Gate { hold_counter: self.hold_samples, ..self }, true)
            } else if self.hold_counter > 0 {
                (Gate { hold_counter: (self.hold_counter - 1) as u32, ..self }, true)
            } else {
                (Gate { is_open: false, ..self }, false)
            }
        } else if self.open_threshold.at_most(level) {
            (Gate { is_open: true, hold_counter: self.hold_samples, ..self }, true)
        } else {
            (self, false)
        }
    }

    pub fn new(
        enabled: bool,
        open_threshold: Single,
        close_threshold: Single,
        hold_samples: u32,
    ) -> (gate: Self)
        ensures
            gate.well_formed(),
            gate == (Gate {
                enabled,
                is_open: true,
                open_threshold,
                close_threshold,
                hold_samples,
                hold_counter: hold_samples,
            }),
    {
        Gate {
            enabled,
            is_open: true,
            open_threshold,
            close_threshold,
            hold_samples,
            hold_counter: hold_samples,
        }
    }

    /// Takes in the level of a sample and says whether the noise gate lets it through.
    pub fn update(&mut self, level: Single) -> (through: bool)
        requires
            old(self).well_formed(),
        ensures
            final(self).well_formed(),
            (*final(self), through) == old(self).after(level),
            old(self).enabled && old(self).is_open && old(self).close_threshold.at_most(level)
                ==> through && final(self).is_open && final(self).hold_counter == old(
                self,
            ).hold_samples,
    {
        if !self.enabled {
            return true;
        }
        if self.is_open {
            if self.close_threshold.le(level) {
                self.hold_counter = self.hold_samples;
                true
            } else if self.hold_counter > 0 {
                self.hold_counter = self.hold_counter - 1;
                true
            } else {
                self.is_open = false;
                false
            }
        } else if self.open_threshold.le(level) {
            self.is_open = true;
            self.hold_counter = self.hold_samples;
            true
        } else {
            false
        }
    }

    /// Open, with the whole hold time ahead.
    pub fn reset(&mut self)
        ensures
            *final(self) == (Gate {
                is_open: true,
                hold_counter: old(self).hold_samples,
                ..*old(self)
            }),
    {
        self.is_open = true;
        self.hold_counter = self.hold_samples;
    }
}

/// The noise gate after `n` samples below both thresholds.
pub open spec fn after_silence(gate: Gate, level: Single, n: nat) -> Gate
    decreases n,
{
    if n == 0 {
        gate
    } else {
        after_silence(gate, level, (n - 1) as nat).after(level).0
    }
}

/// An open gate stays open through exactly the hold time of silence and then closes; a closed one
/// stays closed.
pub proof fn law_gate_closes_after_the_hold_time(gate: Gate, level: Single, n: nat)
    requires
        gate.enabled,
        gate.well_formed(),
        !gate.close_threshold.at_most(level),
        !gate.open_threshold.at_most(level),
    ensures
        after_silence(gate, level, n).is_open <==> gate.is_open && n <= gate.hold_counter,
        gate.is_open && n <= gate.hold_counter ==> after_silence(gate, level, n).hold_counter
            == gate.hold_counter - n,
        after_silence(gate, level, n).enabled,
        after_silence(gate, level, n).open_threshold == gate.open_threshold,
        after_silence(gate, level, n).close_threshold == gate.close_threshold,
        gate.is_open && n > gate.hold_counter ==> after_silence(gate, level, n).hold_counter == 0,
    decreases n,
{
    if n > 0 {
        law_gate_closes_after_the_hold_time(gate, level, (n - 1) as nat);
    }
}

/// A sample at the closing level or above keeps an open gate open and gives it the whole hold time
/// again.
pub proof fn law_sound_renews_the_hold(gate: Gate, level: Single)
    requires
        gate.well_formed(),
        gate.enabled,
        gate.is_open,
        gate.close_threshold.at_most(level),
    ensures
        gate.after(level).1,
        gate.after(level).0.is_open,
        gate.after(level).0.hold_counter == gate.hold_samples,
{
}

/// A sample below the closing level takes one sample off the hold time of an open gate; with none
/// left the noise gate closes.
pub proof fn law_quiet_uses_up_the_hold(gate: Gate, level: Single)
    requires
        gate.well_formed(),
        gate.enabled,
        gate.is_open,
        !gate.close_threshold.at_most(level),
    ensures
        gate.after(level).1 == gate.after(level).0.is_open,
        gate.after(level).0.is_open <==> gate.hold_counter > 0,
        gate.hold_counter > 0 ==> gate.after(level).0.hold_counter == gate.hold_counter - 1,
{
}

/// A closed gate opens at the opening level, with the whole hold time ahead, and stays closed below
/// it.
pub proof fn law_closed_gate_opens_at_its_level(gate: Gate, level: Single)
    requires
        gate.well_formed(),
        gate.enabled,
        !gate.is_open,
    ensures
        gate.after(level).1 == gate.open_threshold.at_most(level),
        gate.after(level).0.is_open == gate.open_threshold.at_most(level),
        gate.open_threshold.at_most(level) ==> gate.after(level).0.hold_counter
            == gate.hold_samples,
{
}

/// Without a noise gate every sample is let through, and nothing changes; with one, the settings
/// stay as they are.
pub proof fn law_gate_keeps_its_settings(gate: Gate, level: Single)
    ensures
        !gate.enabled ==> gate.after(level) == (gate, true),
        gate.after(level).0.enabled == gate.enabled,
        gate.after(level).0.open_threshold == gate.open_threshold,
        gate.after(level).0.close_threshold == gate.close_threshold,
        gate.after(level).0.hold_samples == gate.hold_samples,
{
}

/// The noise gate after sample upon sample.
pub open spec fn after_levels(gate: Gate, levels: Seq<Single>) -> Gate
    decreases levels.len(),
{
    if levels.len() == 0 {
        gate
    } else {
        after_levels(gate, levels.drop_last()).after(levels.last()).0
    }
}

proof fn lemma_hold_is_counted(gate: Gate, levels: Seq<Single>)
    requires
        gate.enabled,
        gate.is_open,
        gate.hold_counter == gate.hold_samples,
    ensures
        ({
            let now = after_levels(gate, levels);
            let used = gate.hold_samples - now.hold_counter;
            &&& now.enabled
            &&& now.hold_samples == gate.hold_samples
            &&& now.open_threshold == gate.open_threshold
            &&& now.close_threshold == gate.close_threshold
            &&& now.hold_counter <= gate.hold_samples
            &&& now.is_open ==> used <= levels.len() && forall|i: int|
                levels.len() - used <= i < levels.len() ==> !gate.close_threshold.at_most(
                    #[trigger] levels[i],
                )
        }),
    decreases levels.len(),
{
    if levels.len() > 0 {
        let earlier = levels.drop_last();
        lemma_hold_is_counted(gate, earlier);
        let before = after_levels(gate, earlier);
        let now = after_levels(gate, levels);
        let used = gate.hold_samples - now.hold_counter;
        if now.is_open {
            assert forall|i: int| levels.len() - used <= i < levels.len() implies
                !gate.close_threshold.at_most(#[trigger] levels[i]) by {
                if i < levels.len() - 1 {
                    assert(earlier[i] == levels[i]);
                }
            }
        }
    }
}

/// Over any run of samples, a gate that began open closes only at the end of more than the hold
/// time of samples next to each other that are all below the closing level.
pub proof fn law_gate_closes_only_after_quiet(gate: Gate, levels: Seq<Single>, i: int)
    requires
        gate.enabled,
        gate.is_open,
        gate.hold_counter == gate.hold_samples,
        levels.len() > 0,
        after_levels(gate, levels.drop_last()).is_open,
        !after_levels(gate, levels).is_open,
        levels.len() - gate.hold_samples - 1 <= i < levels.len(),
    ensures
        i >= 0,
        !gate.close_threshold.at_most(levels[i]),
{
    let earlier = levels.drop_last();
    lemma_hold_is_counted(gate, earlier);
    if i < levels.len() - 1 {
        assert(earlier[i] == levels[i]);
    }
}

proof fn lemma_quiet_uses_up_the_hold(gate: Gate, levels: Seq<Single>, quiet: nat)
    requires
        gate.enabled,
        gate.is_open,
        gate.hold_counter == gate.hold_samples,
        quiet <= levels.len(),
        forall|i: int|
            levels.len() - quiet <= i < levels.len() ==> !gate.close_threshold.at_most(
                #[trigger] levels[i],
            ) && !gate.open_threshold.at_most(levels[i]),
    ensures
        after_levels(gate, levels).is_open ==> after_levels(gate, levels).hold_counter + quiet
            <= gate.hold_samples,
    decreases levels.len(),
{
    lemma_hold_is_counted(gate, levels);
    if quiet > 0 {
        let earlier = levels.drop_last();
        assert forall|i: int| earlier.len() - (quiet - 1) <= i < earlier.len() implies
            !gate.close_threshold.at_most(#[trigger] earlier[i]) && !gate.open_threshold.at_most(
            earlier[i],
        ) by {
            assert(earlier[i] == levels[i]);
        }
        lemma_quiet_uses_up_the_hold(gate, earlier, (quiet - 1) as nat);
        lemma_hold_is_counted(gate, earlier);
    }
}

/// More than the hold time of samples next to each other below both levels always leaves a gate
/// that began open closed.
pub proof fn law_long_quiet_closes_the_gate(gate: Gate, levels: Seq<Single>)
    requires
        gate.enabled,
        gate.is_open,
        gate.hold_counter == gate.hold_samples,
        levels.len() > gate.hold_samples,
        forall|i: int|
            levels.len() - gate.hold_samples - 1 <= i < levels.len()
                ==> !gate.close_threshold.at_most(#[trigger] levels[i])
                && !gate.open_threshold.at_most(levels[i]),
    ensures
        !after_levels(gate, levels).is_open,
{
    lemma_quiet_uses_up_the_hold(gate, levels, (gate.hold_samples + 1) as nat);
}

/// A delay of a fixed number of samples.
pub struct DelayLine<T> {
    pub ring: Vec<T>,
    pub write_pos: usize,
    pub zero: T,
}

/// `n` times the same value.
pub open spec fn repeated<T>(value: T, n: nat) -> Seq<T> {
    Seq::new(n, |i: int| value)
}

impl<T: Copy> DelayLine<T> {
    pub open spec fn well_formed(&self) -> bool {
        &&& self.ring@.len() <= MAX_DELAY
        &&& self.ring@.len() > 0 ==> self.write_pos < self.ring@.len()
        &&& self.ring@.len() == 0 ==> self.write_pos == 0
    }

    /// The samples under way, the next one out first.
    pub open spec fn line(&self) -> Seq<T> {
        self.ring@.subrange(self.write_pos as int, self.ring@.len() as int) + self.ring@.subrange(
            0,
            self.write_pos as int,
        )
    }

    /// A line of the given length, or of the greatest one, filled with zeros.
    pub fn new(samples: usize, zero: T) -> (delay: Self)
        ensures
            delay.well_formed(),
            delay.zero == zero,
            delay.line() == repeated(
                zero,
                if samples <= MAX_DELAY {
                    samples as nat
                } else {
                    MAX_DELAY as nat
                },
            ),
    {
        let length: usize = if samples <= MAX_DELAY {
            samples
        } else {
            MAX_DELAY
        };
        let mut ring: Vec<T> = Vec::new();
        while ring.len() < length
            invariant
                ring@.len() <= length,
                ring@ == repeated(zero, ring@.len()),
            decreases length - ring.len(),
        {
            ring.push(zero);
            assert(ring@ =~= repeated(zero, ring@.len()));
        }
        let delay = DelayLine { ring, write_pos: 0, zero };
        assert(delay.line() =~= repeated(zero, length as nat));
        delay
    }

    pub fn latency_samples(&self) -> (n: usize)
        requires
            self.well_formed(),
        ensures
            n == self.line().len(),
    {
        self.ring.len()
    }

    /// Puts a sample in at one end and takes one out at the other.
    pub fn push(&mut self, sample: T) -> (out: T)
        requires
            old(self).well_formed(),
        ensures
            final(self).well_formed(),
            final(self).zero == old(self).zero,
            final(self).line().len() == old(self).line().len(),
            out == (old(self).line().push(sample))[0],
            final(self).line() == old(self).line().push(sample).drop_first(),
    {
        let ghost before = self.line();
        if self.ring.len() == 0 {
            assert(self.line() =~= before.push(sample).drop_first());
            return sample;
        }
        let out = self.ring[self.write_pos];
        self.ring.set(self.write_pos, sample);
        self.write_pos = self.write_pos + 1;
        if self.write_pos >= self.ring.len() {
            self.write_pos = 0;
        }
        assert(self.line() =~= before.push(sample).drop_first());
        out
    }

    /// Sends a run of samples through the line.
    pub fn push_all(&mut self, samples: &[T]) -> (out: Vec<T>)
        requires
            old(self).well_formed(),
        ensures
            final(self).well_formed(),
            final(self).zero == old(self).zero,
            out@ == delayed(old(self).line(), samples@),
            final(self).line() == under_way(old(self).line(), samples@),
    {
        let ghost start = self.line();
        let mut out: Vec<T> = Vec::new();
        assert(start + samples@.take(0) =~= start);
        assert(under_way(start, samples@.take(0)) =~= start);
        for i in 0..samples.len()
            invariant
                self.well_formed(),
                self.zero == old(self).zero,
                self.line().len() == start.len(),
                out@ == delayed(start, samples@.take(i as int)),
                self.line() == under_way(start, samples@.take(i as int)),
        {
            let ghost so_far = samples@.take(i as int);
            let y = self.push(samples[i]);
            out.push(y);
            proof {
                let more = samples@.take(i + 1);
                assert(more =~= so_far.push(samples@[i as int]));
                assert((start + so_far).push(samples@[i as int]) =~= start + more);
                assert(out@ =~= delayed(start, more));
                assert(self.line() =~= under_way(start, more));
            }
        }
        assert(samples@.take(samples@.len() as int) =~= samples@);
        out
    }

    /// Empties the line.
    pub fn reset(&mut self)
        requires
            old(self).well_formed(),
        ensures
            final(self).well_formed(),
            final(self).zero == old(self).zero,
            final(self).line() == repeated(old(self).zero, old(self).line().len()),
    {
        let ghost length = self.line().len();
        let count: usize = self.ring.len();
        for i in 0..count
            invariant
                count == length,
                self.well_formed(),
                self.zero == old(self).zero,
                self.ring@.len() == length,
                forall|k: int| 0 <= k < i ==> self.ring@[k] == self.zero,
        {
            self.ring.set(i, self.zero);
        }
        self.write_pos = 0;
        assert(self.line() =~= repeated(self.zero, length));
    }
}

/// What comes out of a line while the samples go in.
pub open spec fn delayed<T>(line: Seq<T>, samples: Seq<T>) -> Seq<T> {
    (line + samples).take(samples.len() as int)
}

/// What is in the line afterwards.
pub open spec fn under_way<T>(line: Seq<T>, samples: Seq<T>) -> Seq<T> {
    (line + samples).skip(samples.len() as int)
}

/// The output does not depend on how the input is cut into blocks.
pub proof fn law_blocks_do_not_matter<T>(line: Seq<T>, first: Seq<T>, second: Seq<T>)
    ensures
        delayed(line, first) + delayed(under_way(line, first), second) == delayed(
            line,
            first + second,
        ),
        under_way(under_way(line, first), second) == under_way(line, first + second),
{
    assert(delayed(line, first) + delayed(under_way(line, first), second) =~= delayed(
        line,
        first + second,
    ));
    assert(under_way(under_way(line, first), second) =~= under_way(line, first + second));
}

/// As many zeros as the line is long bring out everything that is under way, and leave only zeros
/// behind.
pub proof fn law_flush_brings_out_the_tail<T>(line: Seq<T>, zero: T)
    ensures
        delayed(line, repeated(zero, line.len())) == line,
        under_way(line, repeated(zero, line.len())) == repeated(zero, line.len()),
{
    assert(delayed(line, repeated(zero, line.len())) =~= line);
    assert(under_way(line, repeated(zero, line.len())) =~= repeated(zero, line.len()));
}

/// From a line of zeros, the output is the input, later by the length of the line.
pub proof fn law_output_is_the_input_delayed<T>(zero: T, latency: nat, samples: Seq<T>, i: int)
    requires
        0 <= i < samples.len(),
    ensures
        delayed(repeated(zero, latency), samples)[i] == (if i < latency {
            zero
        } else {
            samples[i - latency]
        }),
{
}

/// Counts the samples until the envelope is computed anew.
pub struct ChunkClock {
    pub remaining: u32,
}

impl ChunkClock {
    pub fn new() -> (clock: Self)
        ensures
            clock.remaining == 0,
    {
        ChunkClock { remaining: 0 }
    }

    /// Takes in one sample and says whether the envelope is computed before it.
    pub fn tick(&mut self) -> (refresh: bool)
        requires
            old(self).remaining < CHUNK_SAMPLES,
        ensures
            refresh == (old(self).remaining == 0),
            final(self).remaining < CHUNK_SAMPLES,
            final(self).remaining == (if refresh {
                CHUNK_SAMPLES - 1
            } else {
                old(self).remaining - 1
            }),
            ticked(old(self).remaining as int, refresh, final(self).remaining as int),
    {
        let refresh = self.remaining == 0;
        if refresh {
            self.remaining = CHUNK_SAMPLES;
        }
        self.remaining = self.remaining - 1;
        refresh
    }
}

/// The clock after `n` samples.
pub open spec fn remaining_after(n: int) -> int {
    (CHUNK_SAMPLES - n % CHUNK_SAMPLES as int) % CHUNK_SAMPLES as int
}

/// From the start, the envelope is computed at every sixteenth sample: one tick leads from the
/// clock after `n` samples to that after `n + 1`.
pub proof fn law_envelope_every_sixteen_samples(n: int)
    requires
        n >= 0,
    ensures
        remaining_after(0) == 0,
        remaining_after(n) == 0 <==> n % CHUNK_SAMPLES as int == 0,
        remaining_after(n + 1) == (if remaining_after(n) == 0 {
            CHUNK_SAMPLES - 1
        } else {
            remaining_after(n) - 1
        }),
{
}

/// What a tick does to the clock: whether the envelope is computed, and what is left behind it.
pub open spec fn ticked(remaining: int, refresh: bool, left: int) -> bool {
    &&& refresh <==> remaining == 0
    &&& left == (remaining + 15) % 16
}

/// From the start, tick upon tick, the envelope is computed at the first sample and then at every
/// sixteenth.
pub proof fn law_every_sixteenth_tick_refreshes(refreshes: Seq<bool>, left: Seq<int>, n: int)
    requires
        left.len() == refreshes.len() + 1,
        left[0] == 0,
        forall|i: int|
            0 <= i < refreshes.len() ==> ticked(left[i], #[trigger] refreshes[i], left[i + 1]),
        0 <= n < refreshes.len(),
    ensures
        refreshes[n] <==> n % 16 == 0,
        left[n + 1] == (15 - n % 16),
    decreases n,
{
    assert(ticked(left[n], refreshes[n], left[n + 1]));
    if n > 0 {
        law_every_sixteenth_tick_refreshes(refreshes, left, n - 1);
    }
}

/// What stands between the samples and the gain: gate, look-ahead and envelope clock.
pub struct TssDrc<T> {
    pub gate: Gate,
    pub delay: DelayLine<T>,
    pub clock: ChunkClock,
}

impl<T: Copy> TssDrc<T> {
    pub open spec fn well_formed(&self) -> bool {
        &&& self.gate.well_formed()
        &&& self.delay.well_formed()
        &&& self.clock.remaining < CHUNK_SAMPLES
    }

    /// As after construction.
    pub open spec fn is_reset(&self) -> bool {
        &&& self.gate.is_open
        &&& self.gate.hold_counter == self.gate.hold_samples
        &&& self.delay.line() == repeated(self.delay.zero, self.delay.line().len())
        &&& self.clock.remaining == 0
    }

    /// A compressor for a sample rate above zero. The noise gate holds for the given time and for
    /// the look-ahead on top of it.
    pub fn pipeline(
        sample_rate: u32,
        zero: T,
        look_ahead: usize,
        gate: Gate,
        user_hold_samples: u32,
    ) -> (result: Result<Self, String>)
        requires
            user_hold_samples + MAX_DELAY <= u32::MAX,
        ensures
            match result {
                Ok(drc) => {
                    &&& sample_rate > 0
                    &&& drc.well_formed()
                    &&& drc.is_reset()
                    &&& drc.delay.zero == zero
                    &&& drc.delay.line().len() == (if look_ahead <= MAX_DELAY {
                        look_ahead as int
                    } else {
                        MAX_DELAY as int
                    })
                    &&& drc.gate.enabled == gate.enabled
                    &&& drc.gate.open_threshold == gate.open_threshold
                    &&& drc.gate.close_threshold == gate.close_threshold
                    &&& drc.gate.hold_samples == (if gate.enabled {
                        user_hold_samples + drc.delay.line().len()
                    } else {
                        0
                    })
                },
                Err(message) => sample_rate == 0 && message@ == "sample_rate must be positive"@,
            },
    {
        if sample_rate == 0 {
            return Err("sample_rate must be positive".to_owned());
        }
        let delay = DelayLine::new(look_ahead, zero);
        let hold: u32 = if gate.enabled {
            user_hold_samples + delay.latency_samples() as u32
        } else {
            0
        };
        let gate = Gate::new(gate.enabled, gate.open_threshold, gate.close_threshold, hold);
        Ok(TssDrc { gate, delay, clock: ChunkClock::new() })
    }

    pub fn latency_samples(&self) -> (n: usize)
        requires
            self.well_formed(),
        ensures
            n == self.delay.line().len(),
    {
        self.delay.latency_samples()
    }

    pub fn reset(&mut self)
        requires
            old(self).well_formed(),
        ensures
            final(self).well_formed(),
            final(self).is_reset(),
            final(self).gate.enabled == old(self).gate.enabled,
            final(self).gate.open_threshold == old(self).gate.open_threshold,
            final(self).gate.close_threshold == old(self).gate.close_threshold,
            final(self).gate.hold_samples == old(self).gate.hold_samples,
            final(self).delay.zero == old(self).delay.zero,
            final(self).delay.line().len() == old(self).delay.line().len(),
    {
        self.gate.reset();
        self.delay.reset();
        self.clock = ChunkClock::new();
    }
}

/// A compressor that was reset is as a new one: the noise gate is open with the whole hold time
/// ahead, nothing but zeros is under way, and the envelope is computed at the next sample.
pub proof fn law_reset_leaves_nothing_behind<T: Copy>(drc: TssDrc<T>, i: int)
    requires
        drc.is_reset(),
        0 <= i < drc.delay.line().len(),
    ensures
        drc.gate.is_open,
        drc.gate.hold_counter == drc.gate.hold_samples,
        drc.delay.line()[i] == drc.delay.zero,
        drc.clock.remaining == 0,
{
}

} // verus!

//! The block structure of the beamformer: hops in, hops out, one hop of delay, and a flush that
//! brings the output to the length of the input.

use vstd::prelude::*;
use vstd::string::*;

use crate::doa::{HOP_SIZE, MIC_COUNT};

verus! {

/// How much output `hops` processed hops give: that of the first one belongs to the zeros before
/// the recording and is dropped.
pub open spec fn output_after(hops: int) -> int {
    if hops <= 0 {
        0
    } else {
        (hops - 1) * HOP_SIZE
    }
}

/// One hop by channel.
pub open spec fn is_hop<T>(hop: Seq<Vec<T>>) -> bool {
    hop.len() == MIC_COUNT && forall|ch: int|
        0 <= ch < MIC_COUNT ==> (#[trigger] hop[ch])@.len() == HOP_SIZE
}

/// A hop to process at the end, and which part of its output is kept.
#[derive(Debug)]
pub struct FlushHop<T> {
    pub channels: Vec<Vec<T>>,
    pub skip: usize,
    pub keep: usize,
}

/// Collects four-channel frames into hops and keeps account of the output.
pub struct BeamformerStft<T> {
    pub zero: T,
    pub hop: Vec<[T; MIC_COUNT]>,
    pub input_frames: u64,
    /// Hops handed out for processing.
    pub hops_out: u64,
    /// Hops whose output has been taken back.
    pub stft_frames: u64,
    pub output_frames: u64,
    pub finalized: bool,
}

impl<T: Copy> BeamformerStft<T> {
    pub open spec fn well_formed(&self) -> bool {
        &&& self.hop@.len() < HOP_SIZE
        &&& self.stft_frames <= self.hops_out
        &&& !self.finalized ==> self.input_frames == self.hops_out * HOP_SIZE + self.hop@.len()
        &&& !self.finalized ==> self.output_frames == output_after(self.stft_frames as int)
        &&& self.finalized ==> self.output_frames == self.input_frames
    }

    pub fn new(zero: T) -> (stft: Self)
        ensures
            stft.well_formed(),
            !stft.finalized,
            stft.zero == zero,
            stft.input_frames == 0,
            stft.hops_out == 0,
            stft.hop@.len() == 0,
    {
        BeamformerStft {
            zero,
            hop: Vec::new(),
            input_frames: 0,
            hops_out: 0,
            stft_frames: 0,
            output_frames: 0,
            finalized: false,
        }
    }

    pub fn stft_frames(&self) -> (n: u64)
        ensures
            n == self.stft_frames,
    {
        self.stft_frames
    }

    /// Takes in one frame and returns the hop that it completes, by channel.
    pub fn push_frame(&mut self, frame: [T; MIC_COUNT]) -> (result: Result<
        Option<Vec<Vec<T>>>,
        String,
    >)
        requires
            old(self).well_formed(),
            old(self).finalized || old(self).input_frames < u64::MAX,
        ensures
            final(self).well_formed(),
            final(self).zero == old(self).zero,
            final(self).finalized == old(self).finalized,
            final(self).stft_frames == old(self).stft_frames,
            final(self).output_frames == old(self).output_frames,
            match result {
                Err(message) => {
                    &&& old(self).finalized
                    &&& message@ == "BeamformerStft 已 finalize"@
                    &&& final(self).input_frames == old(self).input_frames
                    &&& final(self).hop@ == old(self).hop@
                    &&& final(self).hops_out == old(self).hops_out
                },
                Ok(None) => {
                    &&& !old(self).finalized
                    &&& old(self).hop@.len() + 1 < HOP_SIZE
                    &&& final(self).input_frames == old(self).input_frames + 1
                    &&& final(self).hop@ == old(self).hop@.push(frame)
                    &&& final(self).hops_out == old(self).hops_out
                },
                Ok(Some(hop)) => {
                    &&& !old(self).finalized
                    &&& old(self).hop@.len() + 1 == HOP_SIZE
                    &&& final(self).input_frames == old(self).input_frames + 1
                    &&& final(self).hop@.len() == 0
                    &&& final(self).hops_out == old(self).hops_out + 1
                    &&& is_hop(hop@)
                    &&& by_channel(hop@, old(self).hop@.push(frame))
                },
            },
    {
        if self.finalized {
            return Err("BeamformerStft 已 finalize".to_owned());
        }
        self.hop.push(frame);
        self.input_frames = self.input_frames + 1;
        if self.hop.len() == HOP_SIZE {
            let channels = split_channels(self.hop.as_slice());
            self.hop.clear();
            self.hops_out = self.hops_out + 1;
            Ok(Some(channels))
        } else {
            Ok(None)
        }
    }

    /// Takes back the output that was computed for the oldest hop handed out, and returns what
    /// belongs to the recording: nothing for the first hop, all of it for every other.
    pub fn release<U: Copy>(&mut self, computed: &[U]) -> (out: Vec<U>)
        requires
            old(self).well_formed(),
            !old(self).finalized,
            old(self).stft_frames < old(self).hops_out,
            computed@.len() == HOP_SIZE,
        ensures
            final(self).well_formed(),
            !final(self).finalized,
            final(self).zero == old(self).zero,
            final(self).hop@ == old(self).hop@,
            final(self).hops_out == old(self).hops_out,
            final(self).input_frames == old(self).input_frames,
            final(self).stft_frames == old(self).stft_frames + 1,
            out@ == (if old(self).stft_frames == 0 {
                Seq::<U>::empty()
            } else {
                computed@
            }),
            final(self).output_frames == old(self).output_frames + out@.len(),
    {
        let mut out: Vec<U> = Vec::new();
        if self.stft_frames > 0 {
            for i in 0..HOP_SIZE
                invariant
                    computed@.len() == HOP_SIZE,
                    out@ == computed@.take(i as int),
            {
                out.push(computed[i]);
                assert(out@ =~= computed@.take(i + 1));
            }
            assert(computed@.take(HOP_SIZE as int) =~= computed@);
        }
        proof {
            lemma_output_grows(self.stft_frames as int);
            lemma_output_within_input(
                self.hops_out as int,
                self.stft_frames as int + 1,
                self.input_frames as int,
            );
        }
        self.stft_frames = self.stft_frames + 1;
        self.output_frames = self.output_frames + out.len() as u64;
        out
    }

    /// Ends the stream: the hops that are left to process, with the part of the output of each
    /// that is kept. What is kept brings the output to the length of the input. A second call has
    /// nothing left to do and changes nothing.
    pub fn flush_zeros(&mut self) -> (plan: Vec<FlushHop<T>>)
        requires
            old(self).well_formed(),
            old(self).finalized || old(self).stft_frames == old(self).hops_out,
        ensures
            final(self).well_formed(),
            old(self).finalized ==> *final(self) == *old(self),
            final(self).finalized,
            final(self).zero == old(self).zero,
            final(self).input_frames == old(self).input_frames,
            final(self).output_frames == old(self).input_frames,
            plan@.len() == (if old(self).finalized {
                0
            } else {
                flush_hops(old(self).input_frames as int, old(self).hop@.len() as int)
            }),
            kept(plan@) == old(self).input_frames - old(self).output_frames,
            final(self).stft_frames == old(self).stft_frames + plan@.len(),
            forall|k: int|
                0 <= k < plan@.len() ==> {
                    &&& is_hop((#[trigger] plan@[k]).channels@)
                    &&& plan@[k].skip == (if old(self).stft_frames + k == 0 {
                        HOP_SIZE as int
                    } else {
                        0
                    })
                    &&& plan@[k].keep == part_kept(
                        plan@[k].skip as int,
                        old(self).input_frames - old(self).output_frames - kept(plan@.take(k)),
                    )
                },
            forall|k: int|
                0 <= k < plan@.len() ==> by_channel(
                    (#[trigger] plan@[k]).channels@,
                    padded(
                        if k == 0 {
                            old(self).hop@
                        } else {
                            Seq::<[T; MIC_COUNT]>::empty()
                        },
                        old(self).zero,
                    ),
                ),
    {
        let mut plan: Vec<FlushHop<T>> = Vec::new();
        if self.finalized {
            return plan;
        }
        let ghost target = self.input_frames as int;
        let ghost hops = self.hops_out as int;
        let silence = [self.zero, self.zero, self.zero, self.zero];
        let partial: u64 = self.hop.len() as u64;
        let mut left: u64 = self.input_frames - self.output_frames;
        proof {
            lemma_left_over(hops, target, partial as int);
            if partial == 0 {
                assert(self.hop@ =~= Seq::<[T; MIC_COUNT]>::empty());
            }
        }
        if partial > 0 {
            let mut frames: Vec<[T; MIC_COUNT]> = Vec::new();
            std::mem::swap(&mut frames, &mut self.hop);
            let ghost held = frames@;
            while frames.len() < HOP_SIZE
                invariant
                    held.len() <= frames@.len() <= HOP_SIZE,
                    silence@ == seq![self.zero, self.zero, self.zero, self.zero],
                    frames@ == padded(held, self.zero).take(frames@.len() as int),
                decreases HOP_SIZE - frames.len(),
            {
                let ghost so_far = frames@;
                frames.push(silence);
                assert(silence =~= padded(held, self.zero)[so_far.len() as int]);
                assert(frames@ =~= padded(held, self.zero).take(frames@.len() as int));
            }
            assert(frames@ =~= padded(held, self.zero));
            let channels = split_channels(frames.as_slice());
            let skip: usize = if self.stft_frames == 0 {
                HOP_SIZE
            } else {
                0
            };
            let keep: usize = if (HOP_SIZE - skip) as u64 <= left {
                HOP_SIZE - skip
            } else {
                left as usize
            };
            left = left - keep as u64;
            self.stft_frames = self.stft_frames + 1;
            plan.push(FlushHop { channels, skip, keep });
        }
        if left > 0 {
            let mut frames: Vec<[T; MIC_COUNT]> = Vec::new();
            while frames.len() < HOP_SIZE
                invariant
                    frames@.len() <= HOP_SIZE,
                    silence@ == seq![self.zero, self.zero, self.zero, self.zero],
                    frames@ == padded(Seq::<[T; MIC_COUNT]>::empty(), self.zero).take(
                        frames@.len() as int,
                    ),
                decreases HOP_SIZE - frames.len(),
            {
                let ghost so_far = frames@;
                frames.push(silence);
                assert(silence =~= padded(Seq::<[T; MIC_COUNT]>::empty(), self.zero)[so_far.len() as int]);
                assert(frames@ =~= padded(Seq::<[T; MIC_COUNT]>::empty(), self.zero).take(
                    frames@.len() as int,
                ));
            }
            assert(frames@ =~= padded(Seq::<[T; MIC_COUNT]>::empty(), self.zero));
            let channels = split_channels(frames.as_slice());
            self.stft_frames = self.stft_frames + 1;
            plan.push(FlushHop { channels, skip: 0, keep: left as usize });
        }
        self.hops_out = self.stft_frames;
        self.output_frames = self.input_frames;
        self.finalized = true;
        proof {
            reveal_with_fuel(kept, 3);
            assert(plan@.take(0) =~= Seq::<FlushHop<T>>::empty());
            if plan@.len() == 2 {
                assert(plan@.take(1) =~= plan@.drop_last());
            }
        }
        plan
    }
}

/// How many hops are left to process at the end: the one that was begun, and one more that brings
/// out what is still overlapping.
pub open spec fn flush_hops(input_frames: int, begun: int) -> nat {
    if input_frames == 0 {
        0
    } else if begun == 0 {
        1
    } else {
        2
    }
}

/// How much of the output of a hop is kept, where `left` samples are still missing: what is not
/// skipped, but no more than is missing.
pub open spec fn part_kept(skip: int, left: int) -> int {
    if HOP_SIZE - skip <= left {
        HOP_SIZE - skip
    } else {
        left
    }
}

/// How many samples a plan keeps in all.
pub open spec fn kept<T>(plan: Seq<FlushHop<T>>) -> int
    decreases plan.len(),
{
    if plan.len() == 0 {
        0
    } else {
        kept(plan.drop_last()) + plan.last().keep
    }
}

/// A part of a plan keeps no more than the whole of it.
pub proof fn lemma_kept_prefix<T>(plan: Seq<FlushHop<T>>, n: int)
    requires
        0 <= n <= plan.len(),
    ensures
        0 <= kept(plan.take(n)) <= kept(plan),
    decreases plan.len(),
{
    if plan.len() == 0 {
        assert(plan.take(n) =~= plan);
    } else if n == plan.len() {
        assert(plan.take(n) =~= plan);
        lemma_kept_prefix(plan.drop_last(), n - 1);
        assert(plan.drop_last().take(n - 1) =~= plan.drop_last());
    } else {
        lemma_kept_prefix(plan.drop_last(), n);
        assert(plan.drop_last().take(n) =~= plan.take(n));
    }
}

/// A hop that begins with the given frames and goes on with silence.
pub open spec fn padded<T>(frames: Seq<[T; MIC_COUNT]>, zero: T) -> Seq<[T; MIC_COUNT]> {
    Seq::new(
        HOP_SIZE as nat,
        |n: int|
            if n < frames.len() {
                frames[n]
            } else {
                [zero, zero, zero, zero]
            },
    )
}

/// The hop holds the given frames, channel by channel.
pub open spec fn by_channel<T>(hop: Seq<Vec<T>>, frames: Seq<[T; MIC_COUNT]>) -> bool {
    hop.len() == MIC_COUNT && forall|ch: int|
        0 <= ch < MIC_COUNT ==> (#[trigger] hop[ch])@ == Seq::new(
            frames.len(),
            |n: int| frames[n]@[ch],
        )
}

fn split_channels<T: Copy>(frames: &[[T; MIC_COUNT]]) -> (hop: Vec<Vec<T>>)
    requires
        frames@.len() == HOP_SIZE,
    ensures
        is_hop(hop@),
        by_channel(hop@, frames@),
{
    let mut hop: Vec<Vec<T>> = Vec::new();
    for ch in 0..MIC_COUNT
        invariant
            frames@.len() == HOP_SIZE,
            hop@.len() == ch,
            forall|c: int|
                0 <= c < ch ==> (#[trigger] hop@[c])@ == Seq::new(
                    frames@.len(),
                    |n: int| frames@[n]@[c],
                ),
    {
        let mut row: Vec<T> = Vec::new();
        for n in 0..HOP_SIZE
            invariant
                frames@.len() == HOP_SIZE,
                ch < MIC_COUNT,
                row@.len() == n,
                forall|k: int| 0 <= k < n ==> #[trigger] row@[k] == frames@[k]@[ch as int],
        {
            row.push(frames[n][ch]);
        }
        assert(row@ =~= Seq::new(frames@.len(), |n: int| frames@[n]@[ch as int]));
        hop.push(row);
    }
    hop
}

proof fn lemma_output_grows(hops: int)
    requires
        hops >= 0,
    ensures
        output_after(hops + 1) == output_after(hops) + (if hops == 0 {
            0
        } else {
            HOP_SIZE as int
        }),
{
    assert(hops * 256 == (hops - 1) * 256 + 256) by (nonlinear_arith);
}

pub proof fn lemma_output_within_input(hops_out: int, released: int, input: int)
    requires
        0 <= released <= hops_out,
        hops_out * HOP_SIZE <= input,
    ensures
        output_after(released) <= input,
{
    assert(released >= 1 ==> (released - 1) * 256 <= hops_out * 256) by (nonlinear_arith)
        requires
            released <= hops_out,
    ;
}

proof fn lemma_left_over(hops: int, input: int, partial: int)
    requires
        hops >= 0,
        0 <= partial < HOP_SIZE,
        input == hops * HOP_SIZE + partial,
    ensures
        output_after(hops) <= input,
        input - output_after(hops) == (if hops == 0 {
            partial
        } else {
            partial + HOP_SIZE
        }),
{
    assert((hops - 1) * 256 + 256 == hops * 256) by (nonlinear_arith);
}

/// Streaming output stays one hop behind the input, and the flush makes up for exactly that.
pub proof fn law_output_catches_up(hops: int, partial: int)
    requires
        hops >= 0,
        0 <= partial < HOP_SIZE,
    ensures
        hops > 0 ==> hops * HOP_SIZE + partial - output_after(hops) == HOP_SIZE + partial,
        hops == 0 ==> hops * HOP_SIZE + partial - output_after(hops) == partial,
{
    lemma_left_over(hops, hops * HOP_SIZE + partial, partial);
}

/// Where frames of a recording are still missing at the end, the flush processes exactly as many
/// hops as it takes until the output reaches the length of the input.
pub proof fn law_flush_is_as_long_as_needed(hops: int, begun: int)
    requires
        hops >= 0,
        0 <= begun < 256,
    ensures
        ({
            let input = hops * 256 + begun;
            let more = flush_hops(input, begun);
            &&& input == 0 ==> more == 0
            &&& input > 0 ==> (hops + more - 2) * 256 < input <= (hops + more - 1) * 256
        }),
{
    if hops * 256 + begun > 0 {
        let more = flush_hops(hops * 256 + begun, begun);
        assert((hops + more - 1) * 256 == hops * 256 + more * 256 - 256) by (nonlinear_arith);
        assert((hops + more - 2) * 256 == hops * 256 + more * 256 - 512) by (nonlinear_arith);
    }
}

/// Of a hop of 256 samples the part behind the skipped one is kept, up to what is missing.
pub proof fn law_kept_part_is_what_is_missing(skip: int, left: int)
    requires
        0 <= skip <= 256,
        0 <= left,
    ensures
        0 <= part_kept(skip, left) <= left,
        skip + part_kept(skip, left) <= 256,
        part_kept(skip, left) == left || skip + part_kept(skip, left) == 256,
{
}

/// A hop by channel holds sample `n` of each channel at place `n`; the last hop goes on with
/// silence behind the frames that are left.
pub proof fn law_hops_hold_their_frames<T>(
    hop: Seq<Vec<T>>,
    frames: Seq<[T; MIC_COUNT]>,
    zero: T,
    ch: int,
    n: int,
)
    requires
        frames.len() <= 256,
        0 <= ch < 4,
        0 <= n < 256,
    ensures
        by_channel(hop, padded(frames, zero)) ==> hop[ch]@.len() == 256 && hop[ch]@[n] == (
        if n < frames.len() {
            frames[n]@[ch]
        } else {
            zero
        }),
        by_channel(hop, frames) && n < frames.len() ==> hop[ch]@[n] == frames[n]@[ch],
{
    assert([zero, zero, zero, zero]@[ch] == zero);
}

} // verus!

//! The algorithm worker: capture blocks in, hops of 256 frames out, and the accounting around it.

use vstd::prelude::*;
use vstd::string::*;

use crate::audio::{
    length_mismatch_message, CaptureBlock, RESPEAKER_CHANNELS, RESPEAKER_MIC_CHANNELS,
};
use crate::beamformer::BeamformerStats;
use crate::doa::HOP_SIZE;
use crate::text::{begins_with, decimal, ends_with, push_decimal};

verus! {

/// One run of frames handed to the processing modules: all of `frames` long, except that the last
/// run of a recording may be shorter than a full hop.
#[derive(Debug)]
pub struct PipelineHop {
    pub start_frame: u64,
    pub frames: usize,
    pub algo: Vec<i16>,
    pub mic: Vec<i16>,
    pub reference: Vec<i16>,
}

/// The six channel values of frame `i`, put together from the three split channel groups.
pub open spec fn joined_frame(
    algo: Seq<i16>,
    mic: Seq<i16>,
    reference: Seq<i16>,
    i: int,
) -> Seq<i16> {
    seq![algo[i], mic[4 * i], mic[4 * i + 1], mic[4 * i + 2], mic[4 * i + 3], reference[i]]
}

/// All frames that the three split channel groups hold.
pub open spec fn joined_frames(
    algo: Seq<i16>,
    mic: Seq<i16>,
    reference: Seq<i16>,
) -> Seq<Seq<i16>> {
    Seq::new(algo.len(), |i: int| joined_frame(algo, mic, reference, i))
}

/// The frames of a block of interleaved six-channel samples.
pub open spec fn block_frames(block: CaptureBlock) -> Seq<Seq<i16>> {
    Seq::new(
        block.frames as nat,
        |i: int|
            seq![
                block.at(i, 0),
                block.at(i, 1),
                block.at(i, 2),
                block.at(i, 3),
                block.at(i, 4),
                block.at(i, 5),
            ],
    )
}

impl PipelineHop {
    pub open spec fn well_formed(&self) -> bool {
        &&& self.algo@.len() == self.frames
        &&& self.mic@.len() == self.frames * RESPEAKER_MIC_CHANNELS
        &&& self.reference@.len() == self.frames
    }

    /// The frames of the hop, channels put together again.
    pub open spec fn content(&self) -> Seq<Seq<i16>> {
        joined_frames(self.algo@, self.mic@, self.reference@)
    }
}

/// The full hops that a stream of frames is cut into.
pub open spec fn hops_of(stream: Seq<Seq<i16>>) -> Seq<Seq<Seq<i16>>> {
    Seq::new(
        stream.len() / HOP_SIZE as nat,
        |k: int| stream.subrange(k * HOP_SIZE, (k + 1) * HOP_SIZE),
    )
}

/// What is left of a stream of frames behind its last full hop.
pub open spec fn tail_of(stream: Seq<Seq<i16>>) -> Seq<Seq<i16>> {
    stream.subrange((stream.len() / HOP_SIZE as nat) * HOP_SIZE, stream.len() as int)
}

/// Cutting a stream that arrives in two parts gives the hops of the first part, followed by the
/// hops of its tail joined with the second part: where a stream is split into packets does not
/// show in the hops.
pub proof fn law_hops_do_not_depend_on_packets(first: Seq<Seq<i16>>, second: Seq<Seq<i16>>)
    ensures
        hops_of(first + second) == hops_of(first) + hops_of(tail_of(first) + second),
        tail_of(first + second) == tail_of(tail_of(first) + second),
{
    let h = HOP_SIZE as int;
    let n = (first.len() / HOP_SIZE as nat) as int;
    let rest = tail_of(first) + second;
    let all = first + second;
    assert(rest.len() == all.len() - n * h);
    assert(all.len() as int / h == n + rest.len() as int / h) by (nonlinear_arith)
        requires
            h == 256,
            rest.len() == all.len() - n * h,
            n >= 0,
    ;
    let left = hops_of(all);
    let right = hops_of(first) + hops_of(rest);
    assert(left.len() == right.len());
    assert forall|k: int| 0 <= k < left.len() implies left[k] == right[k] by {
        if k < n {
            assert((k + 1) * h <= n * h) by (nonlinear_arith)
                requires
                    k < n,
                    h == 256,
            ;
            assert(left[k] =~= right[k]);
        } else {
            let j = k - n;
            assert(k * h == n * h + j * h && (k + 1) * h == n * h + (j + 1) * h)
                by (nonlinear_arith)
                requires
                    j == k - n,
            ;
            assert((j + 1) * h <= rest.len()) by (nonlinear_arith)
                requires
                    j < rest.len() as int / h,
                    h == 256,
            ;
            assert(left[k] =~= hops_of(rest)[j]);
        }
    }
    assert(left =~= right);
    let m = rest.len() as int / h;
    assert((n + m) * h == n * h + m * h) by (nonlinear_arith);
    assert(tail_of(all) =~= tail_of(rest));
}

/// The hops of a stream, followed by its tail, are the stream: no frame is lost, repeated or moved.
pub proof fn law_hops_keep_every_frame(stream: Seq<Seq<i16>>)
    ensures
        hops_of(stream).flatten() + tail_of(stream) == stream,
        tail_of(stream).len() < HOP_SIZE,
        forall|k: int|
            0 <= k < hops_of(stream).len() ==> (#[trigger] hops_of(stream)[k]).len() == HOP_SIZE,
    decreases stream.len(),
{
    let h = HOP_SIZE as int;
    if stream.len() < h {
        assert(hops_of(stream) =~= Seq::empty());
        assert(tail_of(stream) =~= stream);
        assert(hops_of(stream).flatten() =~= Seq::empty());
    } else {
        let head = stream.subrange(0, h);
        let rest = stream.subrange(h, stream.len() as int);
        assert(stream =~= head + rest);
        law_hops_do_not_depend_on_packets(head, rest);
        assert(tail_of(head) =~= Seq::empty());
        assert(tail_of(head) + rest =~= rest);
        assert(hops_of(head)[0] =~= head);
        assert(hops_of(head) =~= seq![head]);
        law_hops_keep_every_frame(rest);
        assert(hops_of(stream) == seq![head] + hops_of(rest));
        assert(hops_of(stream).drop_first() =~= hops_of(rest));
        assert(hops_of(stream).flatten() == head + hops_of(rest).flatten());
        assert(hops_of(stream).flatten() + tail_of(stream) =~= stream);
    }
}

/// Collects capture frames until a hop is full.
pub struct PipelineHopAssembler {
    pub start_frame: u64,
    pub filled: usize,
    pub algo: Vec<i16>,
    pub mic: Vec<i16>,
    pub reference: Vec<i16>,
}

impl PipelineHopAssembler {
    pub open spec fn well_formed(&self) -> bool {
        &&& self.filled < HOP_SIZE
        &&& self.algo@.len() == self.filled
        &&& self.mic@.len() == self.filled * RESPEAKER_MIC_CHANNELS
        &&& self.reference@.len() == self.filled
    }

    /// The frames that wait for the rest of their hop.
    pub open spec fn waiting(&self) -> Seq<Seq<i16>> {
        joined_frames(self.algo@, self.mic@, self.reference@)
    }

    pub fn new() -> (assembler: Self)
        ensures
            assembler.well_formed(),
            assembler.start_frame == 0,
            assembler.waiting() == Seq::<Seq<i16>>::empty(),
            assembler.filled == 0,
    {
        let assembler = PipelineHopAssembler {
            start_frame: 0,
            filled: 0,
            algo: Vec::new(),
            mic: Vec::new(),
            reference: Vec::new(),
        };
        assert(assembler.waiting() =~= Seq::<Seq<i16>>::empty());
        assembler
    }

    /// Takes in a block and returns the hops that it completes, in order. Their start positions
    /// follow from the position at which the waiting frames began and from that of the block.
    pub fn push_block(&mut self, block: &CaptureBlock) -> (hops: Vec<PipelineHop>)
        requires
            old(self).well_formed(),
            block.well_formed(),
            block.start_frame + block.frames <= u64::MAX,
        ensures
            final(self).well_formed(),
            hops@.len() == hops_of(old(self).waiting() + block_frames(*block)).len(),
            forall|k: int|
                0 <= k < hops@.len() ==> {
                    &&& (#[trigger] hops@[k]).well_formed()
                    &&& hops@[k].frames == HOP_SIZE
                    &&& hops@[k].content() == hops_of(
                        old(self).waiting() + block_frames(*block),
                    )[k]
                    &&& hops@[k].start_frame == hop_start(*old(self), *block, k)
                },
            final(self).waiting() == tail_of(old(self).waiting() + block_frames(*block)),
            final(self).filled > 0 ==> final(self).start_frame == hop_start(
                *old(self),
                *block,
                hops@.len() as int,
            ),
    {
        let ghost before = *self;
        let ghost stream = self.waiting() + block_frames(*block);
        let ghost base = self.filled as int;
        let mut hops: Vec<PipelineHop> = Vec::new();
        let mut local_frame: usize = 0;
        let total: usize = block.samples.len();
        proof {
            assert(self.waiting() =~= stream.subrange(0, base));
        }
        while local_frame < block.frames
            invariant
                before.well_formed(),
                self.well_formed(),
                block.well_formed(),
                block.start_frame + block.frames <= u64::MAX,
                total == block.samples@.len(),
                local_frame <= block.frames,
                base == before.filled,
                stream == before.waiting() + block_frames(*block),
                stream.len() == base + block.frames,
                hops@.len() * HOP_SIZE + self.filled == base + local_frame,
                self.waiting() == stream.subrange(
                    hops@.len() * HOP_SIZE,
                    hops@.len() * HOP_SIZE + self.filled,
                ),
                forall|k: int|
                    0 <= k < hops@.len() ==> {
                        &&& (#[trigger] hops@[k]).well_formed()
                        &&& hops@[k].frames == HOP_SIZE
                        &&& hops@[k].content() == stream.subrange(k * HOP_SIZE, (k + 1) * HOP_SIZE)
                        &&& hops@[k].start_frame == hop_start(before, *block, k)
                    },
                self.filled > 0 ==> self.start_frame == hop_start(
                    before,
                    *block,
                    hops@.len() as int,
                ),
            decreases block.frames - local_frame,
        {
            let ghost done = hops@.len() as int;
            let ghost held = *self;
            if self.filled == 0 {
                self.start_frame = block.start_frame + local_frame as u64;
            }
            let src: usize = local_frame * RESPEAKER_CHANNELS;
            self.algo.push(block.samples[src]);
            self.mic.push(block.samples[src + 1]);
            self.mic.push(block.samples[src + 2]);
            self.mic.push(block.samples[src + 3]);
            self.mic.push(block.samples[src + 4]);
            self.reference.push(block.samples[src + 5]);
            self.filled = self.filled + 1;
            local_frame = local_frame + 1;
            proof {
                let from = done * HOP_SIZE;
                let now = stream.subrange(from, from + self.filled);
                let shown = self.waiting();
                assert(shown.len() == now.len());
                assert forall|i: int| 0 <= i < shown.len() implies shown[i] == now[i] by {
                    if i < held.filled {
                        assert(shown[i] =~= held.waiting()[i]);
                        assert(held.waiting()[i] == stream[from + i]);
                    } else {
                        assert(stream[from + i] == block_frames(*block)[local_frame - 1]);
                        assert(shown[i] =~= now[i]);
                    }
                }
                assert(shown =~= now);
            }
            if self.filled == HOP_SIZE {
                let hop = self.emit(HOP_SIZE);
                hops.push(hop);
                proof {
                    assert(self.waiting() =~= stream.subrange(
                        hops@.len() * HOP_SIZE,
                        hops@.len() * HOP_SIZE + self.filled,
                    ));
                }
            }
        }
        proof {
            let h = HOP_SIZE as int;
            assert(hops@.len() == stream.len() as int / h) by (nonlinear_arith)
                requires
                    h == 256,
                    hops@.len() * h + self.filled == stream.len(),
                    self.filled < h,
            ;
            assert forall|k: int| 0 <= k < hops@.len() implies hops@[k].content() == hops_of(
                stream,
            )[k] by {}
        }
        hops
    }

    /// The shorter hop that ends a recording, if any frame is left.
    pub fn finish(&mut self) -> (hop: Option<PipelineHop>)
        requires
            old(self).well_formed(),
        ensures
            final(self).well_formed(),
            final(self).filled == 0,
            final(self).start_frame == old(self).start_frame,
            hop is Some <==> old(self).filled > 0,
            hop matches Some(last) ==> {
                &&& last.well_formed()
                &&& last.frames == old(self).filled
                &&& last.content() == old(self).waiting()
                &&& last.start_frame == old(self).start_frame
            },
    {
        if self.filled > 0 {
            let frames: usize = self.filled;
            Some(self.emit(frames))
        } else {
            None
        }
    }

    fn emit(&mut self, frames: usize) -> (hop: PipelineHop)
        requires
            old(self).filled == frames,
            0 < frames <= HOP_SIZE,
            old(self).algo@.len() == frames,
            old(self).mic@.len() == frames * RESPEAKER_MIC_CHANNELS,
            old(self).reference@.len() == frames,
        ensures
            final(self).well_formed(),
            final(self).filled == 0,
            final(self).start_frame == old(self).start_frame,
            hop.well_formed(),
            hop.frames == frames,
            hop.start_frame == old(self).start_frame,
            hop.content() == old(self).waiting(),
    {
        let mut algo: Vec<i16> = Vec::new();
        let mut mic: Vec<i16> = Vec::new();
        let mut reference: Vec<i16> = Vec::new();
        std::mem::swap(&mut algo, &mut self.algo);
        std::mem::swap(&mut mic, &mut self.mic);
        std::mem::swap(&mut reference, &mut self.reference);
        self.filled = 0;
        PipelineHop { start_frame: self.start_frame, frames, algo, mic, reference }
    }
}

/// Where hop `k` begins, counted from the hop that the waiting frames belong to.
pub open spec fn hop_start(assembler: PipelineHopAssembler, block: CaptureBlock, k: int) -> int {
    if k == 0 && assembler.filled > 0 {
        assembler.start_frame as int
    } else {
        block.start_frame + k * HOP_SIZE - assembler.filled
    }
}

pub const PIPELINE_QUEUE_CAPACITY: usize = 32;

#[derive(Clone, Copy, Debug, Default, PartialEq, Eq, Structural)]
pub struct PipelineWorkerStats {
    pub capture_blocks: u64,
    pub input_frames: u64,
    pub processed_hops: u64,
    pub max_queue_depth: usize,
    pub bf_stats: Option<BeamformerStats>,
}

/// Nothing processed yet.
pub open spec fn no_stats() -> PipelineWorkerStats {
    PipelineWorkerStats {
        capture_blocks: 0,
        input_frames: 0,
        processed_hops: 0,
        max_queue_depth: 0,
        bf_stats: None,
    }
}

/// What the worker says of a block that does not follow the one before it.
pub open spec fn gap_message(sequence: nat, start: nat, expected_sequence: nat, expected_start: nat) -> Seq<
    char,
> {
    "algorithm worker 收到不连续块: got seq="@ + decimal(sequence) + " start="@ + decimal(start)
        + ", expected seq="@ + decimal(expected_sequence) + " start="@ + decimal(expected_start)
}

/// The loop of the worker: it takes in blocks, hands out hops, and keeps the first error.
pub struct WorkerLoop {
    pub stats: PipelineWorkerStats,
    pub assembler: PipelineHopAssembler,
    pub expected_sequence: u64,
    pub expected_start_frame: u64,
    pub first_error: Option<String>,
}

/// The block is the one that the worker waits for.
pub open spec fn follows(block: CaptureBlock, worker: WorkerLoop) -> bool {
    &&& block.well_formed()
    &&& block.sequence == worker.expected_sequence
    &&& block.start_frame == worker.expected_start_frame
}

impl WorkerLoop {
    pub open spec fn well_formed(&self) -> bool {
        &&& self.assembler.well_formed()
        &&& self.stats.processed_hops * HOP_SIZE <= self.expected_start_frame
        &&& self.first_error is None ==> {
            &&& self.stats.capture_blocks == self.expected_sequence
            &&& self.stats.input_frames == self.expected_start_frame
            &&& self.assembler.filled > 0 ==> self.assembler.start_frame
                == self.expected_start_frame - self.assembler.filled
            &&& self.assembler.filled == self.expected_start_frame % HOP_SIZE as u64
        }
    }

    pub fn new() -> (worker: Self)
        ensures
            worker.well_formed(),
            worker.first_error is None,
            worker.stats == no_stats(),
            worker.assembler.start_frame == 0,
            worker.assembler.waiting() == Seq::<Seq<i16>>::empty(),
            worker.expected_sequence == 0,
            worker.expected_start_frame == 0,
    {
        WorkerLoop {
            stats: PipelineWorkerStats {
                capture_blocks: 0,
                input_frames: 0,
                processed_hops: 0,
                max_queue_depth: 0,
                bf_stats: None,
            },
            assembler: PipelineHopAssembler::new(),
            expected_sequence: 0,
            expected_start_frame: 0,
            first_error: None,
        }
    }

    /// Takes in a block. One that is malformed, or does not follow the one before it, ends the
    /// loop; any other gives the hops that it completes, which begin at whole multiples of the
    /// hop size.
    pub fn accept(&mut self, block: &CaptureBlock) -> (result: Result<Vec<PipelineHop>, String>)
        requires
            old(self).well_formed(),
            old(self).first_error is None,
            block.frames * RESPEAKER_CHANNELS <= usize::MAX,
            old(self).stats.input_frames + block.frames <= u64::MAX,
            old(self).stats.capture_blocks < u64::MAX,
        ensures
            final(self).well_formed(),
            final(self).stats == (PipelineWorkerStats {
                capture_blocks: (old(self).stats.capture_blocks + 1) as u64,
                input_frames: (old(self).stats.input_frames + block.frames) as u64,
                ..old(self).stats
            }),
            result is Ok <==> follows(*block, *old(self)),
            match result {
                Ok(hops) => {
                    let stream = old(self).assembler.waiting() + block_frames(*block);
                    &&& final(self).first_error is None
                    &&& final(self).expected_sequence == old(self).expected_sequence + 1
                    &&& final(self).expected_start_frame == old(self).expected_start_frame
                        + block.frames
                    &&& hops@.len() == hops_of(stream).len()
                    &&& forall|k: int|
                        0 <= k < hops@.len() ==> {
                            &&& (#[trigger] hops@[k]).well_formed()
                            &&& hops@[k].frames == HOP_SIZE
                            &&& hops@[k].content() == hops_of(stream)[k]
                            &&& hops@[k].start_frame == (old(self).expected_start_frame as int
                                / HOP_SIZE as int + k) * HOP_SIZE
                        }
                    &&& final(self).assembler.waiting() == tail_of(stream)
                },
                Err(message) => {
                    &&& final(self).first_error is Some
                    &&& final(self).first_error->0@ == message@
                    &&& final(self).assembler == old(self).assembler
                    &&& final(self).expected_sequence == old(self).expected_sequence
                    &&& final(self).expected_start_frame == old(self).expected_start_frame
                    &&& message@ == (if !block.well_formed() {
                        length_mismatch_message(block.samples@.len(), block.frames as nat)
                    } else {
                        gap_message(
                            block.sequence as nat,
                            block.start_frame as nat,
                            old(self).expected_sequence as nat,
                            old(self).expected_start_frame as nat,
                        )
                    })
                },
            },
    {
        self.stats.capture_blocks = self.stats.capture_blocks + 1;
        self.stats.input_frames = self.stats.input_frames + block.frames as u64;
        match block.validate() {
            Err(message) => {
                self.first_error = Some(message.clone());
                return Err(message);
            },
            Ok(()) => {},
        }
        if block.sequence != self.expected_sequence || block.start_frame
            != self.expected_start_frame {
            let mut message = "algorithm worker 收到不连续块: got seq=".to_owned();
            push_decimal(&mut message, block.sequence);
            message.append(" start=");
            push_decimal(&mut message, block.start_frame);
            message.append(", expected seq=");
            push_decimal(&mut message, self.expected_sequence);
            message.append(" start=");
            push_decimal(&mut message, self.expected_start_frame);
            self.first_error = Some(message.clone());
            return Err(message);
        }
        let ghost start = self.expected_start_frame as int;
        let ghost filled = self.assembler.filled as int;
        let ghost before = self.assembler;
        self.expected_sequence = self.expected_sequence + 1;
        self.expected_start_frame = self.expected_start_frame + block.frames as u64;
        let hops = self.assembler.push_block(block);
        proof {
            let h = HOP_SIZE as int;
            let total = start + block.frames;
            let n = hops@.len() as int;
            let whole = start / h;
            assert(start - filled == whole * h) by (nonlinear_arith)
                requires
                    filled == start % h,
                    whole == start / h,
                    h == 256,
            ;
            let left = self.assembler.filled as int;
            assert(n * h + left == filled + block.frames) by {
                let stream = before.waiting() + block_frames(*block);
                assert(stream.len() == filled + block.frames);
                assert(tail_of(stream).len() == left);
                assert(n == stream.len() as int / h);
            }
            assert(total % h == left && total - left == (whole + n) * h) by (nonlinear_arith)
                requires
                    h == 256,
                    0 <= left < h,
                    n * h + left == filled + block.frames,
                    start - filled == whole * h,
                    total == start + block.frames,
            ;
            assert forall|k: int| 0 <= k < n implies (#[trigger] hops@[k]).start_frame == (whole
                + k) * h by {
                assert((whole + k) * h == whole * h + k * h) by (nonlinear_arith);
            }
            assert((whole + n) * h == whole * h + n * h) by (nonlinear_arith);
        }
        Ok(hops)
    }

    /// Counts a hop that the modules have processed.
    pub fn hop_processed(&mut self)
        requires
            old(self).well_formed(),
            (old(self).stats.processed_hops + 1) * HOP_SIZE <= old(self).expected_start_frame,
        ensures
            final(self).well_formed(),
            final(self).stats == (PipelineWorkerStats {
                processed_hops: (old(self).stats.processed_hops + 1) as u64,
                ..old(self).stats
            }),
            final(self).first_error == old(self).first_error,
            final(self).assembler == old(self).assembler,
            final(self).expected_sequence == old(self).expected_sequence,
            final(self).expected_start_frame == old(self).expected_start_frame,
    {
        self.stats.processed_hops = self.stats.processed_hops + 1;
    }

    /// Ends the loop with an error of the modules; an earlier error stands.
    pub fn fail(&mut self, error: String)
        ensures
            *final(self) == (WorkerLoop {
                first_error: if old(self).first_error is Some {
                    old(self).first_error
                } else {
                    Some(error)
                },
                ..*old(self)
            }),
    {
        if self.first_error.is_none() {
            self.first_error = Some(error);
        }
    }

    /// The shorter hop that is processed when the input ends without an error.
    pub fn finish_input(&mut self) -> (hop: Option<PipelineHop>)
        requires
            old(self).well_formed(),
        ensures
            final(self).first_error == old(self).first_error,
            final(self).stats == old(self).stats,
            final(self).expected_sequence == old(self).expected_sequence,
            final(self).expected_start_frame == old(self).expected_start_frame,
            final(self).assembler.well_formed(),
            old(self).first_error is None ==> {
                &&& final(self).assembler.filled == 0
                &&& final(self).assembler.start_frame == old(self).assembler.start_frame
            },
            old(self).first_error is Some ==> *final(self) == *old(self),
            hop is Some <==> old(self).first_error is None && old(self).assembler.filled > 0,
            hop matches Some(last) ==> {
                &&& last.well_formed()
                &&& last.frames == old(self).assembler.filled
                &&& last.content() == old(self).assembler.waiting()
                &&& last.start_frame + last.frames == old(self).expected_start_frame
            },
    {
        if self.first_error.is_none() {
            self.assembler.finish()
        } else {
            None
        }
    }

    /// The result of the worker: its account, or the first error. The last hop counts as
    /// processed where it was.
    pub fn conclude(
        self,
        last_hop_processed: bool,
        finalized: Result<(), String>,
        bf_stats: Option<BeamformerStats>,
        max_queue_depth: usize,
    ) -> (result: Result<PipelineWorkerStats, String>)
        requires
            self.stats.processed_hops < u64::MAX,
        ensures
            match (self.first_error, finalized) {
                (Some(e), _) => result == Err::<PipelineWorkerStats, String>(e),
                (None, Err(e)) => result == Err::<PipelineWorkerStats, String>(e),
                (None, Ok(())) => result == Ok::<PipelineWorkerStats, String>(
                    PipelineWorkerStats {
                        capture_blocks: self.stats.capture_blocks,
                        input_frames: self.stats.input_frames,
                        processed_hops: (self.stats.processed_hops + (if last_hop_processed {
                            1int
                        } else {
                            0
                        })) as u64,
                        max_queue_depth,
                        bf_stats,
                    },
                ),
            },
    {
        match self.first_error {
            Some(e) => Err(e),
            None => match finalized {
                Err(e) => Err(e),
                Ok(()) => Ok(
                    PipelineWorkerStats {
                        capture_blocks: self.stats.capture_blocks,
                        input_frames: self.stats.input_frames,
                        processed_hops: if last_hop_processed {
                            self.stats.processed_hops + 1
                        } else {
                            self.stats.processed_hops
                        },
                        max_queue_depth,
                        bf_stats,
                    },
                ),
            },
        }
    }
}

/// What became of a block that was offered to a queue.
#[derive(Clone, Copy, Debug, PartialEq, Eq, Structural)]
pub enum SendOutcome {
    Sent,
    Full,
    Disconnected,
}

/// Whether a block may be offered at all: not after an error of the worker, and not once the
/// input is closed. The error says which.
pub fn push_admitted(first_error: Option<&String>, input_open: bool) -> (result: Result<(), String>)
    ensures
        result is Ok <==> first_error is None && input_open,
        result matches Err(message) ==> message@ == match first_error {
            Some(e) => e@,
            None => "Pipeline input closed"@,
        },
{
    match first_error {
        Some(e) => Err(e.clone()),
        None => if input_open {
            Ok(())
        } else {
            Err("Pipeline input closed".to_owned())
        },
    }
}

/// What a push reports: an error of the worker that has come up meanwhile goes before the state
/// of the queue.
pub fn push_result(outcome: SendOutcome, first_error: Option<&String>) -> (result: Result<
    (),
    String,
>)
    ensures
        result is Ok <==> outcome is Sent,
        result matches Err(message) ==> message@ == match first_error {
            Some(e) => e@,
            None => if outcome is Full {
                "Pipeline queue overrun"@
            } else {
                "pipeline worker disconnected"@
            },
        },
{
    match outcome {
        SendOutcome::Sent => Ok(()),
        SendOutcome::Full => match first_error {
            Some(e) => Err(e.clone()),
            None => Err("Pipeline queue overrun".to_owned()),
        },
        SendOutcome::Disconnected => match first_error {
            Some(e) => Err(e.clone()),
            None => Err("pipeline worker disconnected".to_owned()),
        },
    }
}

/// The count of blocks on their way to the worker, kept by sender and worker together. A sender
/// counts a block before it offers it and takes it back when it is refused; the worker counts a
/// block off when it has received it.
#[derive(Clone, Copy, Debug, PartialEq, Eq, Structural)]
pub struct QueueDepth {
    pub depth: usize,
    pub max: usize,
}

/// The count once a sender has counted a block.
pub open spec fn after_reserve(queue: QueueDepth) -> QueueDepth {
    QueueDepth { depth: (queue.depth + 1) as usize, ..queue }
}

/// The count once a sender knows what became of the block: one that was sent raises the maximum
/// to the depth at which it was counted, one that was refused is taken back.
pub open spec fn after_settle(queue: QueueDepth, reserved: usize, outcome: SendOutcome) -> QueueDepth {
    if outcome is Sent {
        QueueDepth {
            max: if reserved > queue.max {
                reserved
            } else {
                queue.max
            },
            ..queue
        }
    } else {
        QueueDepth { depth: (queue.depth - 1) as usize, ..queue }
    }
}

/// The count once the worker has counted a block off.
pub open spec fn after_received(queue: QueueDepth) -> QueueDepth {
    QueueDepth { depth: (queue.depth - 1) as usize, ..queue }
}

impl QueueDepth {
    pub fn new() -> (queue: Self)
        ensures
            queue == (QueueDepth { depth: 0, max: 0 }),
    {
        QueueDepth { depth: 0, max: 0 }
    }

    /// Counts a block that is about to be offered; returns the depth with it.
    pub fn reserve(&mut self) -> (reserved: usize)
        requires
            old(self).depth < usize::MAX,
        ensures
            reserved == old(self).depth + 1,
            *final(self) == after_reserve(*old(self)),
    {
        self.depth = self.depth + 1;
        self.depth
    }

    /// Settles the block that was counted at the given depth.
    pub fn settle(&mut self, reserved: usize, outcome: SendOutcome)
        requires
            outcome is Sent || old(self).depth > 0,
        ensures
            *final(self) == after_settle(*old(self), reserved, outcome),
    {
        match outcome {
            SendOutcome::Sent => {
                if reserved > self.max {
                    self.max = reserved;
                }
            },
            SendOutcome::Full | SendOutcome::Disconnected => {
                self.depth = self.depth - 1;
            },
        }
    }

    /// Counts off a block that the worker has received.
    pub fn received(&mut self)
        requires
            old(self).depth > 0,
        ensures
            *final(self) == after_received(*old(self)),
    {
        self.depth = self.depth - 1;
    }
}

/// The shared count beside the blocks that are under way between senders and worker.
pub struct QueueTrace {
    pub queue: QueueDepth,
    /// Blocks counted by a sender and not yet sent or refused.
    pub offered: nat,
    /// Blocks sent whose sender has not yet settled them.
    pub unsettled: nat,
    /// Blocks in the queue.
    pub queued: nat,
    /// Blocks received and not yet counted off.
    pub taken: nat,
}

/// One step of a sender or of the worker.
pub enum QueueStep {
    /// A sender counts a block.
    Reserve,
    /// The queue takes a block in.
    Send,
    /// The sender of a block that was taken in settles it.
    SettleSent { reserved: usize },
    /// The queue refuses a block, and its sender settles it.
    Refuse { reserved: usize, outcome: SendOutcome },
    /// The worker receives a block.
    Receive,
    /// The worker counts a block off.
    CountOff,
}

/// The step can be taken: there is a block to take it with, and one more can still be counted.
pub open spec fn step_enabled(t: QueueTrace, step: QueueStep) -> bool {
    match step {
        QueueStep::Reserve => t.queue.depth < usize::MAX,
        QueueStep::Send => t.offered > 0,
        QueueStep::SettleSent { reserved } => t.unsettled > 0,
        QueueStep::Refuse { reserved, outcome } => t.offered > 0 && !(outcome is Sent),
        QueueStep::Receive => t.queued > 0,
        QueueStep::CountOff => t.taken > 0,
    }
}

/// What the step leads to.
pub open spec fn queue_step(t: QueueTrace, step: QueueStep) -> QueueTrace {
    match step {
        QueueStep::Reserve => QueueTrace {
            queue: after_reserve(t.queue),
            offered: t.offered + 1,
            ..t
        },
        QueueStep::Send => QueueTrace {
            offered: (t.offered - 1) as nat,
            unsettled: t.unsettled + 1,
            queued: t.queued + 1,
            ..t
        },
        QueueStep::SettleSent { reserved } => QueueTrace {
            queue: after_settle(t.queue, reserved, SendOutcome::Sent),
            unsettled: (t.unsettled - 1) as nat,
            ..t
        },
        QueueStep::Refuse { reserved, outcome } => QueueTrace {
            queue: after_settle(t.queue, reserved, outcome),
            offered: (t.offered - 1) as nat,
            ..t
        },
        QueueStep::Receive => QueueTrace {
            queued: (t.queued - 1) as nat,
            taken: t.taken + 1,
            ..t
        },
        QueueStep::CountOff => QueueTrace {
            queue: after_received(t.queue),
            taken: (t.taken - 1) as nat,
            ..t
        },
    }
}

/// Every step of a run can be taken when its turn comes.
pub open spec fn run_enabled(t: QueueTrace, steps: Seq<QueueStep>) -> bool
    decreases steps.len(),
{
    steps.len() == 0 || (step_enabled(t, steps[0]) && run_enabled(
        queue_step(t, steps[0]),
        steps.drop_first(),
    ))
}

/// Where a run of steps leads to.
pub open spec fn queue_run(t: QueueTrace, steps: Seq<QueueStep>) -> QueueTrace
    decreases steps.len(),
{
    if steps.len() == 0 {
        t
    } else {
        queue_run(queue_step(t, steps[0]), steps.drop_first())
    }
}

/// The count is that of the blocks under way.
pub open spec fn queue_balanced(t: QueueTrace) -> bool {
    t.queue.depth == t.offered + t.queued + t.taken
}

/// Before anything was counted.
pub open spec fn queue_at_rest() -> QueueTrace {
    QueueTrace {
        queue: QueueDepth { depth: 0, max: 0 },
        offered: 0,
        unsettled: 0,
        queued: 0,
        taken: 0,
    }
}

proof fn lemma_run_balanced(t: QueueTrace, steps: Seq<QueueStep>)
    requires
        queue_balanced(t),
        run_enabled(t, steps),
    ensures
        queue_balanced(queue_run(t, steps)),
    decreases steps.len(),
{
    if steps.len() > 0 {
        lemma_run_balanced(queue_step(t, steps[0]), steps.drop_first());
    }
}

/// However the steps of senders and worker interleave, the shared count is that of the blocks
/// under way. So it never falls below zero: a block is counted before the worker can receive it,
/// and neither a refusal nor the worker takes off what was not counted.
pub proof fn law_queue_depth_never_underflows(steps: Seq<QueueStep>)
    requires
        run_enabled(queue_at_rest(), steps),
    ensures
        queue_balanced(queue_run(queue_at_rest(), steps)),
        forall|next: QueueStep|
            (next is Refuse || next is CountOff) && #[trigger] step_enabled(
                queue_run(queue_at_rest(), steps),
                next,
            ) ==> queue_run(queue_at_rest(), steps).queue.depth > 0,
{
    lemma_run_balanced(queue_at_rest(), steps);
}

/// A frame put together again has the processed channel first, the four microphones in order behind
/// it and the reference last, as the captured samples have it.
pub proof fn law_frames_keep_their_channels(
    algo: Seq<i16>,
    mic: Seq<i16>,
    reference: Seq<i16>,
    block: CaptureBlock,
    i: int,
    c: int,
)
    requires
        0 <= c < 6,
    ensures
        0 <= i < algo.len() ==> {
            &&& joined_frames(algo, mic, reference)[i].len() == 6
            &&& joined_frames(algo, mic, reference)[i][c] == (if c == 0 {
                algo[i]
            } else if c == 5 {
                reference[i]
            } else {
                mic[4 * i + c - 1]
            })
        },
        joined_frames(algo, mic, reference).len() == algo.len(),
        block_frames(block).len() == block.frames,
        0 <= i < block.frames ==> block_frames(block)[i].len() == 6 && block_frames(block)[i][c]
            == block.samples@[6 * i + c],
{
}

/// Where the block follows the frames that wait, the hops begin where these began and then every 256
/// frames.
pub proof fn law_hops_begin_every_256_frames(
    assembler: PipelineHopAssembler,
    block: CaptureBlock,
    k: int,
)
    requires
        assembler.well_formed(),
        assembler.filled > 0 ==> assembler.start_frame + assembler.filled == block.start_frame,
        k >= 0,
    ensures
        assembler.filled > 0 ==> hop_start(assembler, block, k) == assembler.start_frame + 256 * k,
        assembler.filled == 0 ==> hop_start(assembler, block, k) == block.start_frame + 256 * k,
{
}

/// The worker takes exactly a block of whole frames with the next number that begins where the one
/// before ended.
pub proof fn law_only_the_next_block_is_taken(block: CaptureBlock, worker: WorkerLoop)
    ensures
        follows(block, worker) <==> {
            &&& block.samples@.len() == 6 * block.frames
            &&& block.sequence == worker.expected_sequence
            &&& block.start_frame == worker.expected_start_frame
        },
{
}

/// A block that was sent stays counted and raises the maximum to the depth that it was counted at,
/// never lowering it; a block that was refused, like one that was received, is counted off and
/// leaves the maximum.
pub proof fn law_queue_counts_each_block_once(
    queue: QueueDepth,
    reserved: usize,
    outcome: SendOutcome,
)
    requires
        0 < queue.depth < usize::MAX,
    ensures
        after_reserve(queue).depth == queue.depth + 1,
        after_reserve(queue).max == queue.max,
        outcome is Sent ==> {
            let after = after_settle(queue, reserved, outcome);
            &&& after.depth == queue.depth
            &&& after.max >= queue.max && after.max >= reserved
            &&& after.max == queue.max || after.max == reserved
        },
        !(outcome is Sent) ==> {
            let after = after_settle(queue, reserved, outcome);
            &&& after.depth == queue.depth - 1
            &&& after.max == queue.max
        },
        after_received(queue).depth == queue.depth - 1,
        after_received(queue).max == queue.max,
        after_settle(after_reserve(queue), reserved, SendOutcome::Full) == queue,
        after_settle(after_reserve(queue), reserved, SendOutcome::Disconnected) == queue,
        after_received(after_reserve(queue)) == queue,
{
}

/// A gap is told with the numbers of the block that came, and behind them those that were expected.
pub proof fn law_gaps_are_told(
    sequence: nat,
    start: nat,
    expected_sequence: nat,
    expected_start: nat,
)
    ensures
        ({
            let came = "algorithm worker 收到不连续块: got seq="@ + decimal(sequence) + " start="@
                + decimal(start);
            let expected = ", expected seq="@ + decimal(expected_sequence) + " start="@ + decimal(
                expected_start,
            );
            &&& begins_with(gap_message(sequence, start, expected_sequence, expected_start), came)
            &&& ends_with(gap_message(sequence, start, expected_sequence, expected_start), expected)
        }),
{
    let message = gap_message(sequence, start, expected_sequence, expected_start);
    let came = "algorithm worker 收到不连续块: got seq="@ + decimal(sequence) + " start="@
        + decimal(start);
    let expected = ", expected seq="@ + decimal(expected_sequence) + " start="@ + decimal(
        expected_start,
    );
    assert(message =~= came + expected);
    assert(message.take(came.len() as int) =~= came);
    assert(message.skip(message.len() - expected.len()) =~= expected);
}

/// A worker that has taken nothing in has counted nothing.
pub proof fn law_nothing_is_counted_at_first(stats: PipelineWorkerStats)
    requires
        stats == no_stats(),
    ensures
        stats.capture_blocks == 0,
        stats.input_frames == 0,
        stats.processed_hops == 0,
        stats.max_queue_depth == 0,
        stats.bf_stats is None,
{
}

} // verus!

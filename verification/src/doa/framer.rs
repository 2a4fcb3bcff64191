//! Framing: from a stream of four-channel samples to overlapping analysis windows.

use vstd::prelude::*;

use crate::doa::{FRAME_SIZE, HOP_SIZE, MIC_COUNT};

verus! {

/// The last `FRAME_SIZE` elements of a sequence, or all of them where there are fewer.
pub open spec fn last_window<A>(s: Seq<A>) -> Seq<A> {
    if s.len() <= FRAME_SIZE {
        s
    } else {
        s.subrange(s.len() - FRAME_SIZE, s.len() as int)
    }
}

/// A window is ready when `total` samples have come in: at 512, and then every 256.
pub open spec fn window_ready(total: int) -> bool {
    total >= FRAME_SIZE && (total - FRAME_SIZE) % HOP_SIZE as int == 0
}

/// A ring of the most recent samples.
pub struct FrameAssembler<T> {
    pub ring: Vec<[T; MIC_COUNT]>,
    pub write_pos: usize,
    pub samples_since_emit: usize,
    pub total_samples: u64,
}

impl<T: Copy> FrameAssembler<T> {
    pub open spec fn well_formed(&self) -> bool {
        &&& self.ring@.len() == if self.total_samples < FRAME_SIZE {
            self.total_samples as int
        } else {
            FRAME_SIZE as int
        }
        &&& self.write_pos < FRAME_SIZE
        &&& self.total_samples <= FRAME_SIZE ==> self.write_pos == self.total_samples % (
        FRAME_SIZE as u64)
        &&& self.samples_since_emit == if self.total_samples < FRAME_SIZE {
            self.total_samples as int
        } else {
            (self.total_samples - FRAME_SIZE) % HOP_SIZE as int
        }
    }

    /// The samples in the ring, oldest first.
    pub open spec fn window(&self) -> Seq<[T; MIC_COUNT]> {
        if self.ring@.len() < FRAME_SIZE {
            self.ring@
        } else {
            self.ring@.subrange(self.write_pos as int, self.ring@.len() as int)
                + self.ring@.subrange(0, self.write_pos as int)
        }
    }

    pub fn new() -> (assembler: Self)
        ensures
            assembler.well_formed(),
            assembler.window() == Seq::<[T; MIC_COUNT]>::empty(),
            assembler.total_samples == 0,
    {
        FrameAssembler { ring: Vec::new(), write_pos: 0, samples_since_emit: 0, total_samples: 0 }
    }

    /// Takes in the samples of one instant. The result says whether a window is ready.
    pub fn push(&mut self, sample: [T; MIC_COUNT]) -> (ready: bool)
        requires
            old(self).well_formed(),
            old(self).total_samples < u64::MAX,
        ensures
            final(self).well_formed(),
            final(self).total_samples == old(self).total_samples + 1,
            final(self).window() == last_window(old(self).window().push(sample)),
            ready == window_ready(final(self).total_samples as int),
    {
        let ghost before = self.window();
        if self.ring.len() < FRAME_SIZE {
            self.ring.push(sample);
        } else {
            self.ring.set(self.write_pos, sample);
        }
        self.write_pos = (self.write_pos + 1) % FRAME_SIZE;
        self.total_samples = self.total_samples + 1;
        self.samples_since_emit = self.samples_since_emit + 1;
        assert(self.window() =~= last_window(before.push(sample)));
        if self.total_samples < FRAME_SIZE as u64 {
            return false;
        }
        let ready = self.total_samples == FRAME_SIZE as u64 || self.samples_since_emit >= HOP_SIZE;
        if ready {
            self.samples_since_emit = 0;
        }
        ready
    }

    /// The current window by channel, each oldest sample first.
    pub fn copy_frame(&self) -> (frame: Vec<Vec<T>>)
        requires
            self.well_formed(),
            self.total_samples >= FRAME_SIZE,
        ensures
            frame@.len() == MIC_COUNT,
            forall|ch: int|
                0 <= ch < MIC_COUNT ==> (#[trigger] frame@[ch])@ == Seq::new(
                    FRAME_SIZE as nat,
                    |n: int| self.window()[n]@[ch],
                ),
    {
        let mut frame: Vec<Vec<T>> = Vec::new();
        for ch in 0..MIC_COUNT
            invariant
                self.well_formed(),
                self.total_samples >= FRAME_SIZE,
                frame@.len() == ch,
                forall|c: int|
                    0 <= c < ch ==> (#[trigger] frame@[c])@ == Seq::new(
                        FRAME_SIZE as nat,
                        |n: int| self.window()[n]@[c],
                    ),
        {
            let mut row: Vec<T> = Vec::new();
            for n in 0..FRAME_SIZE
                invariant
                    self.well_formed(),
                    self.total_samples >= FRAME_SIZE,
                    ch < MIC_COUNT,
                    row@.len() == n,
                    forall|k: int| 0 <= k < n ==> #[trigger] row@[k] == self.window()[k]@[ch as int],
            {
                row.push(self.ring[(self.write_pos + n) % FRAME_SIZE][ch]);
            }
            assert(row@ =~= Seq::new(FRAME_SIZE as nat, |n: int| self.window()[n]@[ch as int]));
            frame.push(row);
        }
        frame
    }

    pub fn total_samples(&self) -> (n: u64)
        ensures
            n == self.total_samples,
    {
        self.total_samples
    }
}

/// What the window holds after a whole history of samples: its last 512 entries.
pub open spec fn window_after<T>(history: Seq<[T; MIC_COUNT]>) -> Seq<[T; MIC_COUNT]> {
    last_window(history)
}

/// Pushing one sample after a history gives the window of the longer history: the window depends
/// on the stream alone, not on how it was cut into blocks.
pub proof fn law_window_follows_the_stream<T>(
    history: Seq<[T; MIC_COUNT]>,
    sample: [T; MIC_COUNT],
)
    ensures
        last_window(window_after(history).push(sample)) == window_after(history.push(sample)),
{
    assert(last_window(window_after(history).push(sample)) =~= window_after(history.push(sample)));
}

/// Two consecutive windows are 256 samples apart, and the first one ends at 512 samples.
pub proof fn law_windows_are_one_hop_apart(total: int)
    requires
        window_ready(total),
    ensures
        total >= FRAME_SIZE,
        window_ready(FRAME_SIZE as int),
        window_ready(total + HOP_SIZE),
        forall|n: int| total < n < total + HOP_SIZE ==> !window_ready(n),
{
    assert forall|n: int| total < n < total + HOP_SIZE implies !window_ready(n) by {
        let d = n - total;
        assert((n - FRAME_SIZE) % 256 == d) by (nonlinear_arith)
            requires
                (total - 512) % 256 == 0,
                d == n - total,
                0 < d < 256,
                FRAME_SIZE == 512,
        ;
    }
}

/// The window is as long as the history up to 512 samples, and holds its last samples in order.
pub proof fn law_window_holds_the_last_samples<T>(history: Seq<[T; MIC_COUNT]>, back: int)
    requires
        0 <= back < history.len(),
        back < 512,
    ensures
        window_after(history).len() == (if history.len() < 512 {
            history.len()
        } else {
            512
        }),
        window_after(history)[window_after(history).len() - 1 - back] == history[history.len() - 1
            - back],
{
}

} // verus!

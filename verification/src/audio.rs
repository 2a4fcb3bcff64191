//! Capture blocks shared by the capture, recording and algorithm stages.

use std::sync::Arc;
use vstd::prelude::*;
use vstd::string::*;

use crate::text::{decimal, push_decimal};

verus! {

pub const RESPEAKER_SAMPLE_RATE: u32 = 16000;

pub const RESPEAKER_CHANNELS: usize = 6;

pub const RESPEAKER_MIC_CHANNELS: usize = 4;

pub const CAPTURE_QUEUE_CAPACITY: usize = 128;

/// One captured packet: `frames` interleaved frames of six channels, placed in the recording by
/// its sequence number and by the position of its first frame.
#[derive(Debug)]
pub struct CaptureBlock {
    pub sequence: u64,
    pub start_frame: u64,
    pub frames: usize,
    pub samples: Arc<[i16]>,
}

/// What `validate` and `from_samples` say about a block whose length does not fit its frame count.
pub open spec fn length_mismatch_message(samples: nat, frames: nat) -> Seq<char> {
    "CaptureBlock 长度不匹配: samples="@ + decimal(samples) + ", frames="@ + decimal(frames)
        + ", channels="@ + decimal(RESPEAKER_CHANNELS as nat)
}

/// What `from_samples` says about a sample count that is no whole number of frames.
pub open spec fn not_whole_frames_message(samples: nat) -> Seq<char> {
    "采样块长度 "@ + decimal(samples) + " 不是 "@ + decimal(RESPEAKER_CHANNELS as nat)
        + " 的整数倍"@
}

/// `Arc::from` moves the samples of a vector into a shared slice, unchanged.
#[verifier::external_body]
fn shared_slice(samples: Vec<i16>) -> (shared: Arc<[i16]>)
    ensures
        shared@ == samples@,
{
    Arc::from(samples)
}

impl CaptureBlock {
    /// The block holds exactly `frames` frames of six channels.
    pub open spec fn well_formed(&self) -> bool {
        self.samples@.len() == self.frames * RESPEAKER_CHANNELS
    }

    /// Frame `i` of the block, channel `c`.
    pub open spec fn at(&self, i: int, c: int) -> i16 {
        self.samples@[i * RESPEAKER_CHANNELS + c]
    }

    pub fn from_samples(sequence: u64, start_frame: u64, samples: Vec<i16>) -> (result: Result<
        Self,
        String,
    >)
        ensures
            match result {
                Ok(block) => {
                    &&& samples@.len() % RESPEAKER_CHANNELS as nat == 0
                    &&& block.sequence == sequence
                    &&& block.start_frame == start_frame
                    &&& block.frames == samples@.len() / RESPEAKER_CHANNELS as nat
                    &&& block.samples@ == samples@
                    &&& block.well_formed()
                },
                Err(message) => {
                    &&& samples@.len() % RESPEAKER_CHANNELS as nat != 0
                    &&& message@ == not_whole_frames_message(samples@.len())
                },
            },
    {
        if samples.len() % RESPEAKER_CHANNELS != 0 {
            let mut message = "采样块长度 ".to_owned();
            push_decimal(&mut message, samples.len() as u64);
            message.append(" 不是 ");
            push_decimal(&mut message, RESPEAKER_CHANNELS as u64);
            message.append(" 的整数倍");
            return Err(message);
        }
        let frames: usize = samples.len() / RESPEAKER_CHANNELS;
        let block = CaptureBlock { sequence, start_frame, frames, samples: shared_slice(samples) };
        match block.validate() {
            Ok(()) => Ok(block),
            Err(message) => Err(message),
        }
    }

    /// Requires that the product of the frame count and the channel count fits in a machine word,
    /// as it does for every block that `from_samples` makes.
    pub fn validate(&self) -> (result: Result<(), String>)
        requires
            self.frames * RESPEAKER_CHANNELS <= usize::MAX,
        ensures
            result is Ok <==> self.well_formed(),
            result matches Err(message) ==> message@ == length_mismatch_message(
                self.samples@.len(),
                self.frames as nat,
            ),
    {
        if self.samples.len() != self.frames * RESPEAKER_CHANNELS {
            let mut message = "CaptureBlock 长度不匹配: samples=".to_owned();
            push_decimal(&mut message, self.samples.len() as u64);
            message.append(", frames=");
            push_decimal(&mut message, self.frames as u64);
            message.append(", channels=");
            push_decimal(&mut message, RESPEAKER_CHANNELS as u64);
            return Err(message);
        }
        Ok(())
    }
}

/// Another handle to the same samples.
impl Clone for CaptureBlock {
    fn clone(&self) -> (copy: Self)
        ensures
            copy == *self,
    {
        CaptureBlock {
            sequence: self.sequence,
            start_frame: self.start_frame,
            frames: self.frames,
            samples: self.samples.clone(),
        }
    }
}

} // verus!

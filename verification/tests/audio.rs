use respeaker_algo::audio::{CaptureBlock, CAPTURE_QUEUE_CAPACITY, RESPEAKER_CHANNELS};
use std::sync::Arc;

#[test]
fn capture_block_validates_length() {
    let block = CaptureBlock::from_samples(0, 0, vec![0i16; 12]).unwrap();
    assert_eq!(block.frames, 2);
    block.validate().unwrap();
}

#[test]
fn capture_block_rejects_bad_length() {
    assert!(CaptureBlock::from_samples(0, 0, vec![0i16; 10]).is_err());
    let bad = CaptureBlock {
        sequence: 0,
        start_frame: 0,
        frames: 2,
        samples: Arc::from(vec![0i16; 10]),
    };
    assert!(bad.validate().is_err());
}

#[test]
fn capture_sequence_and_start_frame_are_contiguous() {
    let mut total_frames = 0u64;
    let packet_frames = [3usize, 5, 1];
    let mut blocks = Vec::new();
    for (sequence, &frames) in packet_frames.iter().enumerate() {
        let samples = vec![0i16; frames * RESPEAKER_CHANNELS];
        let block = CaptureBlock::from_samples(sequence as u64, total_frames, samples).unwrap();
        blocks.push(block);
        total_frames += frames as u64;
    }
    assert_eq!(blocks[0].sequence, 0);
    assert_eq!(blocks[0].start_frame, 0);
    assert_eq!(blocks[1].sequence, 1);
    assert_eq!(blocks[1].start_frame, 3);
    assert_eq!(blocks[2].sequence, 2);
    assert_eq!(blocks[2].start_frame, 8);
    assert_eq!(total_frames, 9);
}

#[test]
fn capture_queue_capacity_remains_128() {
    assert_eq!(CAPTURE_QUEUE_CAPACITY, 128);
}

#[test]
fn capture_block_messages_are_exact() {
    let error = CaptureBlock::from_samples(0, 0, vec![0i16; 10]).unwrap_err();
    assert_eq!(error, "采样块长度 10 不是 6 的整数倍");
    let bad = CaptureBlock {
        sequence: 0,
        start_frame: 0,
        frames: 2,
        samples: Arc::from(vec![0i16; 10]),
    };
    assert_eq!(
        bad.validate().unwrap_err(),
        "CaptureBlock 长度不匹配: samples=10, frames=2, channels=6"
    );
    let good = CaptureBlock::from_samples(3, 4, vec![1, 2, 3, 4, 5, 6]).unwrap();
    assert_eq!(good.samples.to_vec(), vec![1, 2, 3, 4, 5, 6]);
    let copy = good.clone();
    assert_eq!((copy.sequence, copy.start_frame, copy.frames), (3, 4, 1));
    assert_eq!(copy.samples.to_vec(), good.samples.to_vec());
}

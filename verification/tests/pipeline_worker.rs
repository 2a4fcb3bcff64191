use respeaker_algo::audio::{CaptureBlock, RESPEAKER_CHANNELS};
use respeaker_algo::beamformer::BeamformerStats;
use respeaker_algo::doa::HOP_SIZE;
use respeaker_algo::pipeline_worker::{
    push_admitted, push_result, PipelineHopAssembler, QueueDepth, SendOutcome, WorkerLoop,
    PIPELINE_QUEUE_CAPACITY,
};
use std::sync::mpsc::{sync_channel, SyncSender, TrySendError};

fn silent_block(sequence: u64, start_frame: u64, frames: usize) -> CaptureBlock {
    CaptureBlock::from_samples(
        sequence,
        start_frame,
        vec![0i16; frames * RESPEAKER_CHANNELS],
    )
    .unwrap()
}

fn counting_block(sequence: u64, start_frame: u64, frames: usize) -> CaptureBlock {
    let samples = (0..frames)
        .flat_map(|f| {
            (0..RESPEAKER_CHANNELS).map(move |c| ((start_frame as usize + f) * 6 + c) as i16)
        })
        .collect();
    CaptureBlock::from_samples(sequence, start_frame, samples).unwrap()
}

fn offer(tx: &SyncSender<CaptureBlock>, block: CaptureBlock) -> SendOutcome {
    match tx.try_send(block) {
        Ok(()) => SendOutcome::Sent,
        Err(TrySendError::Full(_)) => SendOutcome::Full,
        Err(TrySendError::Disconnected(_)) => SendOutcome::Disconnected,
    }
}

fn push(
    depth: &mut QueueDepth,
    tx: &SyncSender<CaptureBlock>,
    block: CaptureBlock,
) -> Result<(), String> {
    push_admitted(None, true)?;
    let reserved = depth.reserve();
    let outcome = offer(tx, block);
    depth.settle(reserved, outcome);
    push_result(outcome, None)
}

#[test]
fn hop_assembler_emits_exact_256_frame_blocks() {
    let mut assembler = PipelineHopAssembler::new();
    let hops = assembler.push_block(&silent_block(0, 0, 512));
    assert_eq!(hops.len(), 2);
    assert!(hops.iter().all(|h| h.frames == 256));
    assert_eq!(assembler.filled, 0);
}

#[test]
fn hop_assembler_is_capture_packet_size_independent() {
    let mut assembler = PipelineHopAssembler::new();
    let mut hops = Vec::new();
    let mut start = 0u64;
    for (seq, frames) in [100usize, 30, 200, 182].into_iter().enumerate() {
        hops.extend(assembler.push_block(&counting_block(seq as u64, start, frames)));
        start += frames as u64;
    }
    assert_eq!(start, 512);
    assert_eq!(hops.len(), 2);
    let whole = PipelineHopAssembler::new().push_block(&counting_block(0, 0, 512));
    for (a, b) in hops.iter().zip(&whole) {
        assert_eq!((a.start_frame, &a.algo, &a.mic, &a.reference), (
            b.start_frame,
            &b.algo,
            &b.mic,
            &b.reference
        ));
    }
    assert_eq!(hops[1].start_frame, 256);
    assert_eq!(hops[0].mic[4..8], [7, 8, 9, 10]);
}

#[test]
fn hop_assembler_emits_partial_tail_on_finish() {
    let mut assembler = PipelineHopAssembler::new();
    assert!(assembler.push_block(&silent_block(0, 0, 100)).is_empty());
    let tail = assembler.finish().unwrap();
    assert_eq!(tail.frames, 100);
    assert_eq!(tail.mic.len(), 400);
    assert!(assembler.finish().is_none());
}

#[test]
fn worker_rejects_sequence_gap() {
    let mut worker = WorkerLoop::new();
    worker.accept(&silent_block(0, 0, 16)).unwrap();
    let err = worker.accept(&silent_block(2, 16, 16)).unwrap_err();
    assert!(err.contains("不连续"), "{err}");
    assert_eq!(worker.conclude(false, Ok(()), None, 0).unwrap_err(), err);
}

#[test]
fn worker_rejects_start_frame_gap() {
    let mut worker = WorkerLoop::new();
    worker.accept(&silent_block(0, 0, 16)).unwrap();
    let err = worker.accept(&silent_block(1, 32, 16)).unwrap_err();
    assert!(err.contains("不连续"), "{err}");
    assert_eq!(
        err,
        "algorithm worker 收到不连续块: got seq=1 start=32, expected seq=1 start=16"
    );
    assert!(worker.conclude(false, Ok(()), None, 0).is_err());
}

#[test]
fn worker_processing_error_is_visible_before_finish() {
    let mut worker = WorkerLoop::new();
    worker.accept(&silent_block(0, 0, 16)).unwrap();
    let expected = worker.accept(&silent_block(2, 16, 16)).unwrap_err();
    let push_error = push_admitted(worker.first_error.as_ref(), true).unwrap_err();
    assert_eq!(push_error, expected);
    assert!(push_error.contains("不连续"), "{push_error}");
    assert!(worker.finish_input().is_none());
    assert_eq!(worker.conclude(false, Ok(()), None, 0).unwrap_err(), expected);
}

#[test]
fn worker_returns_beamformer_stats() {
    let mut worker = WorkerLoop::new();
    let hops = worker.accept(&silent_block(0, 0, HOP_SIZE)).unwrap();
    assert_eq!(hops.len(), 1);
    worker.hop_processed();
    let bf = BeamformerStats { input_frames: HOP_SIZE as u64, ..BeamformerStats::default() };
    let stats = worker.conclude(false, Ok(()), Some(bf), 1).unwrap();
    let bf_stats = stats.bf_stats.unwrap();
    assert_eq!(bf_stats.input_frames, HOP_SIZE as u64);
    assert_eq!((stats.processed_hops, stats.input_frames, stats.capture_blocks), (1, 256, 1));
    assert_eq!(stats.max_queue_depth, 1);
}

#[test]
fn pipeline_try_push_reports_full() {
    let (tx, _rx) = sync_channel::<CaptureBlock>(1);
    let mut depth = QueueDepth::new();
    push(&mut depth, &tx, silent_block(0, 0, 1)).unwrap();
    let err = push(&mut depth, &tx, silent_block(1, 1, 1)).unwrap_err();
    assert!(err.contains("overrun"), "{err}");
    assert_eq!(depth.depth, 1);
}

#[test]
fn queue_depth_preincrement_rolls_back_on_full() {
    let (tx, _rx) = sync_channel::<CaptureBlock>(1);
    let mut depth = QueueDepth::new();
    push(&mut depth, &tx, silent_block(0, 0, 1)).unwrap();
    assert!(push(&mut depth, &tx, silent_block(1, 1, 1)).is_err());
    assert_eq!(depth.depth, 1);
    assert_eq!(depth.max, 1);
}

#[test]
fn queue_depth_preincrement_rolls_back_on_disconnect() {
    let (tx, rx) = sync_channel::<CaptureBlock>(1);
    drop(rx);
    let mut depth = QueueDepth::new();
    assert!(push(&mut depth, &tx, silent_block(0, 0, 1)).is_err());
    assert_eq!(depth.depth, 0);
}

#[test]
fn queue_depth_never_underflows_when_receiver_runs_immediately() {
    let (tx, rx) = sync_channel::<CaptureBlock>(1);
    let mut depth = QueueDepth::new();
    push(&mut depth, &tx, silent_block(0, 0, 1)).unwrap();
    let block = rx.recv().unwrap();
    assert!(depth.depth > 0);
    depth.received();
    assert_eq!(block.sequence, 0);
    assert_eq!(depth.depth, 0);
    assert!(depth.max <= 2);
}

#[test]
fn close_input_does_not_block_waiting_for_worker() {
    let mut worker = WorkerLoop::new();
    let hops = worker.accept(&silent_block(0, 0, 256)).unwrap();
    for _ in &hops {
        worker.hop_processed();
    }
    assert_eq!(push_admitted(None, false).unwrap_err(), "Pipeline input closed");
    assert!(worker.finish_input().is_none());
    let stats = worker.conclude(false, Ok(()), None, 1).unwrap();
    assert!(stats.processed_hops >= 1);
}

#[test]
fn worker_counts_the_last_hop_and_keeps_the_first_error() {
    let mut worker = WorkerLoop::new();
    worker.accept(&silent_block(0, 0, 300)).unwrap();
    worker.hop_processed();
    assert_eq!(worker.finish_input().unwrap().frames, 44);
    assert_eq!(worker.conclude(true, Ok(()), None, 3).unwrap().processed_hops, 2);
    let mut worker = WorkerLoop::new();
    worker.fail("a".into());
    worker.fail("b".into());
    assert_eq!(worker.conclude(false, Err("c".into()), None, 0).unwrap_err(), "a");
    assert_eq!(
        WorkerLoop::new().conclude(false, Err("c".into()), None, 0).unwrap_err(),
        "c"
    );
}

#[test]
fn errors_of_the_worker_go_before_those_of_the_queue() {
    let error = "worker".to_string();
    assert_eq!(push_result(SendOutcome::Full, Some(&error)).unwrap_err(), "worker");
    assert_eq!(push_result(SendOutcome::Disconnected, Some(&error)).unwrap_err(), "worker");
    assert_eq!(
        push_result(SendOutcome::Disconnected, None).unwrap_err(),
        "pipeline worker disconnected"
    );
    assert!(push_result(SendOutcome::Sent, Some(&error)).is_ok());
    assert_eq!(PIPELINE_QUEUE_CAPACITY, 32);
}

#[test]
fn a_block_may_be_counted_off_before_its_sender_settles_it() {
    let (tx, rx) = sync_channel::<CaptureBlock>(1);
    let mut depth = QueueDepth::new();
    let reserved = depth.reserve();
    assert_eq!((reserved, depth.depth), (1, 1));
    let outcome = offer(&tx, silent_block(0, 0, 1));
    rx.recv().unwrap();
    depth.received();
    depth.settle(reserved, outcome);
    assert_eq!((depth.depth, depth.max), (0, 1));
}

#[test]
fn a_worker_that_ended_its_input_may_still_fail() {
    let mut worker = WorkerLoop::new();
    worker.accept(&silent_block(0, 0, 300)).unwrap();
    worker.hop_processed();
    assert!(worker.finish_input().is_some());
    assert_eq!(worker.assembler.filled, 0);
    assert_eq!((worker.expected_sequence, worker.expected_start_frame), (1, 300));
    worker.fail("last".into());
    assert_eq!(worker.conclude(false, Ok(()), None, 0).unwrap_err(), "last");
}

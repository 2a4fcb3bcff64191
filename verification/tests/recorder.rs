use respeaker_algo::app_config::{AppConfig, RecordingConfig};
use respeaker_algo::audio::{CaptureBlock, CAPTURE_QUEUE_CAPACITY};
use respeaker_algo::events::ErrorSource;
use respeaker_algo::pipeline::PipelineConfig;
use respeaker_algo::pipeline_worker::{push_result, PipelineWorkerStats, SendOutcome};
use respeaker_algo::recorder::{
    append_err, classify_error, default_prefix, finish_manifest, local_time, mark_recording,
    new_session_id, prepare_recording, progress_due, recording_result, session_id_of,
    split_6ch_into, split_block, startup_cleanup, startup_failure, startup_source, time_limit,
    write_failed, LoopResult, PipelineDispatchState, RecordingLoop, RecordingRequest, RequestError,
    SplitOutputs, StartupStage,
};
use respeaker_algo::recordings::{
    validate_session_id, FileStat, SessionManifest, SessionResultStatus,
};
use respeaker_algo::wav::{Patch, WavSink};
use std::io::Cursor;

/// A file in memory, written the way the service writes one.
struct MemoryFile {
    sink: WavSink,
    bytes: Vec<u8>,
}

impl MemoryFile {
    fn new(channels: u16) -> Self {
        let (sink, bytes) = WavSink::create(channels, 16_000);
        MemoryFile { sink, bytes }
    }

    fn write(&mut self, samples: &[i16]) {
        self.sink.write_samples(samples, &mut self.bytes);
    }

    fn finalize(&mut self) -> Result<(), String> {
        let patches: Vec<Patch> = self.sink.finalize()?;
        for patch in patches {
            let at = patch.offset as usize;
            self.bytes[at..at + patch.bytes.len()].copy_from_slice(&patch.bytes);
        }
        self.sink.mark_finalized();
        Ok(())
    }

    fn samples(&self) -> Vec<i16> {
        hound::WavReader::new(Cursor::new(&self.bytes))
            .unwrap()
            .samples::<i16>()
            .map(Result::unwrap)
            .collect()
    }
}

fn out() -> SplitOutputs {
    SplitOutputs::new("dir", "t")
}

fn stats() -> PipelineWorkerStats {
    PipelineWorkerStats { capture_blocks: 3, ..PipelineWorkerStats::default() }
}

#[test]
fn split_6ch_into_works() {
    let samples: Vec<i16> = (0..12).collect();
    let mut algo = Vec::new();
    let mut mic = Vec::new();
    let mut reference = Vec::new();
    split_6ch_into(&samples, &mut algo, &mut mic, &mut reference).unwrap();
    assert_eq!(algo, vec![0, 6]);
    assert_eq!(mic, vec![1, 2, 3, 4, 7, 8, 9, 10]);
    assert_eq!(reference, vec![5, 11]);
}

#[test]
fn split_6ch_into_rejects_non_multiple_of_6() {
    let samples: Vec<i16> = (0..14).collect();
    let mut algo = Vec::new();
    let mut mic = Vec::new();
    let mut reference = Vec::new();
    assert!(split_6ch_into(&samples, &mut algo, &mut mic, &mut reference).is_err());
}

#[test]
fn default_prefix_format() {
    let prefix = default_prefix();
    assert_eq!(prefix.len(), 15);
    assert_eq!(&prefix[8..9], "_");
    assert!(prefix
        .chars()
        .enumerate()
        .all(|(i, c)| c.is_ascii_digit() || (i == 8 && c == '_')));
    let number = |from: usize| prefix[from..from + 2].parse::<u32>().unwrap();
    assert!((1..=12).contains(&number(4)) && (1..=31).contains(&number(6)), "{prefix}");
    assert!(number(9) < 24 && number(11) < 60 && number(13) < 60, "{prefix}");
}

#[test]
fn pipeline_full_disables_pipeline_but_raw_recording_continues() {
    let (mut algo, mut mic, mut reference) =
        (MemoryFile::new(1), MemoryFile::new(4), MemoryFile::new(1));
    let mut recording = RecordingLoop::new(true);
    for sequence in 0..3u64 {
        let value = sequence as i16 + 1;
        let block = CaptureBlock::from_samples(sequence, sequence, vec![value; 6]).unwrap();
        let split = split_block(&block).unwrap();
        algo.write(&split.algo);
        mic.write(&split.mic);
        reference.write(&split.reference);
        if recording.pipeline_active() {
            let outcome = if sequence == 0 { SendOutcome::Sent } else { SendOutcome::Full };
            let report = recording.pushed(push_result(outcome, None));
            assert_eq!(report.is_some(), sequence == 1);
        }
        recording.block_written(Ok(()), block.frames);
        if sequence == 0 {
            assert!(matches!(recording.dispatch, PipelineDispatchState::Active));
        } else {
            assert!(matches!(recording.dispatch, PipelineDispatchState::Failed { .. }));
        }
    }
    assert!(!recording.draining);
    assert!(recording.first_error.is_none());
    assert_eq!(recording.frames, 3);
    recording.finalize_raw_wav_writers(
        &out(),
        algo.finalize(),
        mic.finalize(),
        reference.finalize(),
    );
    assert_eq!(algo.samples(), vec![1, 2, 3]);
    assert_eq!(mic.samples(), vec![1, 1, 1, 1, 2, 2, 2, 2, 3, 3, 3, 3]);
    assert_eq!(reference.samples(), vec![1, 2, 3]);
    recording.finish_pipeline(Ok(stats()));
    assert_eq!(recording.first_error.as_deref(), Some("Pipeline queue overrun"));
}

#[test]
fn pipeline_failure_is_returned_after_raw_wavs_are_finalized() {
    let mut algo = MemoryFile::new(1);
    algo.write(&[1, 2]);
    let mut recording = RecordingLoop::new(true);
    recording.pushed(Err("synthetic pipeline error".into()));
    recording.finalize_raw_wav_writers(&out(), algo.finalize(), Ok(()), Ok(()));
    assert_eq!(algo.samples(), vec![1, 2]);
    assert!(recording.first_error.is_none());
    recording.finish_pipeline(Ok(stats()));
    assert_eq!(recording.first_error.as_deref(), Some("synthetic pipeline error"));
}

#[test]
fn pipeline_worker_error_is_not_duplicated_at_finish() {
    let error = "algorithm worker 收到不连续块";
    let mut recording = RecordingLoop::new(true);
    recording.pushed(Err(error.into()));
    let report = recording.finish_pipeline(Err(error.into()));
    assert_eq!(recording.first_error.as_deref(), Some(error));
    assert!(report.error.is_none() && report.status.is_none() && report.stats.is_none());
}

#[test]
fn pipeline_disconnect_disables_pipeline_but_raw_recording_continues() {
    let mut recording = RecordingLoop::new(true);
    let mut algo = MemoryFile::new(1);
    for i in 0..3u64 {
        let block = CaptureBlock::from_samples(i, i, vec![i as i16; 6]).unwrap();
        algo.write(&split_block(&block).unwrap().algo);
        if recording.pipeline_active() {
            recording.pushed(push_result(SendOutcome::Disconnected, None));
        }
        recording.block_written(Ok(()), block.frames);
    }
    assert!(matches!(recording.dispatch, PipelineDispatchState::Failed { .. }));
    assert!(!recording.draining);
    recording.finalize_raw_wav_writers(&out(), algo.finalize(), Ok(()), Ok(()));
    assert_eq!(algo.samples(), vec![0, 1, 2]);
    recording.finish_pipeline(Ok(stats()));
    assert!(recording.first_error.unwrap().contains("disconnected"));
}

#[test]
fn raw_write_error_stops_capture_and_finalizes_headers_best_effort() {
    let out = out();
    let (mut algo, mut mic, mut reference) =
        (MemoryFile::new(1), MemoryFile::new(4), MemoryFile::new(1));
    let mut recording = RecordingLoop::new(false);
    let block = CaptureBlock::from_samples(0, 0, vec![7i16; 6]).unwrap();
    algo.write(&split_block(&block).unwrap().algo);
    let action = recording.block_written(Err(write_failed(&out.mic, "synthetic")), block.frames);
    assert!(action.set_stop && action.notify_stopping);
    assert!(recording.draining);
    assert_eq!(recording.frames, 0);
    assert!(recording.first_error.as_ref().unwrap().contains(&out.mic));
    recording.finalize_raw_wav_writers(
        &out,
        algo.finalize(),
        mic.finalize(),
        reference.finalize(),
    );
    assert_eq!(algo.samples(), vec![7]);
    assert!(mic.samples().is_empty());
    assert!(reference.samples().is_empty());
}

#[test]
fn no_pipeline_config_creates_no_algorithm_outputs() {
    let mut recording = RecordingLoop::new(false);
    assert!(!recording.pipeline_active());
    assert!(recording.pushed(Err("nobody".into())).is_none());
    let report = recording.finish_pipeline(Ok(stats()));
    assert!(report.stats.is_none() && report.error.is_none());
    assert!(recording.first_error.is_none());
    let names = respeaker_algo::recordings::target_paths_for_session("n", &AppConfig::default());
    assert!(!names.iter().any(|n| n.contains("_bf.wav") || n.contains("_doa.csv")));
}

#[test]
fn capture_queue_capacity_constant() {
    assert_eq!(CAPTURE_QUEUE_CAPACITY, 128);
}

#[test]
fn buffers_stay_when_a_block_is_refused() {
    let (mut algo, mut mic, mut reference) = (vec![1], vec![2], vec![3]);
    let error = split_6ch_into(&[0; 7], &mut algo, &mut mic, &mut reference).unwrap_err();
    assert_eq!(error, "采样块长度 7 不是 6 的整数倍");
    assert_eq!((algo, mic, reference), (vec![1], vec![2], vec![3]));
}

#[test]
fn every_sample_is_kept_in_one_place() {
    let samples: Vec<i16> = (0..60).collect();
    let (mut algo, mut mic, mut reference) = (vec![], vec![], vec![]);
    split_6ch_into(&samples, &mut algo, &mut mic, &mut reference).unwrap();
    for frame in 0..10 {
        assert_eq!(algo[frame], samples[6 * frame]);
        assert_eq!(mic[4 * frame..4 * frame + 4], samples[6 * frame + 1..6 * frame + 5]);
        assert_eq!(reference[frame], samples[6 * frame + 5]);
    }
    assert_eq!(algo.len() + mic.len() + reference.len(), samples.len());
}

#[test]
fn errors_are_strung_together() {
    let mut first = None;
    append_err(&mut first, Ok(()));
    assert_eq!(first, None);
    append_err(&mut first, Err("a".into()));
    append_err(&mut first, Ok(()));
    append_err(&mut first, Err("b".into()));
    assert_eq!(first.as_deref(), Some("a; b"));
}

#[test]
fn a_deadline_stops_the_capture_once() {
    let mut recording = RecordingLoop::new(false);
    let action = recording.begin_turn(false, false);
    assert!(!action.set_stop && !recording.draining);
    let action = recording.begin_turn(false, true);
    assert!(action.set_stop && action.notify_stopping && recording.draining);
    let action = recording.begin_turn(true, true);
    assert!(!action.set_stop && !action.notify_stopping);
    // A stop that was asked for is not announced by the loop itself.
    let mut recording = RecordingLoop::new(false);
    let action = recording.begin_turn(true, false);
    assert!(recording.draining && !action.set_stop && recording.stopping_pending);
    // An error of the capture is announced when it ends, and then not again.
    assert!(recording.disconnected(Err("WASAPI".into())));
    assert!(!recording.disconnected(Ok(())));
    let (result, notify) = recording.conclude(Err("again".into()), None);
    assert!(!notify);
    assert_eq!(result.error.as_deref(), Some("WASAPI; again"));
    assert_eq!(result.error_source, ErrorSource::Capture);
}

#[test]
fn only_capture_and_file_errors_are_announced_at_the_end() {
    let mut recording = RecordingLoop::new(true);
    recording.pushed(Err("Pipeline queue overrun".into()));
    recording.finish_pipeline(Ok(stats()));
    let (result, notify) = recording.conclude(Ok(()), Some(stats()));
    assert!(!notify);
    assert_eq!(result.error_source, ErrorSource::Pipeline);
    assert_eq!(result.pipeline_stats, Some(stats()));
    let mut recording = RecordingLoop::new(false);
    recording.finalize_raw_wav_writers(&out(), Ok(()), Err("full".into()), Ok(()));
    let (result, notify) = recording.conclude(Ok(()), None);
    assert!(notify);
    assert_eq!(result.error.as_deref(), Some("完成 dir/t_respeaker_mic.wav 失败: full"));
    assert_eq!(result.error_source, ErrorSource::RawWav);
    let (result, notify) = RecordingLoop::new(false).conclude(Ok(()), None);
    assert!(!notify && result.error.is_none());
}

#[test]
fn reports_tell_what_failed() {
    let mut recording = RecordingLoop::new(true);
    let report = recording.pushed(Err("late".into())).unwrap();
    assert_eq!(report.error.code, "pipeline_degraded");
    assert_eq!(report.error.source, ErrorSource::Pipeline);
    assert_eq!(report.status.error.as_deref(), Some("late"));
    assert!(report.status.enabled && report.status.degraded);
    let finish = recording.finish_pipeline(Err("other".into()));
    assert_eq!(finish.error.unwrap().code, "pipeline_failed");
    assert_eq!(finish.status.unwrap().error.as_deref(), Some("late"));
    assert_eq!(recording.first_error.as_deref(), Some("late; other"));
    let mut recording = RecordingLoop::new(true);
    let finish = recording.finish_pipeline(Err("worker".into()));
    assert_eq!(finish.error.unwrap().message, "worker");
    assert!(finish.status.is_none());
    assert_eq!(RecordingLoop::new(true).finish_pipeline(Ok(stats())).stats, Some(stats()));
}

#[test]
fn sources_follow_the_text() {
    assert_eq!(classify_error("Pipeline x.wav"), ErrorSource::Pipeline);
    assert_eq!(classify_error("a.Wav"), ErrorSource::RawWav);
    assert_eq!(classify_error(""), ErrorSource::Capture);
}

fn request(prefix: Option<&str>, session: &str) -> RecordingRequest {
    RecordingRequest {
        recording: RecordingConfig {
            prefix: prefix.map(str::to_string),
            ..RecordingConfig::default()
        },
        pipeline: None,
        session_id: session.into(),
    }
}

#[test]
fn requests_are_checked_before_anything_is_written() {
    let prepared = prepare_recording(&request(None, "s"), "20260101_000000".into()).unwrap();
    assert_eq!(prepared.prefix, "20260101_000000");
    assert_eq!(prepared.out_dir, "recordings");
    assert!(!prepared.config.pipeline_enabled);
    let prepared = prepare_recording(&request(Some("mine"), "s"), "x".into()).unwrap();
    assert_eq!(prepared.prefix, "mine");
    assert!(matches!(
        prepare_recording(&request(None, "a b"), "x".into()),
        Err(RequestError::SessionId(_))
    ));
    assert!(matches!(
        prepare_recording(&request(None, "s"), "a+b".into()),
        Err(RequestError::Prefix(_))
    ));
    let mut bad = request(None, "a b");
    bad.recording.out_dir = " ".into();
    assert!(matches!(
        prepare_recording(&bad, "x".into()),
        Err(RequestError::Recording(_))
    ));
    let mut bad = request(None, "a b");
    bad.pipeline = Some(PipelineConfig { version: 7, modules: vec![] });
    assert!(matches!(
        prepare_recording(&bad, "x".into()),
        Err(RequestError::Pipeline(_))
    ));
    let mut good = request(None, "s");
    good.pipeline = Some(PipelineConfig::empty());
    assert!(prepare_recording(&good, "x".into()).unwrap().config.pipeline_enabled);
}

#[test]
fn session_ids_hold_the_time_and_the_number() {
    assert_eq!(session_id_of("20260101120000", 12), "session-20260101120000-12");
    let id = new_session_id(7);
    assert!(id.starts_with("session-") && id.ends_with("-7"), "{id}");
    assert_eq!(id.len(), "session-".len() + 14 + 2);
    assert!(id["session-".len().."session-".len() + 14].chars().all(|c| c.is_ascii_digit()));
    assert!(validate_session_id(&id).is_ok());
    assert_ne!(new_session_id(1), new_session_id(2));
}

#[test]
fn paths_of_raw_files() {
    let out = SplitOutputs::new("d", "p");
    assert_eq!(out.algo, "d/p_respeaker_algo.wav");
    assert_eq!(out.mic, "d/p_respeaker_mic.wav");
    assert_eq!(out.reference, "d/p_respeaker_ref.wav");
}

#[test]
fn progress_and_length() {
    assert!(!progress_due(199));
    assert!(progress_due(200));
    assert_eq!(time_limit(&RecordingConfig::default()), None);
    let five = RecordingConfig { duration_seconds: 5, ..RecordingConfig::default() };
    assert_eq!(time_limit(&five), Some(5));
}

#[test]
fn startup_closes_what_it_opened() {
    let opened = |stage| {
        let c = startup_cleanup(stage);
        (c.complete_files, c.finish_pipeline, c.stop_capture)
    };
    assert_eq!(opened(StartupStage::Device), (false, false, false));
    assert_eq!(opened(StartupStage::RawFiles), (false, false, false));
    assert_eq!(opened(StartupStage::Pipeline), (true, false, false));
    assert_eq!(opened(StartupStage::Capture), (true, true, false));
    assert_eq!(opened(StartupStage::Manifest), (true, true, true));
    assert_eq!(startup_source(StartupStage::Device), ErrorSource::Device);
    assert_eq!(startup_source(StartupStage::RawFiles), ErrorSource::RawWav);
    assert_eq!(startup_source(StartupStage::Pipeline), ErrorSource::Pipeline);
    assert_eq!(startup_source(StartupStage::Capture), ErrorSource::Capture);
    assert_eq!(startup_source(StartupStage::Manifest), ErrorSource::RawWav);
}

#[test]
fn manifests_follow_the_recording() {
    let files = [FileStat { bytes: 1, exists: true }; 6];
    let new = || SessionManifest::new("s".into(), "p".into(), "t".into(), AppConfig::default());
    let mut manifest = new();
    mark_recording(&mut manifest, &files);
    assert_eq!(manifest.status, SessionResultStatus::Recording);
    assert_eq!(manifest.files.len(), 6);
    let result = LoopResult {
        captured_frames: 5,
        pipeline_stats: Some(stats()),
        error: None,
        error_source: ErrorSource::Capture,
    };
    finish_manifest(&mut manifest, &result, "t1".into(), &files);
    assert_eq!(manifest.status, SessionResultStatus::Success);
    assert_eq!(manifest.captured_frames, 5);
    assert_eq!(manifest.finished_at.as_deref(), Some("t1"));
    assert!(manifest.error.is_none());
    let summary = recording_result(&manifest, "d", None, None).unwrap();
    assert_eq!((summary.prefix.as_str(), summary.out_dir.as_str()), ("p", "d"));
    assert_eq!(summary.pipeline_stats, Some(stats()));
    assert_eq!(
        recording_result(&manifest, "d", None, Some("save".into())).unwrap_err(),
        "save"
    );
    assert_eq!(
        recording_result(&manifest, "d", Some("lost".into()), Some("save".into())).unwrap_err(),
        "lost"
    );
    let failed = LoopResult { error: Some("lost".into()), ..result };
    finish_manifest(&mut manifest, &failed, "t2".into(), &files);
    assert_eq!(manifest.status, SessionResultStatus::Failed);
    assert_eq!(manifest.error.as_ref().unwrap().code, "recording_failed");
    let mut manifest = new();
    let report =
        startup_failure(&mut manifest, StartupStage::Device, "none", "t1".into(), &files);
    assert_eq!(manifest.status, SessionResultStatus::Failed);
    assert_eq!(report.code, "startup_failed");
    assert_eq!(report.source, ErrorSource::Device);
    assert_eq!(manifest.error.unwrap().message, "none");
}

#[test]
fn modules_that_failed_stay_off_and_are_reported_at_the_end() {
    let mut recording = RecordingLoop::new(true);
    recording.block_written(Ok(()), 16);
    assert!(recording.pushed(Err("first".into())).is_some());
    assert!(recording.pushed(Err("second".into())).is_none());
    assert!(recording.pushed(Ok(())).is_none());
    assert!(!recording.pipeline_active());
    recording.block_written(Ok(()), 16);
    assert_eq!((recording.frames, recording.draining), (32, false));
    assert!(recording.first_error.is_none());
    recording.finish_pipeline(Ok(stats()));
    assert_eq!(recording.first_error.as_deref(), Some("first"));
}

#[test]
fn times_are_written_with_date_and_offset() {
    let time = local_time();
    assert!(time.len() >= 25, "{time}");
    assert_eq!(&time[4..5], "-");
    assert_eq!(&time[10..11], "T");
    assert_eq!(&time[time.len() - 3..time.len() - 2], ":");
    assert!(time.chars().all(|c| c.is_ascii_digit() || "-+:.T".contains(c)), "{time}");
    let number = |from: usize| time[from..from + 2].parse::<u32>().unwrap();
    assert!((1..=12).contains(&number(5)) && (1..=31).contains(&number(8)), "{time}");
    assert!(number(11) < 24 && number(14) < 60 && number(17) < 60, "{time}");
}

#[test]
fn the_error_of_the_modules_goes_before_later_ones() {
    let mut recording = RecordingLoop::new(true);
    recording.pushed(Err("Pipeline queue overrun".into()));
    recording.disconnected(Err("join".into()));
    recording.finalize_raw_wav_writers(&out(), Ok(()), Err("disk".into()), Ok(()));
    assert_eq!(recording.first_error.as_deref(), Some("join; 完成 dir/t_respeaker_mic.wav 失败: disk"));
    recording.finish_pipeline(Err("Pipeline csv".into()));
    let (result, _) = recording.conclude(Err("stop".into()), None);
    assert_eq!(
        result.error.as_deref(),
        Some(
            "Pipeline queue overrun; join; 完成 dir/t_respeaker_mic.wav 失败: disk; Pipeline csv; stop"
        )
    );
    let mut recording = RecordingLoop::new(true);
    recording.disconnected(Err("join".into()));
    recording.finish_pipeline(Err("worker".into()));
    assert_eq!(recording.first_error.as_deref(), Some("join; worker"));
}

use respeaker_algo::beamformer::BeamformerStats;
use respeaker_algo::events::{
    BeamformerStatsDto, DeviceSnapshot, ErrorSource, EventBus, PipelineSnapshot,
    RecordingSnapshot, ServiceError, ServicePhase, ServiceSnapshot,
};
use respeaker_algo::single::Double;

fn d(value: f64) -> Double {
    Double { bits: value.to_bits() }
}

fn recording(session: &str) -> Option<RecordingSnapshot> {
    Some(RecordingSnapshot { session_id: session.into(), ..RecordingSnapshot::default() })
}

#[test]
fn runtime_events_update_snapshot_cache() {
    let mut bus = EventBus::new();
    bus.set_snapshot(ServiceSnapshot {
        recording: recording("session-1"),
        ..ServiceSnapshot::default()
    });
    bus.publish_recording_progress(d(1.25), 20_000, d(20_000.0 / 16_000.0));
    assert_eq!(bus.latest_snapshot().recording.unwrap().captured_frames, 20_000);
    bus.publish_pipeline_status(&PipelineSnapshot {
        enabled: true,
        degraded: true,
        error: Some("worker failed".into()),
        ..PipelineSnapshot::default()
    });
    let snapshot = bus.latest_snapshot();
    assert!(snapshot.pipeline.degraded);
    assert_eq!(snapshot.pipeline.error.as_deref(), Some("worker failed"));
}

#[test]
fn state_snapshot_preserves_progress_for_same_session() {
    let mut bus = EventBus::new();
    bus.set_snapshot(ServiceSnapshot {
        recording: recording("session-1"),
        ..ServiceSnapshot::default()
    });
    bus.publish_recording_progress(d(1.25), 20_000, d(1.25));
    bus.set_snapshot(ServiceSnapshot {
        phase: ServicePhase::Recording { session_id: "session-1".into() },
        recording: recording("session-1"),
        ..ServiceSnapshot::default()
    });
    let recording = bus.latest_snapshot().recording.unwrap();
    assert_eq!(recording.captured_frames, 20_000);
    assert_eq!(recording.elapsed_secs, d(1.25));
}

#[test]
fn progress_of_another_session_is_not_kept() {
    let mut bus = EventBus::new();
    bus.set_snapshot(ServiceSnapshot { recording: recording("a"), ..ServiceSnapshot::default() });
    bus.publish_recording_progress(d(2.0), 7, d(0.0));
    bus.set_snapshot(ServiceSnapshot { recording: recording("b"), ..ServiceSnapshot::default() });
    assert_eq!(bus.latest_snapshot().recording.unwrap().captured_frames, 0);
    bus.publish_recording_progress(d(2.0), 9, d(0.0));
    bus.set_snapshot(ServiceSnapshot::default());
    assert!(bus.latest_snapshot().recording.is_none());
    bus.publish_recording_progress(d(2.0), 9, d(0.0));
    assert!(bus.latest_snapshot().recording.is_none());
}

#[test]
fn degraded_stays_until_a_session_starts() {
    let mut bus = EventBus::new();
    let error = ServiceError::new(ErrorSource::Pipeline, "pipeline_degraded", "late".into());
    bus.publish_error(&error);
    bus.publish_doa(12);
    bus.set_snapshot(ServiceSnapshot::default());
    let shown = bus.latest_snapshot();
    assert!(shown.pipeline.degraded);
    assert_eq!(shown.pipeline.error.as_deref(), Some("late"));
    assert_eq!(shown.pipeline.doa_count, Some(12));
    assert!(shown.last_error.is_none());
    bus.set_snapshot(ServiceSnapshot {
        phase: ServicePhase::Starting { session_id: "s".into() },
        ..ServiceSnapshot::default()
    });
    let shown = bus.latest_snapshot();
    assert!(!shown.pipeline.degraded);
    assert!(shown.pipeline.error.is_none());
    assert!(shown.pipeline.doa_count.is_none());
}

#[test]
fn other_errors_do_not_degrade() {
    let mut bus = EventBus::new();
    bus.publish_error(&ServiceError::new(ErrorSource::Device, "gone", "no device".into()));
    let shown = bus.latest_snapshot();
    assert!(!shown.pipeline.degraded);
    let error = shown.last_error.unwrap();
    assert_eq!((error.code.as_str(), error.message.as_str()), ("gone", "no device"));
    assert_eq!(error.source, ErrorSource::Device);
    assert!(error.field.is_none());
}

#[test]
fn events_are_numbered_one_by_one() {
    let mut bus = EventBus::new();
    assert_eq!(bus.publish(), 1);
    assert_eq!(bus.set_snapshot(ServiceSnapshot { revision: 77, ..ServiceSnapshot::default() }), 2);
    let (seq, snapshot) = bus.snapshot_envelope();
    assert_eq!((seq, snapshot.revision), (3, 77));
    assert_eq!(bus.publish_device_status(&DeviceSnapshot::default()), 4);
    assert_eq!(bus.publish_doa(1), 5);
    bus.seq = u64::MAX;
    assert_eq!(bus.publish(), 0);
}

#[test]
fn statuses_without_counts_leave_the_counts() {
    let mut bus = EventBus::new();
    let stats = BeamformerStats {
        input_frames: 1,
        output_frames: 2,
        stft_frames: 3,
        clipped_samples: 4,
        ..BeamformerStats::default()
    };
    bus.publish_bf_stats(&stats);
    bus.publish_doa(5);
    bus.publish_pipeline_status(&PipelineSnapshot { enabled: true, ..PipelineSnapshot::default() });
    let shown = bus.latest_snapshot().pipeline;
    assert!(shown.enabled && !shown.degraded && shown.error.is_none());
    assert_eq!(shown.doa_count, Some(5));
    assert_eq!(
        shown.bf_stats,
        Some(BeamformerStatsDto {
            input_frames: 1,
            output_frames: 2,
            stft_frames: 3,
            clipped_samples: 4,
        })
    );
    bus.publish_pipeline_status(&PipelineSnapshot {
        doa_count: Some(9),
        ..PipelineSnapshot::default()
    });
    assert_eq!(bus.latest_snapshot().pipeline.doa_count, Some(9));
}

#[test]
fn announcing_a_state_twice_is_announcing_it_once() {
    let mut bus = EventBus::new();
    bus.publish_doa(3);
    let state = ServiceSnapshot { recording: recording("a"), ..ServiceSnapshot::default() };
    bus.set_snapshot(state.clone());
    let once = format!("{:?}", bus.latest_snapshot());
    bus.set_snapshot(state);
    assert_eq!(format!("{:?}", bus.latest_snapshot()), once);
}

#[test]
fn sources_have_names() {
    let names: Vec<&str> = [
        ErrorSource::Config,
        ErrorSource::Device,
        ErrorSource::Capture,
        ErrorSource::RawWav,
        ErrorSource::Pipeline,
        ErrorSource::Web,
    ]
    .iter()
    .map(|s| s.name())
    .collect();
    assert_eq!(names, ["config", "device", "capture", "raw_wav", "pipeline", "web"]);
}

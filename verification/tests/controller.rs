use respeaker_algo::app_config::{AppConfig, AppConfigError, RecordingConfig};
use respeaker_algo::controller::{
    recording_error_source, recording_request, session_matches, Announcement, Controller,
    ImportError, PrefixSearch, ProfileSource, SearchStep, SessionNumbers, StartError,
};
use respeaker_algo::events::{
    ErrorSource, EventBus, ServiceError, ServicePhase, ServiceSnapshot,
};
use respeaker_algo::recorder::RecordingSummary;

fn controller() -> Controller {
    Controller::new(AppConfig::default(), None).unwrap()
}

fn summary(id: &str) -> RecordingSummary {
    RecordingSummary {
        session_id: id.into(),
        prefix: "test".into(),
        out_dir: "recordings".into(),
        captured_frames: 0,
        pipeline_stats: None,
        bf_stats: None,
    }
}

fn start(c: &mut Controller, id: &str) -> ServiceSnapshot {
    let config = c.begin_start().unwrap();
    c.session_started(id, "p", &config, "t0".into())
}

fn state(announcement: &Announcement) -> &ServiceSnapshot {
    match announcement {
        Announcement::State(s) => s,
        other => panic!("{other:?}"),
    }
}

#[test]
fn stop_is_idempotent_in_stopping_phase() {
    let mut c = controller();
    start(&mut c, "s");
    c.session_stopping("s");
    assert!(matches!(c.snapshot.phase, ServicePhase::Stopping { .. }));
    let revision = c.snapshot.revision;
    let action = c.stop().unwrap();
    assert!(!action.set_stop);
    assert!(action.announcement.is_none());
    assert_eq!(c.snapshot.revision, revision);
}

#[test]
fn session_matching_only_accepts_active_phases() {
    assert!(!session_matches(&ServicePhase::Idle, "s"));
    assert!(session_matches(
        &ServicePhase::Recording {
            session_id: "s".into()
        },
        "s"
    ));
}

#[test]
fn start_conflict_stop_idempotent_and_second_session() {
    let mut c = controller();
    for id in ["one", "two"] {
        let snapshot = start(&mut c, id);
        assert!(matches!(snapshot.phase, ServicePhase::Starting { .. }));
        match c.begin_start() {
            Err(StartError::Conflict(message)) => {
                assert_eq!(message, "conflict:当前已有录音 session");
                assert!(message.starts_with("conflict:"));
            }
            other => panic!("{other:?}"),
        }
        let said = c.session_ready(id, Ok(()));
        assert!(matches!(state(&said[0]).phase, ServicePhase::Recording { .. }));
        let action = c.stop().unwrap();
        assert!(action.set_stop);
        assert!(matches!(action.announcement.unwrap().phase, ServicePhase::Stopping { .. }));
        assert!(c.stop().is_ok());
        let done = c.session_finished(id, Ok(summary(id)));
        assert!(done.join);
        assert_eq!(done.announcements.len(), 2);
        assert!(matches!(c.snapshot.phase, ServicePhase::Idle));
    }
    assert_eq!(c.stop().unwrap_err(), "conflict:当前没有可停止的录音");
}

#[test]
fn startup_failure_returns_idle_and_keeps_error() {
    let mut c = controller();
    start(&mut c, "s");
    let said = c.session_ready("s", Err("synthetic startup failure".into()));
    assert!(matches!(said[0], Announcement::Error(_)));
    assert!(matches!(state(&said[1]).phase, ServicePhase::Starting { .. }));
    let error = c.snapshot.last_error.clone().unwrap();
    assert_eq!((error.source, error.code.as_str()), (ErrorSource::Device, "startup_failed"));
    let done = c.session_finished("s", Err("synthetic startup failure".into()));
    assert!(matches!(c.snapshot.phase, ServicePhase::Idle));
    assert!(c
        .snapshot
        .last_error
        .as_ref()
        .unwrap()
        .message
        .contains("synthetic startup failure"));
    assert_eq!(c.snapshot.last_error.as_ref().unwrap().code, "recording_failed");
    assert_eq!(done.announcements.len(), 3);
}

#[test]
fn pipeline_failure_keeps_recording_until_stop() {
    let mut c = controller();
    let mut bus = EventBus::new();
    bus.set_snapshot(start(&mut c, "s"));
    bus.set_snapshot(state(&c.session_ready("s", Ok(()))[0]).clone());
    bus.publish_error(&ServiceError::new(
        ErrorSource::Pipeline,
        "pipeline_degraded",
        "synthetic pipeline failure".into(),
    ));
    let shown = bus.latest_snapshot();
    assert!(matches!(shown.phase, ServicePhase::Recording { .. }) && shown.pipeline.degraded);
    assert_eq!(shown.pipeline.error.as_deref(), Some("synthetic pipeline failure"));
    bus.set_snapshot(c.stop().unwrap().announcement.unwrap());
    assert!(bus.latest_snapshot().pipeline.degraded);
    let done = c.session_finished("s", Ok(summary("s")));
    bus.set_snapshot(state(&done.announcements[1]).clone());
    assert!(matches!(bus.latest_snapshot().phase, ServicePhase::Idle));
}

#[test]
fn capture_fatal_publishes_stopping_before_finished() {
    let mut c = controller();
    start(&mut c, "s");
    c.session_ready("s", Ok(()));
    let said = c.session_stopping("s");
    assert!(matches!(state(&said[0]).phase, ServicePhase::Stopping { .. }));
    let done = c.session_finished("s", Err("synthetic capture fatal".into()));
    assert!(matches!(done.announcements[1], Announcement::Finished { .. }));
    assert!(matches!(state(&done.announcements[2]).phase, ServicePhase::Idle));
    assert_eq!(c.snapshot.last_error.as_ref().unwrap().source, ErrorSource::Capture);
}

#[test]
fn shutdown_waits_for_session_finalize() {
    let mut c = controller();
    start(&mut c, "s");
    c.session_ready("s", Ok(()));
    let action = c.shutdown();
    assert!(action.join);
    assert!(matches!(state(&action.announcements[0]).phase, ServicePhase::Idle));
    assert!(c.snapshot.recording.is_none());
    assert!(!c.shutdown().join);
}

#[test]
fn events_of_other_sessions_are_ignored() {
    let mut c = controller();
    start(&mut c, "new");
    let before = format!("{:?}", c);
    assert!(c.session_ready("old", Ok(())).is_empty());
    assert!(c.session_stopping("old").is_empty());
    let done = c.session_finished("old", Err("late".into()));
    assert!(!done.join && done.announcements.is_empty());
    assert_eq!(format!("{:?}", c), before);
    c.session_ready("new", Ok(()));
    // A session that records is not made ready again.
    assert!(c.session_ready("new", Err("x".into())).is_empty());
}

#[test]
fn starting_shows_the_new_session_only() {
    let mut c = controller();
    start(&mut c, "a");
    c.session_finished("a", Err("broken".into()));
    assert!(c.snapshot.last_error.is_some());
    let shown = start(&mut c, "b");
    assert!(shown.last_error.is_none());
    assert!(!shown.pipeline.enabled && shown.pipeline.error.is_none());
    let recording = shown.recording.unwrap();
    assert_eq!(recording.session_id, "b");
    assert_eq!(recording.prefix, "p");
    assert_eq!(recording.out_dir, "recordings");
    assert_eq!(recording.started_at, "t0");
    assert_eq!(recording.captured_frames, 0);
}

#[test]
fn revisions_grow_with_every_announcement() {
    let mut c = controller();
    assert_eq!(c.publish_snapshot().revision, 1);
    let said = c.refresh_device(Ok("ReSpeaker".into()));
    match &said[0] {
        Announcement::Device(device) => {
            assert!(device.available);
            assert_eq!(device.name.as_deref(), Some("ReSpeaker"));
        }
        other => panic!("{other:?}"),
    }
    assert_eq!(state(&said[1]).revision, 2);
    c.refresh_device(Err("none".into()));
    assert_eq!(c.snapshot.device.error.as_deref(), Some("none"));
    assert!(!c.snapshot.device.available && c.snapshot.device.name.is_none());
    c.snapshot.revision = u64::MAX;
    assert_eq!(c.publish_snapshot().revision, u64::MAX);
}

#[test]
fn drafts_are_taken_over_only_when_valid() {
    let mut c = controller();
    let bad = AppConfig { version: 9, ..AppConfig::default() };
    assert!(matches!(c.update_config(bad), Err(AppConfigError::Version(9))));
    assert_eq!(c.draft.version, 1);
    let recording = RecordingConfig { duration_seconds: 5, ..RecordingConfig::default() };
    c.update_config(AppConfig { recording, ..AppConfig::default() }).unwrap();
    assert_eq!(c.draft.recording.duration_seconds, 5);
    assert_eq!(c.profile_to_save(None).unwrap().recording.duration_seconds, 5);
    let given = c.profile_to_save(Some(AppConfig::default())).unwrap();
    assert_eq!(given.recording.duration_seconds, 0);
    let bad = AppConfig { version: 7, ..AppConfig::default() };
    assert!(matches!(c.profile_to_save(Some(bad)), Err(AppConfigError::Version(7))));
    c.reset_config();
    assert_eq!(c.draft.recording.duration_seconds, 0);
    assert!(matches!(c.import_config(Err("toml".into())), Err(ImportError::Parse(_))));
    let bad = AppConfig { version: 0, ..AppConfig::default() };
    assert!(matches!(
        c.import_config(Ok(bad)),
        Err(ImportError::Invalid(AppConfigError::Version(0)))
    ));
    let recording = RecordingConfig { duration_seconds: 8, ..RecordingConfig::default() };
    let taken = c.import_config(Ok(AppConfig { recording, ..AppConfig::default() })).unwrap();
    assert_eq!(taken.recording.duration_seconds, 8);
    assert_eq!(c.draft.recording.duration_seconds, 8);
    assert!(Controller::new(AppConfig { version: 3, ..AppConfig::default() }, None).is_err());
}

#[test]
fn presets_are_loaded_before_files() {
    for (name, enabled) in [("pure", false), ("doa", true), ("doa_bf", true), ("bf_fixed", true)] {
        match Controller::profile_source(name) {
            ProfileSource::Preset(config) => assert_eq!(config.pipeline_enabled, enabled),
            ProfileSource::File => panic!("{name}"),
        }
    }
    assert!(matches!(Controller::profile_source("mine"), ProfileSource::File));
}

#[test]
fn prefixes_are_searched_one_by_one() {
    let mut search = PrefixSearch::new("20260101_000000".into(), false);
    assert_eq!(search.current(), "20260101_000000");
    let exists = || Err("目标文件已存在: x".to_string());
    assert!(matches!(search.advance(exists()), SearchStep::Next));
    assert_eq!(search.current(), "20260101_000000_1");
    assert!(matches!(search.advance(exists()), SearchStep::Next));
    match search.advance(Ok(())) {
        SearchStep::Chosen(prefix) => assert_eq!(prefix, "20260101_000000_2"),
        other => panic!("{other:?}"),
    }
    match search.advance(Err("disk".into())) {
        SearchStep::Failed(error) => assert_eq!(error, "disk"),
        other => panic!("{other:?}"),
    }
    let mut steps = 0;
    let mut search = PrefixSearch::new("b".into(), false);
    let error = loop {
        steps += 1;
        match search.advance(exists()) {
            SearchStep::Next => {}
            SearchStep::Failed(error) => break error,
            other => panic!("{other:?}"),
        }
    };
    assert_eq!((steps, error.as_str()), (10_000, "无法生成不冲突的录音 prefix"));
}

#[test]
fn given_prefixes_are_not_replaced() {
    let mut search = PrefixSearch::new("mine".into(), true);
    match search.advance(Err("目标文件已存在: x".into())) {
        SearchStep::Failed(error) => assert_eq!(error, "目标文件已存在: x"),
        other => panic!("{other:?}"),
    }
}

#[test]
fn sessions_are_numbered() {
    let mut numbers = SessionNumbers::new();
    assert_eq!(numbers.next_session_number(), 1);
    assert_eq!(numbers.next_session_number(), 2);
    numbers.next = u64::MAX;
    assert_eq!(numbers.next_session_number(), u64::MAX);
    assert_eq!(numbers.next_session_number(), 0);
}

#[test]
fn requests_carry_the_configuration() {
    let mut config = AppConfig::default();
    config.recording.duration_seconds = 3;
    let request = recording_request(config, "p", "s");
    assert_eq!(request.session_id, "s");
    assert_eq!(request.recording.prefix.as_deref(), Some("p"));
    assert_eq!(request.recording.duration_seconds, 3);
    assert!(request.pipeline.is_none());
    let config = AppConfig { pipeline_enabled: true, ..AppConfig::default() };
    assert!(recording_request(config, "p", "s").pipeline.is_some());
}

#[test]
fn errors_are_told_apart_by_their_text() {
    assert_eq!(recording_error_source("PIPELINE queue"), ErrorSource::Pipeline);
    assert_eq!(recording_error_source("Algorithm Worker"), ErrorSource::Pipeline);
    assert_eq!(recording_error_source("写入 x 失败"), ErrorSource::RawWav);
    assert_eq!(recording_error_source("x.WAV"), ErrorSource::RawWav);
    assert_eq!(recording_error_source("完成 x"), ErrorSource::RawWav);
    assert_eq!(recording_error_source("device"), ErrorSource::Capture);
}

#[test]
fn presets_record_into_the_default_directory() {
    for name in ["pure", "doa", "doa_bf", "bf_fixed"] {
        match Controller::profile_source(name) {
            ProfileSource::Preset(config) => {
                assert_eq!(config.recording.duration_seconds, 0);
                assert_eq!(config.recording.out_dir, "recordings");
                assert_eq!(config.recording.prefix, None);
                assert_eq!(config.pipeline_enabled, name != "pure");
            }
            ProfileSource::File => panic!("{name}"),
        }
    }
    assert!(matches!(Controller::profile_source("room"), ProfileSource::File));
}

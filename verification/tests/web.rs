use respeaker_algo::app_config::{preset_doa_bf, AppConfig};
use respeaker_algo::events::{ServicePhase, ServiceSnapshot};
use respeaker_algo::recordings::{scan_catalog, DirEntry};
use respeaker_algo::web::{
    active_session_id, check_owned, check_trashable, config_answer, content_length, content_range,
    content_type, default_bind, event_kind, event_name, find_recording, map_error, parse_number,
    parse_range, ClientCount, FileStream, STATUS_OK, STATUS_PARTIAL_CONTENT,
};

fn number(text: &str) -> Option<u64> {
    parse_number(&text.chars().collect::<Vec<char>>())
}

fn legacy() -> Vec<respeaker_algo::recordings::RecordingEntry> {
    scan_catalog(vec![DirEntry {
        name: "p_respeaker_algo.wav".into(),
        is_file: true,
        bytes: 1,
        manifest: None,
    }])
}

#[test]
fn range_parser_handles_partial_suffix_and_reverse_ranges() {
    let range = parse_range(6, Some("bytes=1-3")).unwrap();
    assert_eq!(range.status, STATUS_PARTIAL_CONTENT);
    assert_eq!((range.start, range.end), (1, 3));
    let suffix = parse_range(6, Some("bytes=-2")).unwrap();
    assert_eq!((suffix.start, suffix.end), (4, 5));
    assert!(parse_range(6, Some("bytes=5-3")).is_err());
    for malformed in ["bytes=abc-2", "bytes=1-abc", "bytes=-", "bytes=1-2-3"] {
        assert!(parse_range(6, Some(malformed)).is_err(), "{malformed}");
    }
}

#[test]
fn rejects_clients_over_limit() {
    let mut clients = ClientCount::new(1).unwrap();
    assert!(clients.try_acquire_client());
    assert!(!clients.try_acquire_client());
    clients.release();
    assert!(clients.try_acquire_client());
    assert_eq!(ClientCount::new(0).unwrap_err(), "Web 最大客户端数必须大于 0");
}

#[test]
fn whole_files_and_open_ranges() {
    let whole = parse_range(10, None).unwrap();
    assert_eq!((whole.status, whole.start, whole.end, whole.total), (STATUS_OK, 0, 9, 10));
    assert_eq!(content_length(&whole), 10);
    assert_eq!(content_range(&whole), None);
    let empty = parse_range(0, None).unwrap();
    assert_eq!(content_length(&empty), 0);
    let rest = parse_range(10, Some("bytes=4-")).unwrap();
    assert_eq!((rest.start, rest.end, content_length(&rest)), (4, 9, 6));
    assert_eq!(content_range(&rest).unwrap(), "bytes 4-9/10");
    let long = parse_range(10, Some("bytes=0-99")).unwrap();
    assert_eq!((long.start, long.end), (0, 9));
    let all = parse_range(10, Some("bytes=-99")).unwrap();
    assert_eq!((all.start, all.end), (0, 9));
    for bad in [
        "bytes=10-",
        "bytes=-0",
        "bytes=1-2,4-5",
        "items=1-2",
        "bytes=",
        "bytes=1",
        "bytes=99999999999999999999-",
    ] {
        assert!(parse_range(10, Some(bad)).is_err(), "{bad}");
    }
    assert!(parse_range(0, Some("bytes=0-0")).is_err());
}

#[test]
fn numbers_are_read_like_std_reads_them() {
    for text in [
        "0",
        "7",
        "+7",
        "007",
        "",
        "+",
        "-1",
        "1+",
        "++1",
        "18446744073709551615",
        "18446744073709551616",
        "99999999999999999999",
        "000000000000000000000000018446744073709551615",
        " 1",
        "１",
    ] {
        assert_eq!(number(text), text.parse::<u64>().ok(), "{text:?}");
    }
}

#[test]
fn errors_are_answered_by_their_text() {
    for (error, status) in [
        ("conflict:当前已有录音 session", 409),
        ("目标文件已存在: x", 409),
        ("回收站目标已存在: x", 409),
        ("session a 不存在", 404),
        ("文件不属于该 session", 404),
        ("配置解析失败", 422),
        ("profile 名称长度必须在 1..=64", 422),
        ("prefix 长度必须在 1..=128", 422),
        ("disk", 500),
    ] {
        assert_eq!(map_error(error.into()).status, status, "{error}");
    }
    let answer = map_error("conflict:conflict:x".into());
    assert_eq!((answer.code.as_str(), answer.message.as_str()), ("request_failed", "x"));
}

#[test]
fn kinds_have_content_types() {
    assert_eq!(content_type("doa_csv"), "text/csv; charset=utf-8");
    assert_eq!(content_type("manifest"), "application/json; charset=utf-8");
    assert_eq!(content_type("algo"), "audio/wav");
    assert_eq!(default_bind(), "127.0.0.1:8765");
}

#[test]
fn files_are_sent_in_pieces() {
    let range = parse_range(100_000, Some("bytes=10-80009")).unwrap();
    let mut stream = FileStream::new(&range);
    let mut sent = 0;
    while let Some(size) = stream.next_size() {
        assert!(size <= 65_536);
        let read = size.min(50_000);
        stream.read(Ok(read)).unwrap();
        sent += read;
    }
    assert_eq!(sent, content_length(&range));
    assert_eq!(sent, 80_000);
    let mut stream = FileStream::new(&range);
    assert_eq!(stream.next_size(), Some(65_536));
    assert_eq!(stream.read(Ok(0)).unwrap_err(), "文件提前结束");
    assert_eq!(stream.next_size(), None);
    let mut stream = FileStream::new(&range);
    assert_eq!(stream.read(Err("io".into())).unwrap_err(), "io");
    assert_eq!(stream.next_size(), None);
}

#[test]
fn active_sessions_are_not_trashed() {
    let idle = ServiceSnapshot::default();
    assert_eq!(active_session_id(&idle), None);
    assert!(check_trashable(&idle, "s").is_ok());
    for phase in [
        ServicePhase::Starting { session_id: "s".into() },
        ServicePhase::Recording { session_id: "s".into() },
        ServicePhase::Stopping { session_id: "s".into() },
    ] {
        let snapshot = ServiceSnapshot { phase, ..ServiceSnapshot::default() };
        assert_eq!(active_session_id(&snapshot).as_deref(), Some("s"));
        let answer = check_trashable(&snapshot, "s").unwrap_err();
        assert_eq!((answer.status, answer.code.as_str()), (409, "session_active"));
        assert!(check_trashable(&snapshot, "t").is_ok());
    }
}

#[test]
fn recordings_and_files_are_looked_up() {
    let entry = find_recording(legacy(), "legacy-p").unwrap();
    assert!(check_owned(&entry, "algo").is_ok());
    assert_eq!(check_owned(&entry, "mic").unwrap_err(), "文件不属于该 session");
    assert_eq!(find_recording(legacy(), "x").unwrap_err(), "session 不存在");
}

#[test]
fn events_are_named_by_their_type() {
    assert_eq!(event_kind("{\"type\":\"doa\",\"seq\":1}"), "doa");
    assert_eq!(event_kind("{\"type\":3}"), "message");
    assert_eq!(event_kind("{\"kind\":\"doa\"}"), "message");
    assert_eq!(event_kind("[\"type\"]"), "message");
    assert_eq!(event_kind("not json"), "message");
    assert_eq!(event_kind("{\"type\":\"\\u0064oa\"}"), "doa");
    assert_eq!(event_name(None), "message");
    assert_eq!(event_name(Some("x".into())), "x");
}

#[test]
fn configurations_that_are_not_valid_are_unprocessable() {
    let config = AppConfig { version: 7, ..AppConfig::default() };
    let error = config.validate().unwrap_err();
    let answer = config_answer(&error, error.message(&[]), config.refused_field());
    assert_eq!((answer.status, answer.code.as_str()), (422, "invalid_config"));
    assert_eq!(answer.message, "不支持的 App 配置版本 7，当前仅支持 1");
    assert_eq!(answer.field.as_deref(), Some("version"));
    assert_eq!(map_error("x".into()).field, None);
}

#[test]
fn configurations_that_lack_a_module_are_conflicts() {
    let mut config = preset_doa_bf();
    config.pipeline.modules.remove(0);
    let error = config.validate().unwrap_err();
    let answer = config_answer(&error, error.message(&[]), config.refused_field());
    assert_eq!((answer.status, answer.code.as_str()), (409, "invalid_config"));
    assert_eq!(
        answer.message,
        "beamformer.direction_source = \"doa\" 要求配置顺序中前面已有 enabled DOA"
    );
    assert_eq!(answer.field.as_deref(), Some("pipeline.modules[0].direction_source"));
}

use respeaker_algo::app_config::{preset_doa_bf, AppConfig};
use respeaker_algo::recordings::{
    canonical_under, check_no_clobber, find_entry, find_trashed_entry, kind_to_filename,
    legacy_prefix, resolve_file_path, restore_session, scan_catalog, scan_catalog_with_active,
    scan_trash_catalog, target_paths_for_session, trash_session, validate_session_id, DirEntry,
    FileStat, MoveSource, ResolvedPath, SessionManifest, SessionResultStatus, TargetFile,
    TrashDir, TrashItem, TrashPlace,
};

const KINDS: [&str; 6] = ["algo", "mic", "ref", "bf", "doa_csv", "manifest"];

fn manifest(id: &str, prefix: &str, status: SessionResultStatus) -> SessionManifest {
    let mut m =
        SessionManifest::new(id.into(), prefix.into(), "now".into(), AppConfig::default());
    m.status = status;
    m
}

fn listed_manifest(m: SessionManifest) -> DirEntry {
    DirEntry {
        name: SessionManifest::manifest_path(&m.prefix),
        is_file: true,
        bytes: 100,
        manifest: Some(m),
    }
}

fn listed(name: &str, bytes: u64) -> DirEntry {
    DirEntry { name: name.into(), is_file: true, bytes, manifest: None }
}

fn parts(path: &str) -> Result<Vec<Vec<u8>>, String> {
    Ok(path.split('/').map(|p| p.as_bytes().to_vec()).collect())
}

fn path(path: &str) -> ResolvedPath {
    ResolvedPath { shown: path.into(), parts: parts(path) }
}

fn broken(shown: &str) -> ResolvedPath {
    ResolvedPath { shown: shown.into(), parts: Err("gone".into()) }
}

fn place() -> TrashPlace {
    TrashPlace { created: Ok(()), path: path("/out/.trash/s") }
}

fn source(name: &str, there: bool, taken: bool) -> MoveSource {
    MoveSource {
        is_file: there,
        source: path(&format!("/out/{name}")),
        target_shown: format!("to/{name}"),
        target_exists: taken,
    }
}

fn sources(prefix: &str, there: [bool; 6]) -> [MoveSource; 6] {
    let mut at = 0;
    KINDS.map(|kind| {
        at += 1;
        source(&kind_to_filename(prefix, kind).unwrap(), there[at - 1], false)
    })
}

fn trashed(name: &str) -> TrashItem {
    TrashItem {
        error: None,
        name: Some(name.into()),
        file: MoveSource {
            is_file: true,
            source: path(&format!("/out/.trash/s/{name}")),
            target_shown: format!("back/{name}"),
            target_exists: false,
        },
    }
}

#[test]
fn no_clobber_detects_existing_target() {
    let config = AppConfig::default();
    let targets: Vec<TargetFile> = target_paths_for_session("p", &config)
        .into_iter()
        .map(|name| TargetFile {
            exists: name == "p_respeaker_algo.wav",
            shown: format!("dir/{name}"),
        })
        .collect();
    assert!(check_no_clobber(&targets).is_err());
    assert_eq!(
        check_no_clobber(&targets).unwrap_err(),
        "目标文件已存在: dir/p_respeaker_algo.wav"
    );
    assert!(check_no_clobber(&targets[1..]).is_ok());
}

#[test]
fn restore_rejects_path_traversal() {
    let result = restore_session("../outside", "p", &place(), &path("/out"), &[]);
    assert!(result.is_err());
    assert_eq!(result.unwrap_err(), "session id 只允许 ASCII 字母、数字、_、-");
}

#[test]
fn trash_and_restore_only_move_known_files() {
    let files = sources("p", [true, false, false, false, false, false]);
    let moved = trash_session("session-1", "p", &place(), &path("/out"), &files).unwrap();
    assert_eq!(moved, ["p_respeaker_algo.wav"]);
    let items: Vec<TrashItem> = moved.iter().map(|name| trashed(name)).collect();
    let back = restore_session("session-1", "p", &place(), &path("/out"), &items).unwrap();
    assert_eq!(back, ["p_respeaker_algo.wav"]);
}

#[test]
fn manifest_roundtrip_and_interrupted_scan() {
    let listing = || {
        vec![listed_manifest(manifest("session-1", "p", SessionResultStatus::Recording))]
    };
    let entries = scan_catalog(listing());
    assert_eq!(entries.len(), 1);
    assert_eq!(entries[0].status, SessionResultStatus::Interrupted);
    let active = scan_catalog_with_active(listing(), Some("session-1"));
    assert_eq!(active[0].status, SessionResultStatus::Recording);
}

#[test]
fn file_names_tell_the_kind() {
    let names: Vec<String> = KINDS.iter().map(|k| kind_to_filename("x", k).unwrap()).collect();
    assert_eq!(
        names,
        [
            "x_respeaker_algo.wav",
            "x_respeaker_mic.wav",
            "x_respeaker_ref.wav",
            "x_respeaker_bf.wav",
            "x_respeaker_doa.csv",
            "x_respeaker_session.json",
        ]
    );
    assert_eq!(kind_to_filename("x", "other"), None);
}

#[test]
fn targets_follow_the_configuration() {
    let pure = target_paths_for_session("p", &AppConfig::default());
    assert_eq!(
        pure,
        [
            "p_respeaker_algo.wav",
            "p_respeaker_mic.wav",
            "p_respeaker_ref.wav",
            "p_respeaker_session.json",
        ]
    );
    let full = target_paths_for_session("p", &preset_doa_bf());
    assert_eq!(full[4..], ["p_respeaker_bf.wav", "p_respeaker_doa.csv"]);
    let mut off = preset_doa_bf();
    off.pipeline_enabled = false;
    assert_eq!(target_paths_for_session("p", &off).len(), 4);
}

#[test]
fn session_ids_are_names() {
    assert!(validate_session_id("session-20260101000000-1").is_ok());
    assert_eq!(validate_session_id("").unwrap_err(), "session id 长度无效");
    assert_eq!(validate_session_id(&"a".repeat(129)).unwrap_err(), "session id 长度无效");
    assert_eq!(
        validate_session_id("a+b").unwrap_err(),
        "session id 只允许 ASCII 字母、数字、_、-"
    );
}

#[test]
fn catalog_groups_files_without_a_manifest() {
    let entries = scan_catalog(vec![
        listed("b_respeaker_mic.wav", 5),
        listed("a_respeaker_doa.csv", 1),
        listed(".b_respeaker_ref.wav", 9),
        listed("b_respeaker_algo.wav", 4),
        listed("notes.txt", 3),
        DirEntry { is_file: false, ..listed("c_respeaker_bf.wav", 0) },
    ]);
    assert_eq!(entries.len(), 2);
    assert_eq!(entries[0].id, "legacy-b");
    assert_eq!(entries[0].prefix, "b");
    assert_eq!(entries[0].status, SessionResultStatus::Legacy);
    assert!(entries[0].manifest.is_none());
    let kinds: Vec<(&str, u64)> =
        entries[0].files.iter().map(|f| (f.kind.as_str(), f.bytes)).collect();
    assert_eq!(kinds, [("mic", 5), ("algo", 4)]);
    assert!(entries[0].files.iter().all(|f| f.exists));
    assert_eq!(entries[1].files[0].path, "a_respeaker_doa.csv");
}

#[test]
fn manifests_stand_for_their_files_and_the_latest_comes_first() {
    let mut same = manifest("s2", "20260101", SessionResultStatus::Failed);
    same.files.clear();
    let entries = scan_catalog_with_active(
        vec![
            listed("20260101_respeaker_algo.wav", 1),
            listed_manifest(manifest("s1", "20260101", SessionResultStatus::Success)),
            listed_manifest(manifest("s3", "20260301", SessionResultStatus::Starting)),
            DirEntry {
                name: "copy_respeaker_session.json".into(),
                is_file: true,
                bytes: 0,
                manifest: Some(same),
            },
            listed("unreadable_respeaker_session.json", 8),
            listed("20260201_respeaker_bf.wav", 2),
        ],
        Some("s1"),
    );
    let shown: Vec<(&str, &str)> =
        entries.iter().map(|e| (e.id.as_str(), e.prefix.as_str())).collect();
    assert_eq!(
        shown,
        [
            ("s3", "20260301"),
            ("legacy-20260201", "20260201"),
            ("s1", "20260101"),
            ("s2", "20260101"),
        ]
    );
    assert_eq!(entries[0].status, SessionResultStatus::Interrupted);
    assert_eq!(
        entries[0].manifest.as_ref().unwrap().status,
        SessionResultStatus::Interrupted
    );
}

#[test]
fn entries_are_found_by_id() {
    let listing = || vec![listed("p_respeaker_algo.wav", 1)];
    assert_eq!(find_entry(scan_catalog(listing()), "legacy-p").unwrap().prefix, "p");
    assert_eq!(
        find_entry(scan_catalog(listing()), "other").unwrap_err(),
        "session other 不存在"
    );
    assert_eq!(
        find_entry(scan_catalog(listing()), "a b").unwrap_err(),
        "session id 只允许 ASCII 字母、数字、_、-"
    );
    assert_eq!(
        find_trashed_entry(Vec::new(), "x").unwrap_err(),
        "回收站中的 session x 不存在"
    );
    assert_eq!(find_trashed_entry(Vec::new(), "").unwrap_err(), "session id 长度无效");
}

#[test]
fn trash_shows_manifests_and_legacy_directories() {
    let none = [FileStat { bytes: 0, exists: false }; 6];
    let mut some = none;
    some[3] = FileStat { bytes: 7, exists: true };
    let entries = scan_trash_catalog(vec![
        TrashDir { name: "legacy-a".into(), manifest: None, files: some },
        TrashDir { name: "legacy-b".into(), manifest: None, files: none },
        TrashDir { name: "other".into(), manifest: None, files: some },
        TrashDir {
            name: "s".into(),
            manifest: Some(manifest("s", "z", SessionResultStatus::Recording)),
            files: none,
        },
    ]);
    assert_eq!(entries.len(), 2);
    assert_eq!(entries[0].id, "s");
    // The trash shows a manifest as it is.
    assert_eq!(entries[0].status, SessionResultStatus::Recording);
    assert_eq!(entries[1].id, "legacy-a");
    assert_eq!(entries[1].prefix, "a");
    assert_eq!(entries[1].files.len(), 1);
    assert_eq!(entries[1].files[0].path, "a_respeaker_bf.wav");
    assert_eq!(entries[1].files[0].bytes, 7);
    assert_eq!(legacy_prefix("legacy-x").as_deref(), Some("x"));
    assert_eq!(legacy_prefix("x"), None);
}

#[test]
fn manifests_take_over_what_is_on_disk() {
    let mut m = manifest("s", "p", SessionResultStatus::Starting);
    assert_eq!(m.schema_version, 1);
    assert!(m.files.is_empty());
    let mut stats = [FileStat { bytes: 0, exists: false }; 6];
    stats[0] = FileStat { bytes: 44, exists: true };
    m.refresh_files(&stats);
    assert_eq!(m.files.len(), 6);
    assert_eq!(m.files[0].kind, "algo");
    assert_eq!((m.files[0].bytes, m.files[0].exists), (44, true));
    assert_eq!(m.files[5].path, "p_respeaker_session.json");
    assert!(!m.files[5].exists);
}

#[test]
fn only_files_in_the_directory_are_handed_out() {
    let root = path("/out");
    let inside = path("/out/p_respeaker_algo.wav");
    assert_eq!(
        resolve_file_path("p", "algo", true, &inside, &root).unwrap(),
        "p_respeaker_algo.wav"
    );
    assert_eq!(
        resolve_file_path("p", "exe", true, &inside, &root).unwrap_err(),
        "未知文件类型 exe"
    );
    assert_eq!(
        resolve_file_path("p", "algo", false, &inside, &root).unwrap_err(),
        "文件不存在"
    );
    assert_eq!(
        resolve_file_path("p", "algo", true, &path("/elsewhere/x"), &root).unwrap_err(),
        "路径不在输出目录内"
    );
    assert_eq!(
        canonical_under(&path("/output/x"), &root).unwrap_err(),
        "路径不在输出目录内"
    );
    assert_eq!(canonical_under(&inside, &broken("r")).unwrap_err(), "确认目录 r 失败: gone");
    assert_eq!(canonical_under(&broken("f"), &root).unwrap_err(), "确认路径 f 失败: gone");
    assert!(canonical_under(&root, &root).is_ok());
}

#[test]
fn nothing_is_trashed_unless_everything_can_be() {
    let root = path("/out");
    let all = [true; 6];
    let files = sources("p", all);
    assert_eq!(trash_session("s", "p", &place(), &root, &files).unwrap().len(), 6);
    let mut taken = sources("p", all);
    taken[2].target_exists = true;
    assert_eq!(
        trash_session("s", "p", &place(), &root, &taken).unwrap_err(),
        "回收站目标已存在: to/p_respeaker_ref.wav"
    );
    let mut stray = sources("p", all);
    stray[1].source = path("/elsewhere/f");
    assert_eq!(
        trash_session("s", "p", &place(), &root, &stray).unwrap_err(),
        "路径不在输出目录内"
    );
    assert_eq!(
        trash_session("s", "../p", &place(), &root, &files).unwrap_err(),
        "prefix 不得包含 ..、路径分隔符或 NUL 字符"
    );
    let unmade = TrashPlace { created: Err("full".into()), path: path("/out/.trash/s") };
    assert_eq!(
        trash_session("s", "p", &unmade, &root, &files).unwrap_err(),
        "创建回收站目录失败: full"
    );
    assert_eq!(
        trash_session("s", "p", &place(), &broken("r"), &files).unwrap_err(),
        "确认输出目录失败: gone"
    );
    let lost = TrashPlace { created: Ok(()), path: broken("t") };
    assert_eq!(
        trash_session("s", "p", &lost, &root, &files).unwrap_err(),
        "确认回收站目录失败: gone"
    );
    let outside = TrashPlace { created: Ok(()), path: path("/tmp/s") };
    assert_eq!(
        trash_session("s", "p", &outside, &root, &files).unwrap_err(),
        "回收站路径不在输出目录内"
    );
}

#[test]
fn nothing_is_restored_unless_everything_belongs() {
    let root = path("/out");
    let good = trashed("p_respeaker_mic.wav");
    let foreign = trashed("q_respeaker_mic.wav");
    assert_eq!(
        restore_session("s", "p", &place(), &root, &[good, foreign]).unwrap_err(),
        "回收站包含不属于该 session 的文件"
    );
    let mut nameless = trashed("x");
    nameless.name = None;
    assert_eq!(
        restore_session("s", "p", &place(), &root, &[nameless]).unwrap_err(),
        "回收站存在无效文件名"
    );
    let mut unread = trashed("x");
    unread.error = Some("io".into());
    assert_eq!(
        restore_session("s", "p", &place(), &root, &[unread]).unwrap_err(),
        "读取回收站项失败: io"
    );
    let mut taken = trashed("p_respeaker_mic.wav");
    taken.file.target_exists = true;
    assert_eq!(
        restore_session("s", "p", &place(), &root, &[taken]).unwrap_err(),
        "目标已存在，无法恢复: back/p_respeaker_mic.wav"
    );
    let mut stray = trashed("p_respeaker_mic.wav");
    stray.file.source = path("/elsewhere/f");
    assert_eq!(
        restore_session("s", "p", &place(), &root, &[stray]).unwrap_err(),
        "路径不在输出目录内"
    );
}

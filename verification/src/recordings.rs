//! The files of a session, the catalog of sessions, and which files a session may move.

use vstd::prelude::*;
use vstd::string::*;

use crate::app_config::{
    leaves_directory, name_problem, prefix_message, safe_name, validate_prefix, AppConfig,
    MAX_PREFIX_LEN,
};
use crate::beamformer::BeamformerStats;
use crate::events::ServiceError;
use crate::pipeline::ModuleConfig;
use crate::pipeline_worker::PipelineWorkerStats;
use crate::text::{
    before, begins_with, byte_len, chars_of, ends_with, has_name_chars, is_before_str, joined,
    lemma_before_is_total, lemma_not_behind_is_transitive, name_chars, not_behind, same_text,
    strip_head, strip_tail, texts,
};

verus! {

pub const MANIFEST_VERSION: u32 = 1;

pub const MAX_SESSION_ID_LEN: usize = 128;

#[derive(Clone, Copy, Debug, PartialEq, Eq, Structural)]
pub enum SessionResultStatus {
    Starting,
    Recording,
    Success,
    Failed,
    Interrupted,
    Legacy,
}

#[derive(Debug)]
pub struct SessionFile {
    pub kind: String,
    /// Only the name of the file: clients do not see where it is kept.
    pub path: String,
    pub bytes: u64,
    pub exists: bool,
}

impl Clone for SessionFile {
    fn clone(&self) -> (file: Self)
        ensures
            file == *self,
    {
        SessionFile {
            kind: self.kind.clone(),
            path: self.path.clone(),
            bytes: self.bytes,
            exists: self.exists,
        }
    }
}

/// What a `SessionFile` says.
pub struct FileView {
    pub kind: Seq<char>,
    pub path: Seq<char>,
    pub bytes: u64,
    pub exists: bool,
}

impl View for SessionFile {
    type V = FileView;

    open spec fn view(&self) -> FileView {
        FileView { kind: self.kind@, path: self.path@, bytes: self.bytes, exists: self.exists }
    }
}

/// What the files of a list say.
pub open spec fn file_views(files: Seq<SessionFile>) -> Seq<FileView> {
    files.map_values(|f: SessionFile| f@)
}

fn clone_files(files: &Vec<SessionFile>) -> (copy: Vec<SessionFile>)
    ensures
        copy@ == files@,
{
    let mut copy: Vec<SessionFile> = Vec::new();
    for i in 0..files.len()
        invariant
            copy@ == files@.take(i as int),
    {
        copy.push(files[i].clone());
        assert(copy@ =~= files@.take(i + 1));
    }
    assert(files@.take(files@.len() as int) =~= files@);
    copy
}

/// The kinds of files that a session may have.
pub open spec fn kinds() -> Seq<Seq<char>> {
    seq!["algo"@, "mic"@, "ref"@, "bf"@, "doa_csv"@, "manifest"@]
}

/// How the name of a file of a kind ends.
pub open spec fn kind_suffix(kind: Seq<char>) -> Option<Seq<char>> {
    if kind == "algo"@ {
        Some("_respeaker_algo.wav"@)
    } else if kind == "mic"@ {
        Some("_respeaker_mic.wav"@)
    } else if kind == "ref"@ {
        Some("_respeaker_ref.wav"@)
    } else if kind == "bf"@ {
        Some("_respeaker_bf.wav"@)
    } else if kind == "doa_csv"@ {
        Some("_respeaker_doa.csv"@)
    } else if kind == "manifest"@ {
        Some("_respeaker_session.json"@)
    } else {
        None
    }
}

/// The name of the file of a kind; `None` for anything else.
pub open spec fn file_name(prefix: Seq<char>, kind: Seq<char>) -> Option<Seq<char>> {
    match kind_suffix(kind) {
        Some(suffix) => Some(prefix + suffix),
        None => None,
    }
}

pub fn kind_to_filename(prefix: &str, kind: &str) -> (name: Option<String>)
    ensures
        name is Some <==> file_name(prefix@, kind@) is Some,
        name matches Some(n) ==> n@ == file_name(prefix@, kind@)->0,
{
    if same_text(kind, "algo") {
        Some(joined(prefix, "_respeaker_algo.wav"))
    } else if same_text(kind, "mic") {
        Some(joined(prefix, "_respeaker_mic.wav"))
    } else if same_text(kind, "ref") {
        Some(joined(prefix, "_respeaker_ref.wav"))
    } else if same_text(kind, "bf") {
        Some(joined(prefix, "_respeaker_bf.wav"))
    } else if same_text(kind, "doa_csv") {
        Some(joined(prefix, "_respeaker_doa.csv"))
    } else if same_text(kind, "manifest") {
        Some(joined(prefix, "_respeaker_session.json"))
    } else {
        None
    }
}

/// The suffix of each kind.
proof fn lemma_suffixes()
    ensures
        kind_suffix("algo"@) == Some("_respeaker_algo.wav"@),
        kind_suffix("mic"@) == Some("_respeaker_mic.wav"@),
        kind_suffix("ref"@) == Some("_respeaker_ref.wav"@),
        kind_suffix("bf"@) == Some("_respeaker_bf.wav"@),
        kind_suffix("doa_csv"@) == Some("_respeaker_doa.csv"@),
        kind_suffix("manifest"@) == Some("_respeaker_session.json"@),
{
    reveal_strlit("algo");
    reveal_strlit("mic");
    reveal_strlit("ref");
    reveal_strlit("bf");
    reveal_strlit("doa_csv");
    reveal_strlit("manifest");
    assert("mic"@[0] != "ref"@[0]);
    assert("algo"@.len() == 4 && "mic"@.len() == 3 && "ref"@.len() == 3 && "bf"@.len() == 2);
    assert("doa_csv"@.len() == 7 && "manifest"@.len() == 8);
}

/// The kinds in order.
pub fn all_kinds() -> (all: [&'static str; 6])
    ensures
        forall|i: int| 0 <= i < 6 ==> (#[trigger] all@[i])@ == kinds()[i],
{
    let all: [&'static str; 6] = ["algo", "mic", "ref", "bf", "doa_csv", "manifest"];
    assert(all@ =~= seq!["algo", "mic", "ref", "bf", "doa_csv", "manifest"]);
    all
}

/// The end of the name is that of the file of some kind, and then the kind and what comes before
/// are told.
pub open spec fn tells(name: Seq<char>, prefix: Seq<char>, kind: Seq<char>) -> bool {
    file_name(prefix, kind) == Some(name)
}

proof fn lemma_append_splits(a: Seq<char>, x: Seq<char>, b: Seq<char>, y: Seq<char>)
    requires
        a + x == b + y,
        x.len() <= y.len(),
    ensures
        y.skip(y.len() - x.len()) == x,
        x.len() == y.len() ==> a == b,
{
    let s = a + x;
    let t = b + y;
    assert(s.len() == a.len() + x.len());
    assert(t.len() == b.len() + y.len());
    assert forall|i: int| 0 <= i < x.len() implies y.skip(y.len() - x.len())[i] == x[i] by {
        assert(s[a.len() + i] == x[i]);
        assert(t[a.len() + i] == y[a.len() + i - b.len()]);
    }
    assert(y.skip(y.len() - x.len()) =~= x);
    if x.len() == y.len() {
        assert forall|i: int| 0 <= i < a.len() implies a[i] == b[i] by {
            assert(s[i] == a[i]);
            assert(t[i] == b[i]);
        }
        assert(a =~= b);
    }
}

/// No two suffixes can end the same name.
proof fn lemma_suffixes_are_apart(k: Seq<char>, l: Seq<char>)
    requires
        kind_suffix(k) is Some,
        kind_suffix(l) is Some,
        kind_suffix(k)->0.len() <= kind_suffix(l)->0.len(),
        kind_suffix(l)->0.skip(kind_suffix(l)->0.len() - kind_suffix(k)->0.len()) == kind_suffix(
            k,
        )->0,
    ensures
        k == l,
{
    reveal_strlit("_respeaker_algo.wav");
    reveal_strlit("_respeaker_mic.wav");
    reveal_strlit("_respeaker_ref.wav");
    reveal_strlit("_respeaker_bf.wav");
    reveal_strlit("_respeaker_doa.csv");
    reveal_strlit("_respeaker_session.json");
    let x = kind_suffix(k)->0;
    let y = kind_suffix(l)->0;
    assert(x.last() == y.last());
    assert(x[x.len() - 5] == y[y.len() - 5]);
    assert(x[x.len() - 6] == y[y.len() - 6]);
}

/// A file name tells its prefix and its kind: files of different sessions or of different kinds
/// never share a name.
pub proof fn law_name_tells_prefix_and_kind(
    name: Seq<char>,
    p: Seq<char>,
    k: Seq<char>,
    q: Seq<char>,
    l: Seq<char>,
)
    requires
        tells(name, p, k),
        tells(name, q, l),
    ensures
        p == q,
        k == l,
{
    let x = kind_suffix(k)->0;
    let y = kind_suffix(l)->0;
    if x.len() <= y.len() {
        lemma_append_splits(p, x, q, y);
        lemma_suffixes_are_apart(k, l);
        lemma_append_splits(p, x, q, y);
    } else {
        lemma_append_splits(q, y, p, x);
        lemma_suffixes_are_apart(l, k);
    }
}

/// The files of a session whose prefix is a safe name lie in the output directory itself.
pub proof fn law_file_names_stay_in_the_directory(prefix: Seq<char>, kind: Seq<char>)
    requires
        safe_name(prefix, MAX_PREFIX_LEN),
        file_name(prefix, kind) is Some,
    ensures
        !leaves_directory(file_name(prefix, kind)->0),
        file_name(prefix, kind)->0[0] != '.',
{
    reveal_strlit("_respeaker_algo.wav");
    reveal_strlit("_respeaker_mic.wav");
    reveal_strlit("_respeaker_ref.wav");
    reveal_strlit("_respeaker_bf.wav");
    reveal_strlit("_respeaker_doa.csv");
    reveal_strlit("_respeaker_session.json");
    reveal_strlit("..");
    let suffix = kind_suffix(kind)->0;
    let name = prefix + suffix;
    assert forall|i: int| 0 <= i < name.len() implies name[i] != '/' && name[i] != '\\' && name[i]
        != '\0' by {
        if i < prefix.len() {
            assert(crate::text::name_char(prefix[i]));
        } else {
            assert(name[i] == suffix[i - prefix.len()]);
        }
    }
    if crate::text::contains_text(name, ".."@) {
        let i = choose|i: int| crate::text::occurs_at(name, ".."@, i);
        let two = name.subrange(i, i + 2);
        assert(two[0] == ".."@[0] && two[1] == ".."@[1]);
        assert(name[i] == '.' && name[i + 1] == '.');
        if i < prefix.len() {
            assert(crate::text::name_char(prefix[i]));
        } else {
            assert(name[i] == suffix[i - prefix.len()]);
            assert(name[i + 1] == suffix[i + 1 - prefix.len()]);
        }
    }
    assert(crate::text::name_char(prefix[0]));
}

pub open spec fn valid_session_id(id: Seq<char>) -> bool {
    id.len() > 0 && byte_len(id) <= MAX_SESSION_ID_LEN && name_chars(id)
}

/// What is said of an identifier that is not valid.
pub open spec fn session_id_message(id: Seq<char>) -> Seq<char> {
    if id.len() == 0 || byte_len(id) > MAX_SESSION_ID_LEN {
        "session id 长度无效"@
    } else {
        "session id 只允许 ASCII 字母、数字、_、-"@
    }
}

pub fn validate_session_id(id: &str) -> (result: Result<(), String>)
    ensures
        result is Ok <==> valid_session_id(id@),
        result matches Err(message) ==> message@ == session_id_message(id@),
{
    if id.is_empty() || id.len() > MAX_SESSION_ID_LEN {
        return Err("session id 长度无效".to_owned());
    }
    let chars = chars_of(id);
    if !has_name_chars(chars.as_slice()) {
        return Err("session id 只允许 ASCII 字母、数字、_、-".to_owned());
    }
    Ok(())
}

/// Whether some module writes the output of a beamformer to a file.
pub open spec fn writes_beamformer(modules: Seq<ModuleConfig>) -> bool {
    exists|i: int| 0 <= i < modules.len() && writes_bf(#[trigger] modules[i])
}

pub open spec fn writes_bf(module: ModuleConfig) -> bool {
    module matches ModuleConfig::Beamformer { enabled, wav, .. } && enabled && wav
}

/// Whether some module writes a table of directions.
pub open spec fn writes_table(modules: Seq<ModuleConfig>) -> bool {
    exists|i: int| 0 <= i < modules.len() && writes_csv(#[trigger] modules[i])
}

pub open spec fn writes_csv(module: ModuleConfig) -> bool {
    module matches ModuleConfig::Doa { enabled, csv, .. } && enabled && csv
}

/// The kinds of files that a session with this configuration writes.
pub open spec fn target_kinds(config: AppConfig) -> Seq<Seq<char>> {
    let bf = config.pipeline_enabled && writes_beamformer(config.pipeline.modules@);
    let table = config.pipeline_enabled && writes_table(config.pipeline.modules@);
    seq!["algo"@, "mic"@, "ref"@, "manifest"@] + (if bf {
        seq!["bf"@]
    } else {
        Seq::empty()
    }) + (if table {
        seq!["doa_csv"@]
    } else {
        Seq::empty()
    })
}

/// The names, below the output directory, of the files that a session writes.
pub fn target_paths_for_session(prefix: &str, config: &AppConfig) -> (names: Vec<String>)
    ensures
        names@.len() == target_kinds(*config).len(),
        forall|i: int|
            0 <= i < names@.len() ==> file_name(prefix@, target_kinds(*config)[i]) == Some(
                (#[trigger] names@[i])@,
            ),
{
    let mut names: Vec<String> = Vec::new();
    names.push(joined(prefix, "_respeaker_algo.wav"));
    names.push(joined(prefix, "_respeaker_mic.wav"));
    names.push(joined(prefix, "_respeaker_ref.wav"));
    names.push(joined(prefix, "_respeaker_session.json"));
    let mut bf = false;
    let mut table = false;
    for i in 0..config.pipeline.modules.len()
        invariant
            bf == writes_beamformer(config.pipeline.modules@.take(i as int)),
            table == writes_table(config.pipeline.modules@.take(i as int)),
    {
        let ghost earlier = config.pipeline.modules@.take(i as int);
        let ghost now = config.pipeline.modules@.take(i + 1);
        let module = config.pipeline.modules[i];
        proof {
            assert(now[i as int] == module);
            assert(forall|k: int| 0 <= k < i ==> #[trigger] now[k] == earlier[k]);
        }
        match module {
            ModuleConfig::Doa { enabled, csv, .. } => {
                if enabled && csv {
                    table = true;
                    assert(writes_csv(now[i as int]));
                }
            },
            ModuleConfig::Beamformer { enabled, wav, .. } => {
                if enabled && wav {
                    bf = true;
                    assert(writes_bf(now[i as int]));
                }
            },
        }
        proof {
            if writes_beamformer(earlier) {
                let k = choose|k: int| 0 <= k < earlier.len() && writes_bf(#[trigger] earlier[k]);
                assert(writes_bf(now[k]));
            }
            if writes_table(earlier) {
                let k = choose|k: int| 0 <= k < earlier.len() && writes_csv(#[trigger] earlier[k]);
                assert(writes_csv(now[k]));
            }
            if writes_beamformer(now) {
                let k = choose|k: int| 0 <= k < now.len() && writes_bf(#[trigger] now[k]);
                assert(k < i ==> writes_bf(earlier[k]));
            }
            if writes_table(now) {
                let k = choose|k: int| 0 <= k < now.len() && writes_csv(#[trigger] now[k]);
                assert(k < i ==> writes_csv(earlier[k]));
            }
        }
    }
    proof {
        let modules = config.pipeline.modules@;
        assert(modules.take(modules.len() as int) =~= modules);
        lemma_suffixes();
    }
    if config.pipeline_enabled && bf {
        names.push(joined(prefix, "_respeaker_bf.wav"));
    }
    if config.pipeline_enabled && table {
        names.push(joined(prefix, "_respeaker_doa.csv"));
    }
    names
}

/// A file that a session would write: how its path is shown, and whether it is there already.
#[derive(Debug)]
pub struct TargetFile {
    pub shown: String,
    pub exists: bool,
}

/// The first target that is there already.
pub open spec fn first_clobbered(targets: Seq<TargetFile>, at: int) -> bool {
    &&& 0 <= at < targets.len()
    &&& targets[at].exists
    &&& forall|k: int| 0 <= k < at ==> !(#[trigger] targets[k]).exists
}

/// No file that is there may be written over.
pub fn check_no_clobber(targets: &[TargetFile]) -> (result: Result<(), String>)
    ensures
        result is Ok <==> forall|k: int|
            0 <= k < targets@.len() ==> !(#[trigger] targets@[k]).exists,
        result matches Err(message) ==> exists|at: int| #[trigger]
            first_clobbered(targets@, at) && message@ == "目标文件已存在: "@ + targets@[at].shown@,
{
    for i in 0..targets.len()
        invariant
            forall|k: int| 0 <= k < i ==> !(#[trigger] targets@[k]).exists,
    {
        if targets[i].exists {
            assert(first_clobbered(targets@, i as int));
            return Err(joined("目标文件已存在: ", targets[i].shown.as_str()));
        }
    }
    Ok(())
}

#[derive(Debug)]
pub struct SessionManifest {
    pub schema_version: u32,
    pub session_id: String,
    pub prefix: String,
    pub started_at: String,
    pub finished_at: Option<String>,
    pub status: SessionResultStatus,
    pub active_config: AppConfig,
    pub captured_frames: u64,
    pub pipeline_stats: Option<PipelineWorkerStats>,
    pub bf_stats: Option<BeamformerStats>,
    pub error: Option<ServiceError>,
    pub files: Vec<SessionFile>,
}

/// What the file system says of a file.
#[derive(Clone, Copy, Debug, PartialEq, Eq, Structural)]
pub struct FileStat {
    pub bytes: u64,
    pub exists: bool,
}

/// The files of a session, one of each kind, with what the file system says of each.
pub open spec fn session_files(prefix: Seq<char>, stats: Seq<FileStat>) -> Seq<FileView> {
    Seq::new(
        6,
        |i: int|
            FileView {
                kind: kinds()[i],
                path: prefix + kind_suffix(kinds()[i])->0,
                bytes: stats[i].bytes,
                exists: stats[i].exists,
            },
    )
}

fn session_files_of(prefix: &str, stats: &[FileStat; 6]) -> (files: Vec<SessionFile>)
    ensures
        file_views(files@) == session_files(prefix@, stats@),
{
    let all = all_kinds();
    let mut files: Vec<SessionFile> = Vec::new();
    for i in 0..6usize
        invariant
            forall|k: int| 0 <= k < 6 ==> (#[trigger] all@[k])@ == kinds()[k],
            file_views(files@) == session_files(prefix@, stats@).take(i as int),
    {
        let ghost earlier = files@;
        proof {
            lemma_suffixes();
            assert(all@[i as int]@ == kinds()[i as int]);
            assert(kind_suffix(kinds()[i as int]) is Some);
        }
        if let Some(name) = kind_to_filename(prefix, all[i]) {
            files.push(
                SessionFile {
                    kind: all[i].to_owned(),
                    path: name,
                    bytes: stats[i].bytes,
                    exists: stats[i].exists,
                },
            );
        }
        proof {
            assert(file_views(files@) =~= file_views(earlier).push(files@.last()@));
            assert(files@.last()@ == session_files(prefix@, stats@)[i as int]);
            assert(file_views(files@) =~= session_files(prefix@, stats@).take(i + 1));
        }
    }
    assert(session_files(prefix@, stats@).take(6) =~= session_files(prefix@, stats@));
    files
}

impl SessionManifest {
    pub fn new(
        session_id: String,
        prefix: String,
        started_at: String,
        active_config: AppConfig,
    ) -> (manifest: Self)
        ensures
            manifest.schema_version == MANIFEST_VERSION,
            manifest.session_id == session_id,
            manifest.prefix == prefix,
            manifest.started_at == started_at,
            manifest.finished_at is None,
            manifest.status == SessionResultStatus::Starting,
            manifest.active_config == active_config,
            manifest.captured_frames == 0,
            manifest.pipeline_stats is None,
            manifest.bf_stats is None,
            manifest.error is None,
            manifest.files@.len() == 0,
    {
        SessionManifest {
            schema_version: MANIFEST_VERSION,
            session_id,
            prefix,
            started_at,
            finished_at: None,
            status: SessionResultStatus::Starting,
            active_config,
            captured_frames: 0,
            pipeline_stats: None,
            bf_stats: None,
            error: None,
            files: Vec::new(),
        }
    }

    /// The name, below the output directory, of the manifest of a session.
    pub fn manifest_path(prefix: &str) -> (name: String)
        ensures
            name@ == prefix@ + "_respeaker_session.json"@,
    {
        joined(prefix, "_respeaker_session.json")
    }

    /// Takes over what the file system says of the six files, in the order of the kinds.
    pub fn refresh_files(&mut self, stats: &[FileStat; 6])
        ensures
            file_views(final(self).files@) == session_files(old(self).prefix@, stats@),
            *final(self) == (SessionManifest { files: final(self).files, ..*old(self) }),
    {
        let files = session_files_of(self.prefix.as_str(), stats);
        self.files = files;
    }
}

#[derive(Debug)]
pub struct RecordingEntry {
    pub id: String,
    pub prefix: String,
    pub status: SessionResultStatus,
    pub manifest: Option<SessionManifest>,
    pub files: Vec<SessionFile>,
}

/// What an entry says.
pub struct EntryView {
    pub id: Seq<char>,
    pub prefix: Seq<char>,
    pub status: SessionResultStatus,
    pub manifest: Option<SessionManifest>,
    pub files: Seq<FileView>,
}

impl View for RecordingEntry {
    type V = EntryView;

    open spec fn view(&self) -> EntryView {
        EntryView {
            id: self.id@,
            prefix: self.prefix@,
            status: self.status,
            manifest: self.manifest,
            files: file_views(self.files@),
        }
    }
}

/// What the entries of a list say.
pub open spec fn entry_views(entries: Seq<RecordingEntry>) -> Seq<EntryView> {
    entries.map_values(|e: RecordingEntry| e@)
}

/// The entry of a session that has a manifest.
pub open spec fn manifest_entry(m: SessionManifest) -> EntryView {
    EntryView {
        id: m.session_id@,
        prefix: m.prefix@,
        status: m.status,
        manifest: Some(m),
        files: file_views(m.files@),
    }
}

fn entry_of_manifest(manifest: SessionManifest) -> (entry: RecordingEntry)
    ensures
        entry@ == manifest_entry(manifest),
{
    RecordingEntry {
        id: manifest.session_id.clone(),
        prefix: manifest.prefix.clone(),
        status: manifest.status,
        files: clone_files(&manifest.files),
        manifest: Some(manifest),
    }
}

/// The entry of a session that has none.
pub open spec fn legacy_entry(prefix: Seq<char>, files: Seq<FileView>) -> EntryView {
    EntryView {
        id: "legacy-"@ + prefix,
        prefix,
        status: SessionResultStatus::Legacy,
        manifest: None,
        files,
    }
}

/// Something in the output directory. Where the name is that of a manifest, `manifest` is what
/// the file holds, and `None` where it could not be read.
#[derive(Debug)]
pub struct DirEntry {
    pub name: String,
    pub is_file: bool,
    pub bytes: u64,
    pub manifest: Option<SessionManifest>,
}

/// A manifest says that its session is under way.
pub open spec fn under_way(status: SessionResultStatus) -> bool {
    status == SessionResultStatus::Starting || status == SessionResultStatus::Recording
}

/// A manifest as the catalog shows it: a session that is said to be under way but is not the
/// active one was interrupted.
pub open spec fn settled(m: SessionManifest, active: Option<Seq<char>>) -> SessionManifest {
    if active != Some(m.session_id@) && under_way(m.status) {
        SessionManifest { status: SessionResultStatus::Interrupted, ..m }
    } else {
        m
    }
}

pub open spec fn hidden(name: Seq<char>) -> bool {
    begins_with(name, "."@)
}

pub open spec fn manifest_name(name: Seq<char>) -> bool {
    ends_with(name, "_respeaker_session.json"@)
}

/// Whether a file name is that of a manifest.
pub fn is_manifest_name(name: &str) -> (b: bool)
    ensures
        b == manifest_name(name@),
{
    strip_tail(name, "_respeaker_session.json").is_some()
}

/// The manifest that the catalog takes from something in the directory.
pub open spec fn listed_manifest(e: DirEntry) -> Option<SessionManifest> {
    if !hidden(e.name@) && manifest_name(e.name@) {
        e.manifest
    } else {
        None
    }
}

/// The entries of the sessions with a prefix that have a manifest, in the order of the listing.
pub open spec fn manifests_of(
    listing: Seq<DirEntry>,
    active: Option<Seq<char>>,
    prefix: Seq<char>,
) -> Seq<EntryView>
    decreases listing.len(),
{
    if listing.len() == 0 {
        Seq::empty()
    } else {
        let later = manifests_of(listing.drop_first(), active, prefix);
        match listed_manifest(listing[0]) {
            Some(m) => if m.prefix@ == prefix {
                seq![manifest_entry(settled(m, active))] + later
            } else {
                later
            },
            None => later,
        }
    }
}

/// The prefix and the kind that the name of a recorded file tells; `None` for other names, and
/// for manifests.
pub open spec fn recorded_file(name: Seq<char>) -> Option<(Seq<char>, Seq<char>)> {
    if ends_with(name, "_respeaker_algo.wav"@) {
        Some((name.take(name.len() - "_respeaker_algo.wav"@.len()), "algo"@))
    } else if ends_with(name, "_respeaker_mic.wav"@) {
        Some((name.take(name.len() - "_respeaker_mic.wav"@.len()), "mic"@))
    } else if ends_with(name, "_respeaker_ref.wav"@) {
        Some((name.take(name.len() - "_respeaker_ref.wav"@.len()), "ref"@))
    } else if ends_with(name, "_respeaker_bf.wav"@) {
        Some((name.take(name.len() - "_respeaker_bf.wav"@.len()), "bf"@))
    } else if ends_with(name, "_respeaker_doa.csv"@) {
        Some((name.take(name.len() - "_respeaker_doa.csv"@.len()), "doa_csv"@))
    } else {
        None
    }
}

fn head_before(name: &str, suffix: &str) -> (head: Option<String>)
    ensures
        head is Some <==> ends_with(name@, suffix@),
        head matches Some(h) ==> h@ == name@.take(name@.len() - suffix@.len()),
{
    match strip_tail(name, suffix) {
        Some(h) => {
            assert(h@ =~= name@.take(name@.len() - suffix@.len()));
            Some(h)
        },
        None => None,
    }
}

fn recorded_file_of(name: &str) -> (found: Option<(String, &'static str)>)
    ensures
        found is Some <==> recorded_file(name@) is Some,
        found matches Some(f) ==> (f.0@, f.1@) == recorded_file(name@)->0,
{
    if let Some(prefix) = head_before(name, "_respeaker_algo.wav") {
        return Some((prefix, "algo"));
    }
    if let Some(prefix) = head_before(name, "_respeaker_mic.wav") {
        return Some((prefix, "mic"));
    }
    if let Some(prefix) = head_before(name, "_respeaker_ref.wav") {
        return Some((prefix, "ref"));
    }
    if let Some(prefix) = head_before(name, "_respeaker_bf.wav") {
        return Some((prefix, "bf"));
    }
    if let Some(prefix) = head_before(name, "_respeaker_doa.csv") {
        return Some((prefix, "doa_csv"));
    }
    None
}

/// The recorded file that the catalog takes from something in the directory, with its prefix.
pub open spec fn listed_file(e: DirEntry) -> Option<(Seq<char>, FileView)> {
    if hidden(e.name@) || manifest_name(e.name@) || !e.is_file {
        None
    } else {
        match recorded_file(e.name@) {
            Some((prefix, kind)) => Some(
                (prefix, FileView { kind, path: e.name@, bytes: e.bytes, exists: true }),
            ),
            None => None,
        }
    }
}

/// The recorded files with a prefix, in the order of the listing.
pub open spec fn files_of(listing: Seq<DirEntry>, prefix: Seq<char>) -> Seq<FileView>
    decreases listing.len(),
{
    if listing.len() == 0 {
        Seq::empty()
    } else {
        let earlier = files_of(listing.drop_last(), prefix);
        match listed_file(listing.last()) {
            Some((p, file)) => if p == prefix {
                earlier.push(file)
            } else {
                earlier
            },
            None => earlier,
        }
    }
}

/// The entries of the catalog with a prefix: those of the manifests; where there is none, one for
/// the files that are there.
pub open spec fn catalog_of(
    listing: Seq<DirEntry>,
    active: Option<Seq<char>>,
    prefix: Seq<char>,
) -> Seq<EntryView> {
    if manifests_of(listing, active, prefix).len() > 0 {
        manifests_of(listing, active, prefix)
    } else if files_of(listing, prefix).len() > 0 {
        seq![legacy_entry(prefix, files_of(listing, prefix))]
    } else {
        Seq::empty()
    }
}

/// The entries with a prefix, in order.
pub open spec fn entries_of(entries: Seq<EntryView>, prefix: Seq<char>) -> Seq<EntryView> {
    entries.filter(|e: EntryView| e.prefix == prefix)
}

/// In descending order of the prefixes: prefixes begin with the time of the recording, so the
/// latest comes first.
pub open spec fn latest_first(entries: Seq<EntryView>) -> bool {
    forall|i: int, j: int|
        0 <= i <= j < entries.len() ==> not_behind(
            (#[trigger] entries[j]).prefix,
            (#[trigger] entries[i]).prefix,
        )
}

/// Putting an entry in front of those that are not before it in prefix order: only the group of
/// its own prefix changes, and there it comes first.
proof fn lemma_group_after_insert(
    entries: Seq<EntryView>,
    at: int,
    entry: EntryView,
    prefix: Seq<char>,
)
    requires
        0 <= at <= entries.len(),
        forall|k: int| 0 <= k < at ==> (#[trigger] entries[k]).prefix != entry.prefix,
    ensures
        entries_of(entries.insert(at, entry), prefix) == if prefix == entry.prefix {
            seq![entry] + entries_of(entries, prefix)
        } else {
            entries_of(entries, prefix)
        },
{
    let f = |e: EntryView| e.prefix == prefix;
    let head = entries.take(at);
    let tail = entries.skip(at);
    assert(entries.insert(at, entry) =~= head + (seq![entry] + tail));
    assert(entries =~= head + tail);
    Seq::filter_distributes_over_add(head, seq![entry] + tail, f);
    Seq::filter_distributes_over_add(seq![entry], tail, f);
    Seq::filter_distributes_over_add(head, tail, f);
    reveal(Seq::filter);
    assert(seq![entry].drop_last() =~= Seq::<EntryView>::empty());
    assert(seq![entry].last() == entry);
    if prefix == entry.prefix {
        assert(seq![entry].filter(f) =~= seq![entry]);
        lemma_no_group(head, prefix);
        assert(Seq::<EntryView>::empty() + (seq![entry] + tail.filter(f)) =~= seq![entry]
            + tail.filter(f));
        assert(Seq::<EntryView>::empty() + tail.filter(f) =~= tail.filter(f));
    } else {
        lemma_no_group(seq![entry], prefix);
        assert(Seq::<EntryView>::empty() + tail.filter(f) =~= tail.filter(f));
    }
}

proof fn lemma_no_group(entries: Seq<EntryView>, prefix: Seq<char>)
    requires
        forall|k: int| 0 <= k < entries.len() ==> (#[trigger] entries[k]).prefix != prefix,
    ensures
        entries_of(entries, prefix) == Seq::<EntryView>::empty(),
    decreases entries.len(),
{
    reveal(Seq::filter);
    if entries.len() > 0 {
        let rest = entries.drop_last();
        assert forall|k: int| 0 <= k < rest.len() implies (#[trigger] rest[k]).prefix != prefix by {
            assert(rest[k] == entries[k]);
        }
        lemma_no_group(rest, prefix);
        assert(entries.last() == entries[entries.len() - 1]);
    } else {
        assert(entries_of(entries, prefix) =~= Seq::<EntryView>::empty());
    }
}

/// A group is there exactly when some entry has its prefix.
proof fn lemma_group_is_there(entries: Seq<EntryView>, prefix: Seq<char>)
    ensures
        entries_of(entries, prefix).len() > 0 <==> exists|k: int|
            0 <= k < entries.len() && (#[trigger] entries[k]).prefix == prefix,
{
    let f = |e: EntryView| e.prefix == prefix;
    if exists|k: int| 0 <= k < entries.len() && (#[trigger] entries[k]).prefix == prefix {
        let k = choose|k: int|
            0 <= k < entries.len() && (#[trigger] entries[k]).prefix == prefix;
        entries.lemma_filter_contains(f, k);
        assert(entries.filter(f).contains(entries[k]));
    } else {
        lemma_no_group(entries, prefix);
    }
}

/// Puts an entry where it belongs in a list with the latest first, in front of those with the
/// same prefix.
fn insert_entry(entries: &mut Vec<RecordingEntry>, entry: RecordingEntry)
    requires
        latest_first(entry_views(old(entries)@)),
    ensures
        latest_first(entry_views(final(entries)@)),
        forall|p: Seq<char>| #[trigger]
            entries_of(entry_views(final(entries)@), p) == if p == entry.prefix@ {
                seq![entry@] + entries_of(entry_views(old(entries)@), p)
            } else {
                entries_of(entry_views(old(entries)@), p)
            },
{
    let ghost original = entries@;
    let ghost views = entry_views(original);
    let mut at: usize = 0;
    while at < entries.len() && is_before_str(entry.prefix.as_str(), entries[at].prefix.as_str())
        invariant
            entries@ == original,
            views == entry_views(original),
            at <= entries@.len(),
            forall|k: int|
                0 <= k < at ==> before(entry.prefix@, (#[trigger] original[k]).prefix@),
        decreases entries@.len() - at,
    {
        at = at + 1;
    }
    entries.insert(at, entry);
    proof {
        let new = entry_views(entries@);
        assert(new =~= views.insert(at as int, entry@));
        assert forall|k: int| 0 <= k < at implies (#[trigger] views[k]).prefix != entry.prefix@ by {
            assert(views[k] == original[k]@);
            lemma_before_is_total(entry.prefix@, original[k].prefix@);
        }
        assert forall|p: Seq<char>| #[trigger]
            entries_of(new, p) == (if p == entry.prefix@ {
                seq![entry@] + entries_of(views, p)
            } else {
                entries_of(views, p)
            }) by {
            lemma_group_after_insert(views, at as int, entry@, p);
        }
        assert forall|i: int, j: int| 0 <= i <= j < new.len() implies not_behind(
            (#[trigger] new[j]).prefix,
            (#[trigger] new[i]).prefix,
        ) by {
            let e = entry.prefix@;
            if i < at && j == at {
                lemma_before_is_total(e, views[i].prefix);
                assert(before(e, original[i].prefix@));
            } else if i == at && j == at {
                lemma_before_is_total(e, e);
            } else if i == at && j > at {
                assert(new[j] == views[j - 1]);
                assert(!before(e, original[at as int].prefix@));
                assert(views[at as int] == original[at as int]@);
                assert(not_behind(views[j - 1].prefix, views[at as int].prefix));
                lemma_not_behind_is_transitive(views[j - 1].prefix, views[at as int].prefix, e);
            } else {
                let k = if i < at {
                    i
                } else {
                    i - 1
                };
                let l = if j < at {
                    j
                } else {
                    j - 1
                };
                assert(new[i] == views[k] && new[j] == views[l]);
            }
        }
    }
}

/// The files of one prefix.
struct FileGroup {
    prefix: String,
    files: Vec<SessionFile>,
}

/// The groups hold the recorded files of a listing.
spec fn groups_hold(groups: Seq<FileGroup>, listing: Seq<DirEntry>) -> bool {
    &&& forall|g: int|
        0 <= g < groups.len() ==> group_holds(#[trigger] groups[g], listing)
    &&& forall|g: int, h: int|
        0 <= g < h < groups.len() ==> (#[trigger] groups[g]).prefix@ != (
        #[trigger] groups[h]).prefix@
    &&& forall|p: Seq<char>|
        (#[trigger] files_of(listing, p)).len() > 0 ==> exists|g: int|
            0 <= g < groups.len() && (#[trigger] groups[g]).prefix@ == p
}

spec fn group_holds(group: FileGroup, listing: Seq<DirEntry>) -> bool {
    file_views(group.files@) == files_of(listing, group.prefix@) && group.files@.len() > 0
}

fn find_group(groups: &Vec<FileGroup>, prefix: &str) -> (found: Option<usize>)
    ensures
        match found {
            Some(g) => g < groups@.len() && groups@[g as int].prefix@ == prefix@,
            None => forall|g: int|
                0 <= g < groups@.len() ==> (#[trigger] groups@[g]).prefix@ != prefix@,
        },
{
    for g in 0..groups.len()
        invariant
            forall|k: int| 0 <= k < g ==> (#[trigger] groups@[k]).prefix@ != prefix@,
    {
        if same_text(groups[g].prefix.as_str(), prefix) {
            return Some(g);
        }
    }
    None
}

fn is_hidden(name: &str) -> (b: bool)
    ensures
        b == hidden(name@),
{
    strip_head(name, ".").is_some()
}

fn listed_file_of(e: &DirEntry) -> (found: Option<(String, SessionFile)>)
    ensures
        found is Some <==> listed_file(*e) is Some,
        found matches Some(f) ==> (f.0@, f.1@) == listed_file(*e)->0,
{
    let name = e.name.as_str();
    if is_hidden(name) || is_manifest_name(name) || !e.is_file {
        return None;
    }
    match recorded_file_of(name) {
        Some((prefix, kind)) => Some(
            (
                prefix,
                SessionFile {
                    kind: kind.to_owned(),
                    path: e.name.clone(),
                    bytes: e.bytes,
                    exists: true,
                },
            ),
        ),
        None => None,
    }
}

fn group_files(listing: &Vec<DirEntry>) -> (groups: Vec<FileGroup>)
    ensures
        groups_hold(groups@, listing@),
{
    let mut groups: Vec<FileGroup> = Vec::new();
    for i in 0..listing.len()
        invariant
            groups_hold(groups@, listing@.take(i as int)),
    {
        let ghost earlier = listing@.take(i as int);
        let ghost now = listing@.take(i + 1);
        let ghost known = groups@;
        proof {
            assert(now.drop_last() =~= earlier);
            assert(now.last() == listing@[i as int]);
        }
        match listed_file_of(&listing[i]) {
            Some((prefix, file)) => {
                let ghost p = prefix@;
                let ghost added = file@;
                assert(files_of(now, p) == files_of(earlier, p).push(added));
                match find_group(&groups, prefix.as_str()) {
                    Some(g) => {
                        let mut group = groups.swap_remove(g);
                        let ghost held = group;
                        group.files.push(file);
                        groups.push(group);
                        proof {
                            assert(group_holds(known[g as int], earlier));
                            assert(held == known[g as int]);
                            assert(file_views(group.files@) =~= file_views(held.files@).push(
                                added,
                            ));
                            lemma_group_replaced(known, groups@, g as int, group, earlier, now, p);
                        }
                    },
                    None => {
                        let mut files: Vec<SessionFile> = Vec::new();
                        files.push(file);
                        let group = FileGroup { prefix, files };
                        groups.push(group);
                        proof {
                            assert(files_of(earlier, p).len() == 0);
                            assert(files_of(earlier, p) =~= Seq::<FileView>::empty());
                            assert(file_views(group.files@) =~= files_of(now, p));
                            lemma_group_added(known, groups@, group, earlier, now, p);
                        }
                    },
                }
            },
            None => {
                proof {
                    assert forall|q: Seq<char>| files_of(now, q) == #[trigger] files_of(
                        earlier,
                        q,
                    ) by {}
                    lemma_groups_kept(known, earlier, now);
                }
            },
        }
    }
    assert(listing@.take(listing@.len() as int) =~= listing@);
    groups
}

proof fn lemma_groups_kept(groups: Seq<FileGroup>, earlier: Seq<DirEntry>, now: Seq<DirEntry>)
    requires
        groups_hold(groups, earlier),
        forall|q: Seq<char>| files_of(now, q) == #[trigger] files_of(earlier, q),
    ensures
        groups_hold(groups, now),
{
    assert forall|g: int| 0 <= g < groups.len() implies group_holds(#[trigger] groups[g], now) by {
        assert(group_holds(groups[g], earlier));
        assert(files_of(now, groups[g].prefix@) == files_of(earlier, groups[g].prefix@));
    }
    assert forall|p: Seq<char>| (#[trigger] files_of(now, p)).len() > 0 implies exists|g: int|
        0 <= g < groups.len() && (#[trigger] groups[g]).prefix@ == p by {
        assert(files_of(now, p) == files_of(earlier, p));
    }
}

proof fn lemma_group_added(
    known: Seq<FileGroup>,
    groups: Seq<FileGroup>,
    group: FileGroup,
    earlier: Seq<DirEntry>,
    now: Seq<DirEntry>,
    p: Seq<char>,
)
    requires
        groups_hold(known, earlier),
        groups == known.push(group),
        group.prefix@ == p,
        group_holds(group, now),
        forall|g: int| 0 <= g < known.len() ==> (#[trigger] known[g]).prefix@ != p,
        now.len() > 0,
        now.drop_last() == earlier,
        listed_file(now.last()) matches Some(f) && f.0 == p,
    ensures
        groups_hold(groups, now),
{
    assert forall|g: int| 0 <= g < groups.len() implies group_holds(#[trigger] groups[g], now) by {
        if g < known.len() {
            assert(groups[g] == known[g]);
            assert(group_holds(known[g], earlier));
        }
    }
    assert forall|q: Seq<char>| (#[trigger] files_of(now, q)).len() > 0 implies exists|g: int|
        0 <= g < groups.len() && (#[trigger] groups[g]).prefix@ == q by {
        if q == p {
            assert(groups[known.len() as int].prefix@ == q);
        } else {
            assert(files_of(now, q) == files_of(earlier, q));
            let g = choose|g: int| 0 <= g < known.len() && (#[trigger] known[g]).prefix@ == q;
            assert(groups[g] == known[g]);
        }
    }
}

proof fn lemma_group_replaced(
    known: Seq<FileGroup>,
    groups: Seq<FileGroup>,
    at: int,
    group: FileGroup,
    earlier: Seq<DirEntry>,
    now: Seq<DirEntry>,
    p: Seq<char>,
)
    requires
        groups_hold(known, earlier),
        0 <= at < known.len(),
        groups == known.update(at, known.last()).drop_last().push(group),
        group.prefix@ == p,
        known[at].prefix@ == p,
        group_holds(group, now),
        now.len() > 0,
        now.drop_last() == earlier,
        listed_file(now.last()) matches Some(f) && f.0 == p,
    ensures
        groups_hold(groups, now),
{
    let last = known.len() - 1;
    assert forall|g: int| 0 <= g < last implies #[trigger] groups[g] == (if g == at {
        known[last]
    } else {
        known[g]
    }) by {}
    assert(groups[last] == group);
    assert forall|g: int| 0 <= g < groups.len() implies group_holds(#[trigger] groups[g], now) by {
        if g < last {
            let o = if g == at {
                last
            } else {
                g
            };
            assert(groups[g] == known[o]);
            assert(group_holds(known[o], earlier));
            assert(known[o].prefix@ != known[at].prefix@);
        }
    }
    assert forall|g: int, h: int| 0 <= g < h < groups.len() implies (
    #[trigger] groups[g]).prefix@ != (#[trigger] groups[h]).prefix@ by {
        let o = if g == at {
            last
        } else {
            g
        };
        let q = if h == last {
            at
        } else if h == at {
            last
        } else {
            h
        };
        assert(groups[g].prefix@ == known[o].prefix@);
        assert(groups[h].prefix@ == known[q].prefix@);
        assert(o != q);
    }
    assert forall|q: Seq<char>| (#[trigger] files_of(now, q)).len() > 0 implies exists|g: int|
        0 <= g < groups.len() && (#[trigger] groups[g]).prefix@ == q by {
        if q == p {
            assert(groups[last].prefix@ == q);
        } else {
            assert(files_of(now, q) == files_of(earlier, q));
            let o = choose|g: int| 0 <= g < known.len() && (#[trigger] known[g]).prefix@ == q;
            let g = if o == last {
                at
            } else {
                o
            };
            assert(groups[g] == known[o]);
        }
    }
}

/// The manifest entry that something in the directory gives.
fn listed_manifest_entry(e: DirEntry, active: Option<&str>) -> (entry: Option<RecordingEntry>)
    ensures
        entry is Some <==> listed_manifest(e) is Some,
        entry matches Some(r) ==> r@ == manifest_entry(
            settled(listed_manifest(e)->0, active_id(active)),
        ),
        entry matches Some(r) ==> e.manifest is Some && {
            let m = e.manifest->0;
            (!(m.status is Starting) && !(m.status is Recording)) || active_id(active) == Some(
                m.session_id@,
            ) ==> r.status == m.status && r.manifest == Some(m)
        },
{
    if is_hidden(e.name.as_str()) || !is_manifest_name(e.name.as_str()) {
        return None;
    }
    match e.manifest {
        Some(manifest) => {
            let is_active = match active {
                Some(id) => same_text(id, manifest.session_id.as_str()),
                None => false,
            };
            let mut shown = manifest;
            if !is_active && (shown.status == SessionResultStatus::Starting || shown.status
                == SessionResultStatus::Recording) {
                shown.status = SessionResultStatus::Interrupted;
            }
            Some(entry_of_manifest(shown))
        },
        None => None,
    }
}

pub open spec fn active_id(active: Option<&str>) -> Option<Seq<char>> {
    match active {
        Some(id) => Some(id@),
        None => None,
    }
}

fn manifest_entries(listing: Vec<DirEntry>, active: Option<&str>) -> (entries: Vec<RecordingEntry>)
    ensures
        latest_first(entry_views(entries@)),
        forall|p: Seq<char>| #[trigger]
            entries_of(entry_views(entries@), p) == manifests_of(listing@, active_id(active), p),
{
    let ghost whole = listing@;
    let mut rest = listing;
    let mut entries: Vec<RecordingEntry> = Vec::new();
    proof {
        assert forall|p: Seq<char>| #[trigger]
            entries_of(entry_views(entries@), p) == manifests_of(
                whole.skip(rest@.len() as int),
                active_id(active),
                p,
            ) by {
            lemma_no_group(entry_views(entries@), p);
        }
    }
    while rest.len() > 0
        invariant
            rest@.len() <= whole.len(),
            rest@ == whole.take(rest@.len() as int),
            latest_first(entry_views(entries@)),
            forall|p: Seq<char>| #[trigger]
                entries_of(entry_views(entries@), p) == manifests_of(
                    whole.skip(rest@.len() as int),
                    active_id(active),
                    p,
                ),
        decreases rest@.len(),
    {
        let ghost later = whole.skip(rest@.len() as int);
        let ghost now = whole.skip(rest@.len() - 1);
        let ghost known = entry_views(entries@);
        proof {
            assert(now.drop_first() =~= later);
            assert(now[0] == whole[rest@.len() - 1]);
        }
        if let Some(e) = rest.pop() {
            assert(e == now[0]);
            if let Some(entry) = listed_manifest_entry(e, active) {
                insert_entry(&mut entries, entry);
            }
        }
        assert(rest@ =~= whole.take(rest@.len() as int));
    }
    assert(whole.skip(0) =~= whole);
    entries
}

fn has_prefix(entries: &Vec<RecordingEntry>, prefix: &str) -> (b: bool)
    ensures
        b == (entries_of(entry_views(entries@), prefix@).len() > 0),
{
    for i in 0..entries.len()
        invariant
            forall|k: int|
                0 <= k < i ==> (#[trigger] entry_views(entries@)[k]).prefix != prefix@,
    {
        if same_text(entries[i].prefix.as_str(), prefix) {
            proof {
                lemma_group_is_there(entry_views(entries@), prefix@);
                assert(entry_views(entries@)[i as int].prefix == prefix@);
            }
            return true;
        }
        assert(entry_views(entries@)[i as int].prefix != prefix@);
    }
    proof {
        lemma_group_is_there(entry_views(entries@), prefix@);
    }
    false
}

/// The catalog of an output directory from its listing, with the latest recordings first; entries
/// with the same prefix stay in the order of the listing.
pub fn scan_catalog_with_active(listing: Vec<DirEntry>, active_session_id: Option<&str>) -> (entries:
    Vec<RecordingEntry>)
    ensures
        latest_first(entry_views(entries@)),
        forall|p: Seq<char>| #[trigger]
            entries_of(entry_views(entries@), p) == catalog_of(
                listing@,
                active_id(active_session_id),
                p,
            ),
{
    let ghost whole = listing@;
    let ghost active = active_id(active_session_id);
    let mut groups = group_files(&listing);
    let ghost all = groups@;
    let mut entries = manifest_entries(listing, active_session_id);
    while groups.len() > 0
        invariant
            groups@.len() <= all.len(),
            groups@ == all.take(groups@.len() as int),
            groups_hold(all, whole),
            latest_first(entry_views(entries@)),
            forall|p: Seq<char>| #[trigger]
                entries_of(entry_views(entries@), p) == (if in_groups(
                    all.skip(groups@.len() as int),
                    p,
                ) {
                    catalog_of(whole, active, p)
                } else {
                    manifests_of(whole, active, p)
                }),
        decreases groups@.len(),
    {
        let ghost g = groups@.len() - 1;
        let ghost known = entry_views(entries@);
        let ghost prefix = all[g].prefix@;
        proof {
            assert(all[g] == groups@[g]);
            assert(group_holds(all[g], whole));
            assert forall|p: Seq<char>| #[trigger]
                in_groups(all.skip(g), p) == (p == prefix || in_groups(all.skip(g + 1), p)) by {
                lemma_in_later_groups(all, g, p);
            }
            assert(!in_groups(all.skip(g + 1), prefix)) by {
                if in_groups(all.skip(g + 1), prefix) {
                    let k = choose|k: int|
                        0 <= k < all.skip(g + 1).len() && (#[trigger] all.skip(
                            g + 1,
                        )[k]).prefix@ == prefix;
                    assert(all[g + 1 + k].prefix@ == all[g].prefix@);
                }
            }
            assert(entries_of(known, prefix) == manifests_of(whole, active, prefix));
        }
        if let Some(group) = groups.pop() {
            if !has_prefix(&entries, group.prefix.as_str()) {
                let entry = RecordingEntry {
                    id: joined("legacy-", group.prefix.as_str()),
                    prefix: group.prefix,
                    status: SessionResultStatus::Legacy,
                    manifest: None,
                    files: group.files,
                };
                proof {
                    assert(entry@ == legacy_entry(prefix, files_of(whole, prefix)));
                    assert(entries_of(known, prefix).len() == 0);
                    assert(seq![entry@] + entries_of(known, prefix) =~= seq![entry@]);
                }
                insert_entry(&mut entries, entry);
            }
            proof {
                assert(files_of(whole, prefix).len() == file_views(all[g].files@).len());
                assert(groups@ =~= all.take(groups@.len() as int));
            }
        }
        assert(groups@.len() == g);
    }
    proof {
        assert(all.skip(0) =~= all);
        assert forall|p: Seq<char>| #[trigger]
            entries_of(entry_views(entries@), p) == catalog_of(whole, active, p) by {
            if !in_groups(all, p) {
                if files_of(whole, p).len() > 0 {
                    let k = choose|k: int|
                        0 <= k < all.len() && (#[trigger] all[k]).prefix@ == p;
                    assert(in_groups(all, p));
                }
                assert(manifests_of(whole, active, p).len() == 0 ==> manifests_of(whole, active, p)
                    =~= Seq::<EntryView>::empty());
            }
        }
    }
    entries
}

spec fn in_groups(groups: Seq<FileGroup>, prefix: Seq<char>) -> bool {
    exists|g: int| 0 <= g < groups.len() && (#[trigger] groups[g]).prefix@ == prefix
}

proof fn lemma_in_later_groups(all: Seq<FileGroup>, g: int, p: Seq<char>)
    requires
        0 <= g < all.len(),
    ensures
        in_groups(all.skip(g), p) == (p == all[g].prefix@ || in_groups(all.skip(g + 1), p)),
{
    let here = all.skip(g);
    let later = all.skip(g + 1);
    if in_groups(here, p) {
        let k = choose|k: int| 0 <= k < here.len() && (#[trigger] here[k]).prefix@ == p;
        if k > 0 {
            assert(later[k - 1] == here[k]);
        }
    }
    if in_groups(later, p) {
        let k = choose|k: int| 0 <= k < later.len() && (#[trigger] later[k]).prefix@ == p;
        assert(here[k + 1] == later[k]);
    }
    assert(here[0] == all[g]);
}

/// The catalog while no session is active.
pub fn scan_catalog(listing: Vec<DirEntry>) -> (entries: Vec<RecordingEntry>)
    ensures
        latest_first(entry_views(entries@)),
        forall|p: Seq<char>| #[trigger]
            entries_of(entry_views(entries@), p) == catalog_of(listing@, None, p),
{
    scan_catalog_with_active(listing, None)
}

/// The first entry with an identifier.
pub open spec fn first_with_id(entries: Seq<EntryView>, id: Seq<char>, at: int) -> bool {
    &&& 0 <= at < entries.len()
    &&& entries[at].id == id
    &&& forall|k: int| 0 <= k < at ==> (#[trigger] entries[k]).id != id
}

pub(crate) fn take_entry(entries: Vec<RecordingEntry>, id: &str) -> (found: Option<RecordingEntry>)
    ensures
        match found {
            Some(entry) => exists|at: int| #[trigger]
                first_with_id(entry_views(entries@), id@, at) && entries@[at] == entry,
            None => forall|k: int|
                0 <= k < entries@.len() ==> (#[trigger] entry_views(entries@)[k]).id != id@,
        },
{
    let mut list = entries;
    let count: usize = list.len();
    for i in 0..count
        invariant
            count == entries@.len(),
            list@ == entries@,
            forall|k: int| 0 <= k < i ==> (#[trigger] entry_views(entries@)[k]).id != id@,
    {
        if same_text(list[i].id.as_str(), id) {
            assert(entry_views(entries@)[i as int].id == id@);
            assert(first_with_id(entry_views(entries@), id@, i as int));
            return Some(list.swap_remove(i));
        }
        assert(entry_views(entries@)[i as int].id != id@);
    }
    None
}

/// Something is found in a catalog, or it is said why not.
pub open spec fn found_in(
    entries: Seq<EntryView>,
    id: Seq<char>,
    result: Result<RecordingEntry, String>,
    missing: Seq<char>,
) -> bool {
    match result {
        Ok(entry) => valid_session_id(id) && exists|at: int| #[trigger]
            first_with_id(entries, id, at) && entries[at] == entry@,
        Err(message) => if !valid_session_id(id) {
            message@ == session_id_message(id)
        } else {
            &&& forall|k: int| 0 <= k < entries.len() ==> (#[trigger] entries[k]).id != id
            &&& message@ == missing
        },
    }
}

/// Finds a session in the catalog.
pub fn find_entry(entries: Vec<RecordingEntry>, session_id: &str) -> (result: Result<
    RecordingEntry,
    String,
>)
    ensures
        found_in(
            entry_views(entries@),
            session_id@,
            result,
            "session "@ + session_id@ + " 不存在"@,
        ),
{
    if let Err(message) = validate_session_id(session_id) {
        return Err(message);
    }
    match take_entry(entries, session_id) {
        Some(entry) => Ok(entry),
        None => {
            let mut message = "session ".to_owned();
            message.append(session_id);
            message.append(" 不存在");
            Err(message)
        },
    }
}

/// Finds a session in the catalog of the trash.
pub fn find_trashed_entry(entries: Vec<RecordingEntry>, session_id: &str) -> (result: Result<
    RecordingEntry,
    String,
>)
    ensures
        found_in(
            entry_views(entries@),
            session_id@,
            result,
            "回收站中的 session "@ + session_id@ + " 不存在"@,
        ),
{
    if let Err(message) = validate_session_id(session_id) {
        return Err(message);
    }
    match take_entry(entries, session_id) {
        Some(entry) => Ok(entry),
        None => {
            let mut message = "回收站中的 session ".to_owned();
            message.append(session_id);
            message.append(" 不存在");
            Err(message)
        },
    }
}

/// A directory of the trash. `manifest` is what its manifest holds, where one could be read, and
/// `files` is what the file system says there of the six files of the prefix that the name of the
/// directory tells.
#[derive(Debug)]
pub struct TrashDir {
    pub name: String,
    pub manifest: Option<SessionManifest>,
    pub files: [FileStat; 6],
}

/// The prefix that the name of a directory of the trash tells.
pub fn legacy_prefix(name: &str) -> (prefix: Option<String>)
    ensures
        prefix is Some <==> begins_with(name@, "legacy-"@),
        prefix matches Some(p) ==> "legacy-"@ + p@ == name@,
{
    strip_head(name, "legacy-")
}

/// The files that are there.
pub open spec fn present(files: Seq<FileView>) -> Seq<FileView> {
    files.filter(|f: FileView| f.exists)
}

/// The entry that a directory of the trash gives.
pub open spec fn trash_entry(dir: TrashDir) -> Option<EntryView> {
    let prefix = dir.name@.skip("legacy-"@.len() as int);
    match dir.manifest {
        Some(m) => Some(manifest_entry(m)),
        None => if begins_with(dir.name@, "legacy-"@) && present(
            session_files(prefix, dir.files@),
        ).len() > 0 {
            Some(
                EntryView {
                    id: dir.name@,
                    prefix,
                    status: SessionResultStatus::Legacy,
                    manifest: None,
                    files: present(session_files(prefix, dir.files@)),
                },
            )
        } else {
            None
        },
    }
}

fn files_in_directory(prefix: &str, stats: &[FileStat; 6]) -> (files: Vec<SessionFile>)
    ensures
        file_views(files@) == present(session_files(prefix@, stats@)),
{
    let all = session_files_of(prefix, stats);
    let mut files: Vec<SessionFile> = Vec::new();
    let ghost views = file_views(all@);
    proof {
        reveal(Seq::filter);
        assert(file_views(files@) =~= present(views.take(0)));
    }
    for i in 0..all.len()
        invariant
            views == file_views(all@),
            file_views(files@) == present(views.take(i as int)),
    {
        proof {
            reveal(Seq::filter);
            assert(views.take(i + 1).drop_last() =~= views.take(i as int));
            assert(views.take(i + 1).last() == all@[i as int]@);
        }
        if all[i].exists {
            let ghost earlier = files@;
            files.push(all[i].clone());
            assert(file_views(files@) =~= file_views(earlier).push(all@[i as int]@));
        }
    }
    assert(views.take(views.len() as int) =~= views);
    files
}

fn entry_of_trash(dir: TrashDir) -> (entry: Option<RecordingEntry>)
    ensures
        entry is Some <==> trash_entry(dir) is Some,
        entry matches Some(e) ==> e@ == trash_entry(dir)->0,
{
    match dir.manifest {
        Some(manifest) => Some(entry_of_manifest(manifest)),
        None => match legacy_prefix(dir.name.as_str()) {
            Some(prefix) => {
                assert(prefix@ =~= dir.name@.skip("legacy-"@.len() as int));
                let files = files_in_directory(prefix.as_str(), &dir.files);
                assert(files@.len() == file_views(files@).len());
                if files.len() == 0 {
                    return None;
                }
                Some(
                    RecordingEntry {
                        id: dir.name,
                        prefix,
                        status: SessionResultStatus::Legacy,
                        manifest: None,
                        files,
                    },
                )
            },
            None => None,
        },
    }
}

/// The entries of the trash with a prefix, in the order of the directories.
pub open spec fn trash_of(dirs: Seq<TrashDir>, prefix: Seq<char>) -> Seq<EntryView>
    decreases dirs.len(),
{
    if dirs.len() == 0 {
        Seq::empty()
    } else {
        let later = trash_of(dirs.drop_first(), prefix);
        match trash_entry(dirs[0]) {
            Some(e) => if e.prefix == prefix {
                seq![e] + later
            } else {
                later
            },
            None => later,
        }
    }
}

/// The catalog of the trash, with the latest recordings first; entries with the same prefix stay
/// in the order of the directories.
pub fn scan_trash_catalog(dirs: Vec<TrashDir>) -> (entries: Vec<RecordingEntry>)
    ensures
        latest_first(entry_views(entries@)),
        forall|p: Seq<char>| #[trigger]
            entries_of(entry_views(entries@), p) == trash_of(dirs@, p),
{
    let ghost whole = dirs@;
    let mut rest = dirs;
    let mut entries: Vec<RecordingEntry> = Vec::new();
    proof {
        assert forall|p: Seq<char>| #[trigger]
            entries_of(entry_views(entries@), p) == trash_of(
                whole.skip(rest@.len() as int),
                p,
            ) by {
            lemma_no_group(entry_views(entries@), p);
        }
    }
    while rest.len() > 0
        invariant
            rest@.len() <= whole.len(),
            rest@ == whole.take(rest@.len() as int),
            latest_first(entry_views(entries@)),
            forall|p: Seq<char>| #[trigger]
                entries_of(entry_views(entries@), p) == trash_of(whole.skip(rest@.len() as int), p),
        decreases rest@.len(),
    {
        let ghost later = whole.skip(rest@.len() as int);
        let ghost now = whole.skip(rest@.len() - 1);
        proof {
            assert(now.drop_first() =~= later);
            assert(now[0] == whole[rest@.len() - 1]);
        }
        if let Some(dir) = rest.pop() {
            assert(dir == now[0]);
            if let Some(entry) = entry_of_trash(dir) {
                insert_entry(&mut entries, entry);
            }
        }
        assert(rest@ =~= whole.take(rest@.len() as int));
    }
    assert(whole.skip(0) =~= whole);
    entries
}

/// A path: how it is shown, and its components as the file system resolves it, or why it could
/// not.
#[derive(Debug)]
pub struct ResolvedPath {
    pub shown: String,
    pub parts: Result<Vec<Vec<u8>>, String>,
}

/// A path lies in a directory: the components of the directory come first in it.
pub open spec fn lies_in(path: Seq<Vec<u8>>, root: Seq<Vec<u8>>) -> bool {
    &&& root.len() <= path.len()
    &&& forall|i: int| 0 <= i < root.len() ==> (#[trigger] path[i])@ == root[i]@
}

fn same_bytes(a: &Vec<u8>, b: &Vec<u8>) -> (same: bool)
    ensures
        same == (a@ == b@),
{
    if a.len() != b.len() {
        return false;
    }
    for i in 0..a.len()
        invariant
            a@.len() == b@.len(),
            forall|k: int| 0 <= k < i ==> a@[k] == b@[k],
    {
        if a[i] != b[i] {
            return false;
        }
    }
    assert(a@ =~= b@);
    true
}

fn is_in(path: &Vec<Vec<u8>>, root: &Vec<Vec<u8>>) -> (b: bool)
    ensures
        b == lies_in(path@, root@),
{
    if root.len() > path.len() {
        return false;
    }
    for i in 0..root.len()
        invariant
            root@.len() <= path@.len(),
            forall|k: int| 0 <= k < i ==> (#[trigger] path@[k])@ == root@[k]@,
    {
        if !same_bytes(&path[i], &root[i]) {
            assert(path@[i as int]@ != root@[i as int]@);
            return false;
        }
    }
    true
}

/// Why a path is not accepted as one in a directory.
pub open spec fn under_problem(path: ResolvedPath, root: ResolvedPath) -> Option<Seq<char>> {
    match (root.parts, path.parts) {
        (Err(e), _) => Some("确认目录 "@ + root.shown@ + " 失败: "@ + e@),
        (Ok(_), Err(e)) => Some("确认路径 "@ + path.shown@ + " 失败: "@ + e@),
        (Ok(r), Ok(p)) => if lies_in(p@, r@) {
            None
        } else {
            Some("路径不在输出目录内"@)
        },
    }
}

/// A problem as the error that is returned.
pub open spec fn tells_problem(result: Result<(), String>, problem: Option<Seq<char>>) -> bool {
    match result {
        Ok(()) => problem is None,
        Err(message) => problem == Some(message@),
    }
}

fn failure(what: &str, shown: &str, error: &str) -> (message: String)
    ensures
        message@ == what@ + shown@ + " 失败: "@ + error@,
{
    let mut message = what.to_owned();
    message.append(shown);
    message.append(" 失败: ");
    message.append(error);
    message
}

pub fn canonical_under(path: &ResolvedPath, root: &ResolvedPath) -> (result: Result<(), String>)
    ensures
        tells_problem(result, under_problem(*path, *root)),
{
    match (&root.parts, &path.parts) {
        (Err(e), _) => Err(failure("确认目录 ", root.shown.as_str(), e.as_str())),
        (Ok(_), Err(e)) => Err(failure("确认路径 ", path.shown.as_str(), e.as_str())),
        (Ok(r), Ok(p)) => if is_in(p, r) {
            Ok(())
        } else {
            Err("路径不在输出目录内".to_owned())
        },
    }
}

/// Why the file of a kind is not handed out.
pub open spec fn resolve_problem(
    kind: Seq<char>,
    is_file: bool,
    path: ResolvedPath,
    root: ResolvedPath,
) -> Option<Seq<char>> {
    if kind_suffix(kind) is None {
        Some("未知文件类型 "@ + kind)
    } else if !is_file {
        Some("文件不存在"@)
    } else {
        under_problem(path, root)
    }
}

/// The name of the file of a kind, where it may be handed out. `is_file` says whether a file of
/// that name is in the output directory, `path` is its path, and `root` the directory.
pub fn resolve_file_path(
    prefix: &str,
    kind: &str,
    is_file: bool,
    path: &ResolvedPath,
    root: &ResolvedPath,
) -> (result: Result<String, String>)
    ensures
        match result {
            Ok(name) => {
                &&& resolve_problem(kind@, is_file, *path, *root) is None
                &&& file_name(prefix@, kind@) == Some(name@)
            },
            Err(message) => resolve_problem(kind@, is_file, *path, *root) == Some(message@),
        },
{
    match kind_to_filename(prefix, kind) {
        None => Err(joined("未知文件类型 ", kind)),
        Some(name) => {
            if !is_file {
                return Err("文件不存在".to_owned());
            }
            match canonical_under(path, root) {
                Ok(()) => Ok(name),
                Err(message) => Err(message),
            }
        },
    }
}

/// The directory of a session in the trash: whether it could be made, and how the file system
/// resolves it.
#[derive(Debug)]
pub struct TrashPlace {
    pub created: Result<(), String>,
    pub path: ResolvedPath,
}

/// Why a session cannot use its directory in the trash.
pub open spec fn trash_root_problem(
    session_id: Seq<char>,
    place: TrashPlace,
    root: ResolvedPath,
) -> Option<Seq<char>> {
    if !valid_session_id(session_id) {
        Some(session_id_message(session_id))
    } else {
        match (place.created, root.parts, place.path.parts) {
            (Err(e), _, _) => Some("创建回收站目录失败: "@ + e@),
            (_, Err(e), _) => Some("确认输出目录失败: "@ + e@),
            (_, _, Err(e)) => Some("确认回收站目录失败: "@ + e@),
            (Ok(()), Ok(r), Ok(t)) => if lies_in(t@, r@) {
                None
            } else {
                Some("回收站路径不在输出目录内"@)
            },
        }
    }
}

fn check_trash_root(session_id: &str, place: &TrashPlace, root: &ResolvedPath) -> (result: Result<
    (),
    String,
>)
    ensures
        tells_problem(result, trash_root_problem(session_id@, *place, *root)),
{
    if let Err(message) = validate_session_id(session_id) {
        return Err(message);
    }
    match (&place.created, &root.parts, &place.path.parts) {
        (Err(e), _, _) => Err(joined("创建回收站目录失败: ", e.as_str())),
        (_, Err(e), _) => Err(joined("确认输出目录失败: ", e.as_str())),
        (_, _, Err(e)) => Err(joined("确认回收站目录失败: ", e.as_str())),
        (Ok(()), Ok(r), Ok(t)) => if is_in(t, r) {
            Ok(())
        } else {
            Err("回收站路径不在输出目录内".to_owned())
        },
    }
}

/// A file to be moved, and the place it would be moved to.
#[derive(Debug)]
pub struct MoveSource {
    pub is_file: bool,
    pub source: ResolvedPath,
    pub target_shown: String,
    pub target_exists: bool,
}

/// Why a file cannot be moved to the trash.
pub open spec fn move_problem(file: MoveSource, root: ResolvedPath) -> Option<Seq<char>> {
    if !file.is_file {
        None
    } else {
        match under_problem(file.source, root) {
            Some(problem) => Some(problem),
            None => if file.target_exists {
                Some("回收站目标已存在: "@ + file.target_shown@)
            } else {
                None
            },
        }
    }
}

/// The first problem among the first `n` files.
pub open spec fn first_move_problem(files: Seq<MoveSource>, root: ResolvedPath, n: nat) -> Option<
    Seq<char>,
>
    decreases n,
{
    if n == 0 {
        None
    } else {
        match first_move_problem(files, root, (n - 1) as nat) {
            Some(problem) => Some(problem),
            None => move_problem(files[n - 1], root),
        }
    }
}

/// The names of the files among the first `n` kinds that are there.
pub open spec fn names_to_move(prefix: Seq<char>, files: Seq<MoveSource>, n: nat) -> Seq<Seq<char>>
    decreases n,
{
    if n == 0 {
        Seq::empty()
    } else {
        let earlier = names_to_move(prefix, files, (n - 1) as nat);
        if files[n - 1].is_file {
            earlier.push(prefix + kind_suffix(kinds()[n - 1])->0)
        } else {
            earlier
        }
    }
}

/// Why a session cannot be moved to the trash.
pub open spec fn trash_problem(
    session_id: Seq<char>,
    prefix: Seq<char>,
    place: TrashPlace,
    root: ResolvedPath,
    files: Seq<MoveSource>,
) -> Option<Seq<char>> {
    match trash_root_problem(session_id, place, root) {
        Some(problem) => Some(problem),
        None => match name_problem(prefix, MAX_PREFIX_LEN) {
            Some(problem) => Some(prefix_message(problem)),
            None => first_move_problem(files, root, 6),
        },
    }
}

/// Which files of a session are to be moved to the trash. `files` are those of the six kinds in
/// order. Nothing may be moved before all of it was checked.
pub fn trash_session(
    session_id: &str,
    prefix: &str,
    place: &TrashPlace,
    root: &ResolvedPath,
    files: &[MoveSource; 6],
) -> (result: Result<Vec<String>, String>)
    ensures
        match result {
            Ok(names) => {
                &&& trash_problem(session_id@, prefix@, *place, *root, files@) is None
                &&& texts(names@) == names_to_move(prefix@, files@, 6)
                &&& forall|k: int|
                    0 <= k < 6 && (#[trigger] files@[k]).is_file ==> texts(names@).contains(
                        file_name(prefix@, kinds()[k])->0,
                    )
            },
            Err(message) => trash_problem(session_id@, prefix@, *place, *root, files@) == Some(
                message@,
            ),
        },
{
    if let Err(message) = check_trash_root(session_id, place, root) {
        return Err(message);
    }
    if let Err(message) = validate_prefix(prefix) {
        return Err(message);
    }
    let all = all_kinds();
    let mut names: Vec<String> = Vec::new();
    assert(texts(names@) =~= names_to_move(prefix@, files@, 0));
    for i in 0..6usize
        invariant
            forall|k: int| 0 <= k < 6 ==> (#[trigger] all@[k])@ == kinds()[k],
            texts(names@) == names_to_move(prefix@, files@, i as nat),
    {
        let ghost earlier = names@;
        proof {
            lemma_suffixes();
            assert(all@[i as int]@ == kinds()[i as int]);
            assert(kind_suffix(kinds()[i as int]) is Some);
        }
        if files[i].is_file {
            if let Some(name) = kind_to_filename(prefix, all[i]) {
                names.push(name);
                assert(texts(names@) =~= texts(earlier).push(names@.last()@));
            }
        }
    }
    for i in 0..6usize
        invariant
            first_move_problem(files@, *root, i as nat) is None,
            trash_root_problem(session_id@, *place, *root) is None,
            name_problem(prefix@, MAX_PREFIX_LEN) is None,
    {
        if files[i].is_file {
            if let Err(message) = canonical_under(&files[i].source, root) {
                proof {
                    lemma_first_problem_stays(files@, *root, (i + 1) as nat, 6);
                }
                return Err(message);
            }
            if files[i].target_exists {
                proof {
                    lemma_first_problem_stays(files@, *root, (i + 1) as nat, 6);
                }
                return Err(joined("回收站目标已存在: ", files[i].target_shown.as_str()));
            }
        }
    }
    proof {
        lemma_suffixes();
        assert forall|k: int| 0 <= k < 6 && (#[trigger] files@[k]).is_file implies texts(
            names@,
        ).contains(file_name(prefix@, kinds()[k])->0) by {
            assert(kind_suffix(kinds()[k]) is Some);
            lemma_moved_names(prefix@, files@, 6, file_name(prefix@, kinds()[k])->0);
        }
    }
    Ok(names)
}

proof fn lemma_first_problem_stays(files: Seq<MoveSource>, root: ResolvedPath, m: nat, n: nat)
    requires
        m <= n,
        first_move_problem(files, root, m) is Some,
    ensures
        first_move_problem(files, root, n) == first_move_problem(files, root, m),
    decreases n,
{
    if m < n {
        lemma_first_problem_stays(files, root, m, (n - 1) as nat);
    }
}

/// Something in the directory of a session in the trash. `error` is why it could not be read, and
/// `name` is missing where it is no text.
#[derive(Debug)]
pub struct TrashItem {
    pub error: Option<String>,
    pub name: Option<String>,
    pub file: MoveSource,
}

/// The name is that of a file of the session.
pub open spec fn belongs(prefix: Seq<char>, name: Seq<char>) -> bool {
    exists|k: int| 0 <= k < 6 && tells(name, prefix, #[trigger] kinds()[k])
}

/// Whether a name is that of a file of the session.
fn is_session_file(prefix: &str, name: &str) -> (b: bool)
    ensures
        b == belongs(prefix@, name@),
{
    let all = all_kinds();
    for i in 0..6usize
        invariant
            forall|k: int| 0 <= k < 6 ==> (#[trigger] all@[k])@ == kinds()[k],
            forall|k: int| 0 <= k < i ==> !tells(name@, prefix@, #[trigger] kinds()[k]),
    {
        assert(all@[i as int]@ == kinds()[i as int]);
        if let Some(expected) = kind_to_filename(prefix, all[i]) {
            if same_text(expected.as_str(), name) {
                assert(tells(name@, prefix@, kinds()[i as int]));
                return true;
            }
        }
    }
    false
}

/// Why something in the trash cannot be restored.
pub open spec fn item_problem(prefix: Seq<char>, item: TrashItem) -> Option<Seq<char>> {
    match (item.error, item.name) {
        (Some(e), _) => Some("读取回收站项失败: "@ + e@),
        (None, None) => Some("回收站存在无效文件名"@),
        (None, Some(name)) => if !belongs(prefix, name@) || !item.file.is_file {
            Some("回收站包含不属于该 session 的文件"@)
        } else if item.file.target_exists {
            Some("目标已存在，无法恢复: "@ + item.file.target_shown@)
        } else {
            None
        },
    }
}

fn check_item(prefix: &str, item: &TrashItem) -> (result: Result<(), String>)
    ensures
        tells_problem(result, item_problem(prefix@, *item)),
{
    match (&item.error, &item.name) {
        (Some(e), _) => Err(joined("读取回收站项失败: ", e.as_str())),
        (None, None) => Err("回收站存在无效文件名".to_owned()),
        (None, Some(name)) => {
            if !is_session_file(prefix, name.as_str()) || !item.file.is_file {
                Err("回收站包含不属于该 session 的文件".to_owned())
            } else if item.file.target_exists {
                Err(joined("目标已存在，无法恢复: ", item.file.target_shown.as_str()))
            } else {
                Ok(())
            }
        },
    }
}

/// The first problem among the first `n` things in the trash.
pub open spec fn first_item_problem(prefix: Seq<char>, items: Seq<TrashItem>, n: nat) -> Option<
    Seq<char>,
>
    decreases n,
{
    if n == 0 {
        None
    } else {
        match first_item_problem(prefix, items, (n - 1) as nat) {
            Some(problem) => Some(problem),
            None => item_problem(prefix, items[n - 1]),
        }
    }
}

/// The first of the first `n` things in the trash that is not really there.
pub open spec fn first_stray_problem(items: Seq<TrashItem>, trash: ResolvedPath, n: nat) -> Option<
    Seq<char>,
>
    decreases n,
{
    if n == 0 {
        None
    } else {
        match first_stray_problem(items, trash, (n - 1) as nat) {
            Some(problem) => Some(problem),
            None => under_problem(items[n - 1].file.source, trash),
        }
    }
}

proof fn lemma_first_item_problem_stays(
    prefix: Seq<char>,
    items: Seq<TrashItem>,
    m: nat,
    n: nat,
)
    requires
        m <= n,
        first_item_problem(prefix, items, m) is Some,
    ensures
        first_item_problem(prefix, items, n) == first_item_problem(prefix, items, m),
    decreases n,
{
    if m < n {
        lemma_first_item_problem_stays(prefix, items, m, (n - 1) as nat);
    }
}

proof fn lemma_first_stray_problem_stays(
    items: Seq<TrashItem>,
    trash: ResolvedPath,
    m: nat,
    n: nat,
)
    requires
        m <= n,
        first_stray_problem(items, trash, m) is Some,
    ensures
        first_stray_problem(items, trash, n) == first_stray_problem(items, trash, m),
    decreases n,
{
    if m < n {
        lemma_first_stray_problem_stays(items, trash, m, (n - 1) as nat);
    }
}

/// Why a session cannot be restored.
pub open spec fn restore_problem(
    session_id: Seq<char>,
    prefix: Seq<char>,
    place: TrashPlace,
    root: ResolvedPath,
    items: Seq<TrashItem>,
) -> Option<Seq<char>> {
    match trash_root_problem(session_id, place, root) {
        Some(problem) => Some(problem),
        None => match name_problem(prefix, MAX_PREFIX_LEN) {
            Some(problem) => Some(prefix_message(problem)),
            None => match first_item_problem(prefix, items, items.len()) {
                Some(problem) => Some(problem),
                None => first_stray_problem(items, place.path, items.len()),
            },
        },
    }
}

/// Which files are to be moved back out of the trash: all that are there, each of which belongs to
/// the session. Nothing may be moved before all of it was checked.
pub fn restore_session(
    session_id: &str,
    prefix: &str,
    place: &TrashPlace,
    root: &ResolvedPath,
    items: &[TrashItem],
) -> (result: Result<Vec<String>, String>)
    ensures
        match result {
            Ok(names) => {
                &&& restore_problem(session_id@, prefix@, *place, *root, items@) is None
                &&& names@.len() == items@.len()
                &&& forall|i: int|
                    0 <= i < names@.len() ==> items@[i].name == Some(#[trigger] names@[i])
                        && belongs(prefix@, names@[i]@)
            },
            Err(message) => restore_problem(session_id@, prefix@, *place, *root, items@) == Some(
                message@,
            ),
        },
{
    if let Err(message) = check_trash_root(session_id, place, root) {
        return Err(message);
    }
    if let Err(message) = validate_prefix(prefix) {
        return Err(message);
    }
    let mut names: Vec<String> = Vec::new();
    for i in 0..items.len()
        invariant
            trash_root_problem(session_id@, *place, *root) is None,
            name_problem(prefix@, MAX_PREFIX_LEN) is None,
            first_item_problem(prefix@, items@, i as nat) is None,
            names@.len() == i,
            forall|k: int|
                0 <= k < i ==> items@[k].name == Some(#[trigger] names@[k]) && belongs(
                    prefix@,
                    names@[k]@,
                ),
    {
        if let Err(message) = check_item(prefix, &items[i]) {
            proof {
                lemma_first_item_problem_stays(prefix@, items@, (i + 1) as nat, items@.len());
            }
            return Err(message);
        }
        if let Some(name) = &items[i].name {
            names.push(name.clone());
        }
    }
    for i in 0..items.len()
        invariant
            trash_root_problem(session_id@, *place, *root) is None,
            name_problem(prefix@, MAX_PREFIX_LEN) is None,
            first_item_problem(prefix@, items@, items@.len()) is None,
            first_stray_problem(items@, place.path, i as nat) is None,
    {
        if let Err(message) = canonical_under(&items[i].file.source, &place.path) {
            proof {
                lemma_first_stray_problem_stays(items@, place.path, (i + 1) as nat, items@.len());
            }
            return Err(message);
        }
    }
    Ok(names)
}

/// Only files of the session are moved to the trash.
pub proof fn law_only_session_files_are_moved(prefix: Seq<char>, files: Seq<MoveSource>, n: nat, i: int)
    requires
        n <= 6,
        0 <= i < names_to_move(prefix, files, n).len(),
    ensures
        belongs(prefix, names_to_move(prefix, files, n)[i]),
    decreases n,
{
    lemma_suffixes();
    let earlier = names_to_move(prefix, files, (n - 1) as nat);
    if i < earlier.len() {
        law_only_session_files_are_moved(prefix, files, (n - 1) as nat, i);
    } else {
        let k = n - 1;
        assert(kind_suffix(kinds()[k]) is Some);
        assert(tells(names_to_move(prefix, files, n)[i], prefix, kinds()[k]));
    }
}

/// The file names of a directory after files were moved out of it or into it.
pub open spec fn moved_out(dir: Set<Seq<char>>, names: Set<Seq<char>>) -> Set<Seq<char>> {
    dir.difference(names)
}

pub open spec fn moved_in(dir: Set<Seq<char>>, names: Set<Seq<char>>) -> Set<Seq<char>> {
    dir.union(names)
}

/// Moving a session to the trash and restoring it leaves the output directory as it was: what is
/// moved there was in the directory, what is restored is all that was moved, and no other file is
/// touched.
pub proof fn law_restore_undoes_trash(
    dir: Set<Seq<char>>,
    prefix: Seq<char>,
    files: Seq<MoveSource>,
    restored: Seq<Seq<char>>,
)
    requires
        files.len() == 6,
        forall|k: int|
            0 <= k < 6 ==> (#[trigger] files[k]).is_file == dir.contains(
                prefix + kind_suffix(kinds()[k])->0,
            ),
        restored.to_set() == names_to_move(prefix, files, 6).to_set(),
    ensures
        moved_in(
            moved_out(dir, names_to_move(prefix, files, 6).to_set()),
            restored.to_set(),
        ) =~= dir,
{
    let names = names_to_move(prefix, files, 6);
    assert forall|name: Seq<char>| names.to_set().contains(name) implies dir.contains(name) by {
        let i = choose|i: int| 0 <= i < names.len() && names[i] == name;
        lemma_moved_were_there(dir, prefix, files, 6, i);
    }
}

proof fn lemma_moved_were_there(
    dir: Set<Seq<char>>,
    prefix: Seq<char>,
    files: Seq<MoveSource>,
    n: nat,
    i: int,
)
    requires
        n <= 6,
        files.len() == 6,
        forall|k: int|
            0 <= k < 6 ==> (#[trigger] files[k]).is_file == dir.contains(
                prefix + kind_suffix(kinds()[k])->0,
            ),
        0 <= i < names_to_move(prefix, files, n).len(),
    ensures
        dir.contains(names_to_move(prefix, files, n)[i]),
    decreases n,
{
    let earlier = names_to_move(prefix, files, (n - 1) as nat);
    assert(files[n - 1].is_file == dir.contains(prefix + kind_suffix(kinds()[n - 1])->0));
    if i < earlier.len() {
        lemma_moved_were_there(dir, prefix, files, (n - 1) as nat, i);
    }
}

/// What was moved to the trash is accepted when it is restored, as long as nothing has taken its
/// place.
pub proof fn law_restore_accepts_what_was_trashed(
    prefix: Seq<char>,
    files: Seq<MoveSource>,
    i: int,
    item: TrashItem,
)
    requires
        0 <= i < names_to_move(prefix, files, 6).len(),
        item.error is None,
        item.name matches Some(name) && name@ == names_to_move(prefix, files, 6)[i],
        item.file.is_file,
        !item.file.target_exists,
    ensures
        item_problem(prefix, item) is None,
{
    law_only_session_files_are_moved(prefix, files, 6, i);
}

/// The catalog shows no session as under way but the active one.
pub proof fn law_only_the_active_session_is_under_way(
    listing: Seq<DirEntry>,
    active: Option<Seq<char>>,
    prefix: Seq<char>,
    i: int,
)
    requires
        0 <= i < catalog_of(listing, active, prefix).len(),
        under_way(catalog_of(listing, active, prefix)[i].status),
    ensures
        active == Some(catalog_of(listing, active, prefix)[i].id),
{
    if manifests_of(listing, active, prefix).len() > 0 {
        lemma_manifests_are_settled(listing, active, prefix, i);
    }
}

proof fn lemma_manifests_are_settled(
    listing: Seq<DirEntry>,
    active: Option<Seq<char>>,
    prefix: Seq<char>,
    i: int,
)
    requires
        0 <= i < manifests_of(listing, active, prefix).len(),
    ensures
        under_way(manifests_of(listing, active, prefix)[i].status) ==> active == Some(
            manifests_of(listing, active, prefix)[i].id,
        ),
    decreases listing.len(),
{
    let later = manifests_of(listing.drop_first(), active, prefix);
    let all = manifests_of(listing, active, prefix);
    match listed_manifest(listing[0]) {
        Some(m) => {
            if m.prefix@ == prefix {
                assert(all == seq![manifest_entry(settled(m, active))] + later);
                if i > 0 {
                    assert(all[i] == later[i - 1]);
                    lemma_manifests_are_settled(listing.drop_first(), active, prefix, i - 1);
                }
            } else {
                lemma_manifests_are_settled(listing.drop_first(), active, prefix, i);
            }
        },
        None => {
            lemma_manifests_are_settled(listing.drop_first(), active, prefix, i);
        },
    }
}

/// Every recorded file belongs to a session of the catalog.
pub proof fn law_every_file_is_in_the_catalog(
    listing: Seq<DirEntry>,
    active: Option<Seq<char>>,
    i: int,
)
    requires
        0 <= i < listing.len(),
        listed_file(listing[i]) is Some,
    ensures
        catalog_of(listing, active, (listed_file(listing[i])->0).0).len() > 0,
{
    lemma_file_is_listed(listing, i);
}

proof fn lemma_file_is_listed(listing: Seq<DirEntry>, i: int)
    requires
        0 <= i < listing.len(),
        listed_file(listing[i]) is Some,
    ensures
        files_of(listing, (listed_file(listing[i])->0).0).len() > 0,
    decreases listing.len(),
{
    if i < listing.len() - 1 {
        assert(listing.drop_last()[i] == listing[i]);
        lemma_file_is_listed(listing.drop_last(), i);
    }
}

/// Every file that the modules of a session write is among the targets that are checked first.
pub proof fn law_targets_cover_module_files(config: AppConfig, i: int)
    requires
        config.pipeline_enabled,
        0 <= i < config.pipeline.modules@.len(),
    ensures
        writes_bf(config.pipeline.modules@[i]) ==> target_kinds(config).contains("bf"@),
        writes_csv(config.pipeline.modules@[i]) ==> target_kinds(config).contains("doa_csv"@),
{
    let kinds = target_kinds(config);
    if writes_bf(config.pipeline.modules@[i]) {
        assert(writes_beamformer(config.pipeline.modules@));
        assert(kinds[4] == "bf"@);
    }
    if writes_csv(config.pipeline.modules@[i]) {
        assert(writes_table(config.pipeline.modules@));
        assert(kinds[kinds.len() - 1] == "doa_csv"@);
    }
}

/// A manifest whose session was over when it was written stands in the catalog as it is, whatever
/// session is active; so does the manifest of the active session. The manifest of any other session
/// that was under way stands there as interrupted, and otherwise as it is.
pub proof fn law_only_lost_sessions_are_interrupted(m: SessionManifest, active: Option<Seq<char>>)
    ensures
        m.status is Success || m.status is Failed || m.status is Interrupted || m.status is Legacy
            ==> {
            &&& manifest_entry(settled(m, active)).manifest == Some(m)
            &&& manifest_entry(settled(m, active)).status == m.status
        },
        active == Some(m.session_id@) ==> {
            &&& manifest_entry(settled(m, active)).manifest == Some(m)
            &&& manifest_entry(settled(m, active)).status == m.status
        },
        active != Some(m.session_id@) && (m.status is Starting || m.status is Recording) ==> {
            &&& manifest_entry(settled(m, active)).status is Interrupted
            &&& manifest_entry(settled(m, active)).manifest == Some(
                (SessionManifest { status: SessionResultStatus::Interrupted, ..m }),
            )
        },
        manifest_entry(settled(m, active)).id == m.session_id@,
        manifest_entry(settled(m, active)).prefix == m.prefix@,
        manifest_entry(settled(m, active)).files == file_views(m.files@),
{
}

/// Every manifest that lies open in the output directory under the name of a manifest has an entry
/// in the catalog, under its own prefix: with its own status where the session was over or is the
/// active one, and as interrupted otherwise.
pub proof fn law_every_manifest_is_in_the_catalog(
    listing: Seq<DirEntry>,
    active: Option<Seq<char>>,
    i: int,
    m: SessionManifest,
)
    requires
        0 <= i < listing.len(),
        listing[i].manifest == Some(m),
        listing[i].name@.len() > 0,
        listing[i].name@[0] != '.',
        exists|head: Seq<char>| listing[i].name@ == #[trigger] (head + "_respeaker_session.json"@),
    ensures
        exists|k: int|
            0 <= k < catalog_of(listing, active, m.prefix@).len() && {
                let e = #[trigger] catalog_of(listing, active, m.prefix@)[k];
                &&& e.id == m.session_id@
                &&& e.prefix == m.prefix@
                &&& e.files == file_views(m.files@)
                &&& if active != Some(m.session_id@) && (m.status is Starting
                    || m.status is Recording) {
                    e.status is Interrupted
                } else {
                    e.status == m.status && e.manifest == Some(m)
                }
            },
{
    reveal_strlit(".");
    let head = choose|head: Seq<char>|
        listing[i].name@ == #[trigger] (head + "_respeaker_session.json"@);
    let name = listing[i].name@;
    let tail = "_respeaker_session.json"@;
    assert(name.skip(name.len() - tail.len()) =~= tail);
    assert(name.take(1)[0] == name[0]);
    lemma_manifest_is_listed(listing, active, i);
    let all = manifests_of(listing, active, m.prefix@);
    let k = choose|k: int| 0 <= k < all.len() && #[trigger] all[k] == manifest_entry(settled(m, active));
    assert(catalog_of(listing, active, m.prefix@)[k] == all[k]);
}

proof fn lemma_manifest_is_listed(listing: Seq<DirEntry>, active: Option<Seq<char>>, i: int)
    requires
        0 <= i < listing.len(),
        listed_manifest(listing[i]) is Some,
    ensures
        ({
            let m = listed_manifest(listing[i])->0;
            let all = manifests_of(listing, active, m.prefix@);
            exists|k: int| 0 <= k < all.len() && #[trigger] all[k] == manifest_entry(settled(m, active))
        }),
    decreases listing.len(),
{
    let m = listed_manifest(listing[i])->0;
    let all = manifests_of(listing, active, m.prefix@);
    if i == 0 {
        assert(all[0] == manifest_entry(settled(m, active)));
    } else {
        let rest = listing.drop_first();
        assert(rest[i - 1] == listing[i]);
        lemma_manifest_is_listed(rest, active, i - 1);
        let later = manifests_of(rest, active, m.prefix@);
        let k = choose|k: int| 0 <= k < later.len() && #[trigger] later[k] == manifest_entry(settled(m, active));
        match listed_manifest(listing[0]) {
            Some(f) => {
                if f.prefix@ == m.prefix@ {
                    assert(all[k + 1] == later[k]);
                } else {
                    assert(all[k] == later[k]);
                }
            },
            None => {
                assert(all[k] == later[k]);
            },
        }
    }
}

/// The suffix of the file of each kind, in the order of the kinds.
pub proof fn law_six_kinds_of_files(prefix: Seq<char>)
    ensures
        kinds().len() == 6,
        file_name(prefix, kinds()[0]) == Some(prefix + "_respeaker_algo.wav"@),
        file_name(prefix, kinds()[1]) == Some(prefix + "_respeaker_mic.wav"@),
        file_name(prefix, kinds()[2]) == Some(prefix + "_respeaker_ref.wav"@),
        file_name(prefix, kinds()[3]) == Some(prefix + "_respeaker_bf.wav"@),
        file_name(prefix, kinds()[4]) == Some(prefix + "_respeaker_doa.csv"@),
        file_name(prefix, kinds()[5]) == Some(prefix + "_respeaker_session.json"@),
{
    lemma_suffixes();
}

/// Every file of the session that is there is moved to the trash, and a name is moved only for a
/// file that is there.
pub proof fn law_every_file_of_the_session_is_moved(
    prefix: Seq<char>,
    files: Seq<MoveSource>,
    name: Seq<char>,
)
    requires
        files.len() == 6,
    ensures
        names_to_move(prefix, files, 6).contains(name) <==> {
            ||| files[0].is_file && name == prefix + "_respeaker_algo.wav"@
            ||| files[1].is_file && name == prefix + "_respeaker_mic.wav"@
            ||| files[2].is_file && name == prefix + "_respeaker_ref.wav"@
            ||| files[3].is_file && name == prefix + "_respeaker_bf.wav"@
            ||| files[4].is_file && name == prefix + "_respeaker_doa.csv"@
            ||| files[5].is_file && name == prefix + "_respeaker_session.json"@
        },
{
    lemma_suffixes();
    lemma_moved_names(prefix, files, 6, name);
    assert(kinds()[0] == "algo"@ && kinds()[1] == "mic"@ && kinds()[2] == "ref"@ && kinds()[3]
        == "bf"@ && kinds()[4] == "doa_csv"@ && kinds()[5] == "manifest"@);
    if names_to_move(prefix, files, 6).contains(name) {
        let k = choose|k: int|
            0 <= k < 6 && (#[trigger] files[k]).is_file && name == prefix + kind_suffix(
                kinds()[k],
            )->0;
        assert(k == 0 || k == 1 || k == 2 || k == 3 || k == 4 || k == 5);
    }
}

proof fn lemma_moved_names(prefix: Seq<char>, files: Seq<MoveSource>, n: nat, name: Seq<char>)
    requires
        n <= files.len(),
    ensures
        names_to_move(prefix, files, n).contains(name) <==> exists|k: int|
            0 <= k < n && (#[trigger] files[k]).is_file && name == prefix + kind_suffix(
                kinds()[k],
            )->0,
    decreases n,
{
    if n > 0 {
        let earlier = names_to_move(prefix, files, (n - 1) as nat);
        let all = names_to_move(prefix, files, n);
        lemma_moved_names(prefix, files, (n - 1) as nat, name);
        if earlier.contains(name) {
            let i = choose|i: int| 0 <= i < earlier.len() && earlier[i] == name;
            assert(all[i] == name);
        }
        if files[n - 1].is_file {
            assert(all.last() == prefix + kind_suffix(kinds()[n - 1])->0);
            assert(all[all.len() - 1] == all.last());
        }
        if all.contains(name) && !earlier.contains(name) {
            let i = choose|i: int| 0 <= i < all.len() && all[i] == name;
            if i < earlier.len() {
                assert(earlier[i] == name);
            }
        }
    }
}

/// After a session was moved to the trash no file of its prefix is left in the output directory.
pub proof fn law_no_file_of_a_trashed_session_is_left(
    dir: Set<Seq<char>>,
    prefix: Seq<char>,
    files: Seq<MoveSource>,
    kind: Seq<char>,
)
    requires
        files.len() == 6,
        files[0].is_file == dir.contains(prefix + "_respeaker_algo.wav"@),
        files[1].is_file == dir.contains(prefix + "_respeaker_mic.wav"@),
        files[2].is_file == dir.contains(prefix + "_respeaker_ref.wav"@),
        files[3].is_file == dir.contains(prefix + "_respeaker_bf.wav"@),
        files[4].is_file == dir.contains(prefix + "_respeaker_doa.csv"@),
        files[5].is_file == dir.contains(prefix + "_respeaker_session.json"@),
        file_name(prefix, kind) is Some,
    ensures
        !moved_out(dir, names_to_move(prefix, files, 6).to_set()).contains(
            file_name(prefix, kind)->0,
        ),
{
    let name = file_name(prefix, kind)->0;
    law_every_file_of_the_session_is_moved(prefix, files, name);
    if dir.contains(name) {
        assert(names_to_move(prefix, files, 6).contains(name));
    }
}

/// Each file is moved once.
pub proof fn law_no_file_is_moved_twice(prefix: Seq<char>, files: Seq<MoveSource>, n: nat)
    requires
        n <= 6,
        files.len() == 6,
    ensures
        names_to_move(prefix, files, n).no_duplicates(),
    decreases n,
{
    if n > 0 {
        law_no_file_is_moved_twice(prefix, files, (n - 1) as nat);
        let earlier = names_to_move(prefix, files, (n - 1) as nat);
        if files[n - 1].is_file {
            lemma_suffixes();
            let name = prefix + kind_suffix(kinds()[n - 1])->0;
            lemma_moved_names(prefix, files, (n - 1) as nat, name);
            if earlier.contains(name) {
                let k = choose|k: int|
                    0 <= k < n - 1 && (#[trigger] files[k]).is_file && name == prefix
                        + kind_suffix(kinds()[k])->0;
                law_name_tells_prefix_and_kind(name, prefix, kinds()[k], prefix, kinds()[n - 1]);
                lemma_kinds_differ(k, n - 1);
            }
            assert forall|i: int, j: int|
                0 <= i < j < earlier.push(name).len() implies earlier.push(name)[i]
                != earlier.push(name)[j] by {
                if j == earlier.len() {
                    assert(earlier.contains(earlier[i]));
                }
            }
        }
    }
}

proof fn lemma_kinds_differ(i: int, j: int)
    requires
        0 <= i < j < 6,
    ensures
        kinds()[i] != kinds()[j],
{
    lemma_suffixes();
    reveal_strlit("_respeaker_algo.wav");
    reveal_strlit("_respeaker_mic.wav");
    reveal_strlit("_respeaker_ref.wav");
    reveal_strlit("_respeaker_bf.wav");
    reveal_strlit("_respeaker_doa.csv");
    reveal_strlit("_respeaker_session.json");
    assert("_respeaker_algo.wav"@[11] == 'a' && "_respeaker_mic.wav"@[11] == 'm'
        && "_respeaker_ref.wav"@[11] == 'r' && "_respeaker_bf.wav"@[11] == 'b'
        && "_respeaker_doa.csv"@[11] == 'd' && "_respeaker_session.json"@[11] == 's');
}

/// The files of a session stand in the order of the kinds, each under the name of its kind, with
/// what the file system says of it.
pub proof fn law_session_files_say_what_is_there(prefix: Seq<char>, stats: Seq<FileStat>, i: int)
    requires
        stats.len() == 6,
        0 <= i < 6,
    ensures
        session_files(prefix, stats).len() == 6,
        session_files(prefix, stats)[i].kind == kinds()[i],
        file_name(prefix, kinds()[i]) == Some(session_files(prefix, stats)[i].path),
        session_files(prefix, stats)[i].bytes == stats[i].bytes,
        session_files(prefix, stats)[i].exists == stats[i].exists,
{
    lemma_suffixes();
}

/// The targets of a session are always its three recordings and its manifest; the output of a
/// beamformer and the table of directions belong to them exactly when the pipeline is switched on
/// and an enabled module writes them.
pub proof fn law_targets_are_what_is_written(config: AppConfig, kind: Seq<char>)
    ensures
        target_kinds(config).contains(kind) <==> {
            ||| kind == "algo"@
            ||| kind == "mic"@
            ||| kind == "ref"@
            ||| kind == "manifest"@
            ||| kind == "bf"@ && config.pipeline_enabled && exists|i: int|
                0 <= i < config.pipeline.modules@.len() && (
                #[trigger] config.pipeline.modules@[i] matches ModuleConfig::Beamformer {
                    enabled,
                    wav,
                    ..
                } && enabled && wav)
            ||| kind == "doa_csv"@ && config.pipeline_enabled && exists|i: int|
                0 <= i < config.pipeline.modules@.len() && (
                #[trigger] config.pipeline.modules@[i] matches ModuleConfig::Doa {
                    enabled,
                    csv,
                    ..
                } && enabled && csv)
        },
{
    let modules = config.pipeline.modules@;
    let all = target_kinds(config);
    assert(all[0] == "algo"@ && all[1] == "mic"@ && all[2] == "ref"@ && all[3] == "manifest"@);
    if writes_beamformer(modules) {
        let i = choose|i: int| 0 <= i < modules.len() && writes_bf(#[trigger] modules[i]);
        assert(modules[i] matches ModuleConfig::Beamformer { enabled, wav, .. } && enabled && wav);
    }
    if exists|i: int|
        0 <= i < modules.len() && (#[trigger] modules[i] matches ModuleConfig::Beamformer {
            enabled,
            wav,
            ..
        } && enabled && wav) {
        let i = choose|i: int|
            0 <= i < modules.len() && (#[trigger] modules[i] matches ModuleConfig::Beamformer {
                enabled,
                wav,
                ..
            } && enabled && wav);
        assert(writes_bf(modules[i]));
    }
    if writes_table(modules) {
        let i = choose|i: int| 0 <= i < modules.len() && writes_csv(#[trigger] modules[i]);
        assert(modules[i] matches ModuleConfig::Doa { enabled, csv, .. } && enabled && csv);
    }
    if exists|i: int|
        0 <= i < modules.len() && (#[trigger] modules[i] matches ModuleConfig::Doa {
            enabled,
            csv,
            ..
        } && enabled && csv) {
        let i = choose|i: int|
            0 <= i < modules.len() && (#[trigger] modules[i] matches ModuleConfig::Doa {
                enabled,
                csv,
                ..
            } && enabled && csv);
        assert(writes_csv(modules[i]));
    }
    if config.pipeline_enabled && writes_beamformer(modules) {
        assert(all[4] == "bf"@);
    }
    if config.pipeline_enabled && writes_table(modules) {
        assert(all[all.len() - 1] == "doa_csv"@);
    }
}

/// A session is identified by one to 128 digits, letters of ASCII, dashes and underscores, and by
/// nothing else.
pub proof fn law_accepted_session_ids(id: Seq<char>)
    requires
        id.len() <= usize::MAX,
    ensures
        valid_session_id(id) <==> 1 <= id.len() <= 128 && forall|i: int|
            0 <= i < id.len() ==> {
                ||| '0' <= #[trigger] id[i] <= '9'
                ||| 'A' <= id[i] <= 'Z'
                ||| 'a' <= id[i] <= 'z'
                ||| id[i] == '-'
                ||| id[i] == '_'
            },
{
    if name_chars(id) {
        crate::app_config::law_name_characters_stay_in_the_directory(id);
    }
    crate::app_config::law_accepted_names(id, 128);
}

proof fn lemma_recorded_name(prefix: Seq<char>, kind: Seq<char>)
    requires
        kind == "algo"@ || kind == "mic"@ || kind == "ref"@ || kind == "bf"@ || kind == "doa_csv"@,
    ensures
        recorded_file(prefix + kind_suffix(kind)->0) == Some((prefix, kind)),
        !manifest_name(prefix + kind_suffix(kind)->0),
{
    lemma_suffixes();
    let name = prefix + kind_suffix(kind)->0;
    lemma_ends_with_own_suffix_only(prefix, kind, "algo"@);
    lemma_ends_with_own_suffix_only(prefix, kind, "mic"@);
    lemma_ends_with_own_suffix_only(prefix, kind, "ref"@);
    lemma_ends_with_own_suffix_only(prefix, kind, "bf"@);
    lemma_ends_with_own_suffix_only(prefix, kind, "doa_csv"@);
    lemma_ends_with_own_suffix_only(prefix, kind, "manifest"@);
    lemma_kinds_differ(0, 5);
    lemma_kinds_differ(1, 5);
    lemma_kinds_differ(2, 5);
    lemma_kinds_differ(3, 5);
    lemma_kinds_differ(4, 5);
    assert(name.take(name.len() - kind_suffix(kind)->0.len()) =~= prefix);
}

proof fn lemma_ends_with_own_suffix_only(prefix: Seq<char>, kind: Seq<char>, other: Seq<char>)
    requires
        kind_suffix(kind) is Some,
        kind_suffix(other) is Some,
    ensures
        ends_with(prefix + kind_suffix(kind)->0, kind_suffix(other)->0) <==> kind == other,
{
    let x = kind_suffix(kind)->0;
    let y = kind_suffix(other)->0;
    let name = prefix + x;
    if ends_with(name, y) {
        let head = name.take(name.len() - y.len());
        assert(name =~= head + y);
        law_name_tells_prefix_and_kind(name, prefix, kind, head, other);
    }
    if kind == other {
        assert(name.skip(name.len() - y.len()) =~= y);
    }
}

proof fn lemma_files_hold(listing: Seq<DirEntry>, i: int)
    requires
        0 <= i < listing.len(),
        listed_file(listing[i]) is Some,
    ensures
        files_of(listing, (listed_file(listing[i])->0).0).contains((listed_file(listing[i])->0).1),
    decreases listing.len(),
{
    let (p, file) = listed_file(listing[i])->0;
    let all = files_of(listing, p);
    if i == listing.len() - 1 {
        assert(all[all.len() - 1] == file);
    } else {
        let rest = listing.drop_last();
        assert(rest[i] == listing[i]);
        lemma_files_hold(rest, i);
        let earlier = files_of(rest, p);
        let k = choose|k: int| 0 <= k < earlier.len() && earlier[k] == file;
        assert(all[k] == file);
    }
}

/// Where a prefix has no manifest, every recorded file of it that lies in the output directory
/// stands, with its kind and size, in the one entry of that prefix, which has no manifest.
pub proof fn law_files_without_manifest_make_one_entry(
    listing: Seq<DirEntry>,
    active: Option<Seq<char>>,
    prefix: Seq<char>,
    kind: Seq<char>,
    i: int,
)
    requires
        kind == "algo"@ || kind == "mic"@ || kind == "ref"@ || kind == "bf"@ || kind == "doa_csv"@,
        0 <= i < listing.len(),
        listing[i].is_file,
        file_name(prefix, kind) == Some(listing[i].name@),
        prefix.len() > 0,
        prefix[0] != '.',
        forall|j: int|
            0 <= j < listing.len() ==> !((#[trigger] listing[j]).manifest matches Some(m)
                && m.prefix@ == prefix),
    ensures
        catalog_of(listing, active, prefix).len() == 1,
        ({
            let e = catalog_of(listing, active, prefix)[0];
            &&& e.id == "legacy-"@ + prefix
            &&& e.prefix == prefix
            &&& e.status is Legacy
            &&& e.manifest is None
            &&& e.files.contains(
                FileView { kind, path: listing[i].name@, bytes: listing[i].bytes, exists: true },
            )
        }),
{
    reveal_strlit(".");
    lemma_suffixes();
    lemma_recorded_name(prefix, kind);
    let name = listing[i].name@;
    assert(name[0] == prefix[0]);
    assert(name.take(1)[0] == name[0]);
    lemma_files_hold(listing, i);
    lemma_no_manifests(listing, active, prefix);
    assert(files_of(listing, prefix).len() > 0);
}

proof fn lemma_no_manifests(listing: Seq<DirEntry>, active: Option<Seq<char>>, prefix: Seq<char>)
    requires
        forall|j: int|
            0 <= j < listing.len() ==> !((#[trigger] listing[j]).manifest matches Some(m)
                && m.prefix@ == prefix),
    ensures
        manifests_of(listing, active, prefix).len() == 0,
    decreases listing.len(),
{
    if listing.len() > 0 {
        let rest = listing.drop_first();
        assert forall|j: int| 0 <= j < rest.len() implies !((#[trigger] rest[j]).manifest matches Some(
            m,
        ) && m.prefix@ == prefix) by {
            assert(rest[j] == listing[j + 1]);
        }
        lemma_no_manifests(rest, active, prefix);
        assert(!(listing[0].manifest matches Some(m) && m.prefix@ == prefix));
    }
}

/// A directory of the trash with a manifest shows the session as the manifest has it, whatever its
/// status. One without shows the files that are there, under the prefix behind `legacy-` in its
/// name; with another name, or without files, it shows nothing.
pub proof fn law_trash_shows_what_it_holds(dir: TrashDir, prefix: Seq<char>, i: int)
    requires
        0 <= i < 6,
    ensures
        dir.manifest matches Some(m) ==> {
            &&& trash_entry(dir) is Some
            &&& trash_entry(dir)->0.id == m.session_id@
            &&& trash_entry(dir)->0.prefix == m.prefix@
            &&& trash_entry(dir)->0.status == m.status
            &&& trash_entry(dir)->0.manifest == Some(m)
        },
        dir.manifest is None && dir.name@ == "legacy-"@ + prefix && dir.files@[i].exists ==> {
            &&& trash_entry(dir) is Some
            &&& trash_entry(dir)->0.id == dir.name@
            &&& trash_entry(dir)->0.prefix == prefix
            &&& trash_entry(dir)->0.status is Legacy
            &&& trash_entry(dir)->0.manifest is None
            &&& trash_entry(dir)->0.files.contains(
                FileView {
                    kind: kinds()[i],
                    path: prefix + kind_suffix(kinds()[i])->0,
                    bytes: dir.files@[i].bytes,
                    exists: true,
                },
            )
            &&& forall|k: int|
                0 <= k < trash_entry(dir)->0.files.len()
                    ==> (#[trigger] trash_entry(dir)->0.files[k]).exists
        },
        dir.manifest is None && !(exists|p: Seq<char>| dir.name@ == #[trigger] ("legacy-"@ + p))
            ==> trash_entry(dir) is None,
        dir.manifest is None && (forall|k: int|
            0 <= k < 6 ==> !(#[trigger] dir.files@[k]).exists) ==> trash_entry(dir) is None,
{
    let name = dir.name@;
    let head = "legacy-"@;
    let p = name.skip(head.len() as int);
    let files = session_files(p, dir.files@);
    let f = |x: FileView| x.exists;
    assert(dir.files@.len() == 6);
    if begins_with(name, head) {
        assert(name =~= head + p);
    }
    if name == head + prefix {
        assert(name.take(head.len() as int) =~= head);
        assert(p =~= prefix);
    }
    if dir.files@[i].exists {
        files.lemma_filter_contains(f, i);
        assert(files.filter(f).contains(files[i]));
        assert(present(files) == files.filter(f));
        assert forall|k: int| 0 <= k < present(files).len() implies (#[trigger] present(
            files,
        )[k]).exists by {
            files.lemma_filter_pred(f, k);
        }
    }
    if forall|k: int| 0 <= k < 6 ==> !(#[trigger] dir.files@[k]).exists {
        if present(files).len() > 0 {
            files.lemma_filter_contains_rev(f, present(files)[0]);
            let k = choose|k: int| 0 <= k < files.len() && files[k] == present(files)[0];
            files.lemma_filter_pred(f, 0);
            assert(!dir.files@[k].exists);
        }
    }
}

/// A path that the file system resolves lies in a directory that it resolves too.
pub open spec fn found_below(path: ResolvedPath, root: ResolvedPath) -> bool {
    &&& root.parts matches Ok(r)
    &&& path.parts matches Ok(p)
    &&& r@.len() <= p@.len()
    &&& forall|i: int| 0 <= i < r@.len() ==> (#[trigger] p@[i])@ == r@[i]@
}

/// A path is accepted exactly when it and the directory are resolved and the components of the
/// directory come first in it.
pub proof fn law_only_paths_in_the_directory_are_accepted(path: ResolvedPath, root: ResolvedPath)
    ensures
        under_problem(path, root) is None <==> found_below(path, root),
{
}

/// A file is handed out exactly when its kind is one of the six, it is there, and it really lies in
/// the directory.
pub proof fn law_files_that_are_handed_out(
    kind: Seq<char>,
    is_file: bool,
    path: ResolvedPath,
    root: ResolvedPath,
)
    ensures
        resolve_problem(kind, is_file, path, root) is None <==> {
            &&& kinds().contains(kind)
            &&& is_file
            &&& found_below(path, root)
        },
{
    lemma_suffixes();
    let all = kinds();
    assert(all[0] == "algo"@ && all[1] == "mic"@ && all[2] == "ref"@ && all[3] == "bf"@ && all[4]
        == "doa_csv"@ && all[5] == "manifest"@);
    if kinds().contains(kind) {
        let k = choose|k: int| 0 <= k < 6 && all[k] == kind;
        assert(k == 0 || k == 1 || k == 2 || k == 3 || k == 4 || k == 5);
    }
}

proof fn lemma_no_move_problem(files: Seq<MoveSource>, root: ResolvedPath, n: nat)
    ensures
        first_move_problem(files, root, n) is None <==> forall|k: int|
            0 <= k < n && (#[trigger] files[k]).is_file ==> found_below(files[k].source, root)
                && !files[k].target_exists,
    decreases n,
{
    if n > 0 {
        lemma_no_move_problem(files, root, (n - 1) as nat);
    }
}

/// A session is moved to the trash exactly when its identifier and its prefix are accepted, its
/// directory in the trash could be made and lies in the output directory, and each of its files
/// that is there really lies in the output directory and has a free place in the trash. Files that
/// are not there do not matter.
pub proof fn law_sessions_that_can_be_trashed(
    session_id: Seq<char>,
    prefix: Seq<char>,
    place: TrashPlace,
    root: ResolvedPath,
    files: Seq<MoveSource>,
)
    ensures
        trash_problem(session_id, prefix, place, root, files) is None <==> {
            &&& valid_session_id(session_id)
            &&& place.created is Ok
            &&& found_below(place.path, root)
            &&& safe_name(prefix, 128)
            &&& forall|k: int|
                0 <= k < 6 && (#[trigger] files[k]).is_file ==> found_below(files[k].source, root)
                    && !files[k].target_exists
        },
{
    lemma_no_move_problem(files, root, 6);
}

proof fn lemma_no_item_problem(prefix: Seq<char>, items: Seq<TrashItem>, n: nat)
    ensures
        first_item_problem(prefix, items, n) is None <==> forall|k: int|
            0 <= k < n ==> can_be_restored(prefix, #[trigger] items[k]),
    decreases n,
{
    if n > 0 {
        lemma_no_item_problem(prefix, items, (n - 1) as nat);
        lemma_restorable(prefix, items[n - 1]);
    }
}

/// Something in the trash that can be restored: a file with the name of one of the six files of the
/// session, whose place is free.
pub open spec fn can_be_restored(prefix: Seq<char>, item: TrashItem) -> bool {
    &&& item.error is None
    &&& item.name matches Some(name)
    &&& {
        ||| name@ == prefix + "_respeaker_algo.wav"@
        ||| name@ == prefix + "_respeaker_mic.wav"@
        ||| name@ == prefix + "_respeaker_ref.wav"@
        ||| name@ == prefix + "_respeaker_bf.wav"@
        ||| name@ == prefix + "_respeaker_doa.csv"@
        ||| name@ == prefix + "_respeaker_session.json"@
    }
    &&& item.file.is_file
    &&& !item.file.target_exists
}

proof fn lemma_restorable(prefix: Seq<char>, item: TrashItem)
    ensures
        item_problem(prefix, item) is None <==> can_be_restored(prefix, item),
{
    lemma_suffixes();
    let all = kinds();
    assert(all[0] == "algo"@ && all[1] == "mic"@ && all[2] == "ref"@ && all[3] == "bf"@ && all[4]
        == "doa_csv"@ && all[5] == "manifest"@);
    if let Some(name) = item.name {
        if belongs(prefix, name@) {
            let k = choose|k: int| 0 <= k < 6 && tells(name@, prefix, #[trigger] kinds()[k]);
            assert(k == 0 || k == 1 || k == 2 || k == 3 || k == 4 || k == 5);
        }
        assert(tells(name@, prefix, all[0]) <==> name@ == prefix + "_respeaker_algo.wav"@);
        assert(tells(name@, prefix, all[1]) <==> name@ == prefix + "_respeaker_mic.wav"@);
        assert(tells(name@, prefix, all[2]) <==> name@ == prefix + "_respeaker_ref.wav"@);
        assert(tells(name@, prefix, all[3]) <==> name@ == prefix + "_respeaker_bf.wav"@);
        assert(tells(name@, prefix, all[4]) <==> name@ == prefix + "_respeaker_doa.csv"@);
        assert(tells(name@, prefix, all[5]) <==> name@ == prefix + "_respeaker_session.json"@);
    }
}

proof fn lemma_no_stray_problem(items: Seq<TrashItem>, trash: ResolvedPath, n: nat)
    ensures
        first_stray_problem(items, trash, n) is None <==> forall|k: int|
            0 <= k < n ==> found_below((#[trigger] items[k]).file.source, trash),
    decreases n,
{
    if n > 0 {
        lemma_no_stray_problem(items, trash, (n - 1) as nat);
    }
}

/// A session is restored exactly when its identifier, its prefix and its directory in the trash are
/// accepted, and everything in that directory can be restored and really lies there.
pub proof fn law_sessions_that_can_be_restored(
    session_id: Seq<char>,
    prefix: Seq<char>,
    place: TrashPlace,
    root: ResolvedPath,
    items: Seq<TrashItem>,
)
    ensures
        restore_problem(session_id, prefix, place, root, items) is None <==> {
            &&& valid_session_id(session_id)
            &&& place.created is Ok
            &&& found_below(place.path, root)
            &&& safe_name(prefix, 128)
            &&& forall|k: int|
                0 <= k < items.len() ==> can_be_restored(prefix, #[trigger] items[k]) && found_below(
                    items[k].file.source,
                    place.path,
                )
        },
{
    lemma_no_item_problem(prefix, items, items.len());
    lemma_no_stray_problem(items, place.path, items.len());
}

/// The refusal of a session tells the identifier before anything else and the prefix before any
/// file.
pub proof fn law_refusals_tell_the_session_first(
    session_id: Seq<char>,
    prefix: Seq<char>,
    place: TrashPlace,
    root: ResolvedPath,
    files: Seq<MoveSource>,
    items: Seq<TrashItem>,
)
    ensures
        !valid_session_id(session_id) ==> {
            &&& trash_problem(session_id, prefix, place, root, files) == Some(
                session_id_message(session_id),
            )
            &&& restore_problem(session_id, prefix, place, root, items) == Some(
                session_id_message(session_id),
            )
        },
        valid_session_id(session_id) && place.created is Ok && found_below(place.path, root)
            && !safe_name(prefix, 128) ==> {
            &&& trash_problem(session_id, prefix, place, root, files) == Some(
                prefix_message(name_problem(prefix, 128)->0),
            )
            &&& restore_problem(session_id, prefix, place, root, items) == Some(
                prefix_message(name_problem(prefix, 128)->0),
            )
        },
{
}

/// Every directory of the trash that shows something has its entry in the catalog of the trash.
pub proof fn law_every_trashed_session_is_listed(dirs: Seq<TrashDir>, i: int)
    requires
        0 <= i < dirs.len(),
        trash_entry(dirs[i]) is Some,
    ensures
        trash_of(dirs, trash_entry(dirs[i])->0.prefix).contains(trash_entry(dirs[i])->0),
    decreases dirs.len(),
{
    let e = trash_entry(dirs[i])->0;
    let all = trash_of(dirs, e.prefix);
    if i == 0 {
        assert(all[0] == e);
    } else {
        let rest = dirs.drop_first();
        assert(rest[i - 1] == dirs[i]);
        law_every_trashed_session_is_listed(rest, i - 1);
        let later = trash_of(rest, e.prefix);
        let k = choose|k: int| 0 <= k < later.len() && later[k] == e;
        match trash_entry(dirs[0]) {
            Some(f) => {
                if f.prefix == e.prefix {
                    assert(all[k + 1] == later[k]);
                } else {
                    assert(all[k] == later[k]);
                }
            },
            None => {
                assert(all[k] == later[k]);
            },
        }
    }
}

/// The file that a module writes is the one of its session that the catalog knows it by.
pub proof fn law_modules_write_files_of_the_session(
    plan: crate::pipeline::ModulePlan,
    module: ModuleConfig,
    out_dir: Seq<char>,
    prefix: Seq<char>,
)
    requires
        crate::pipeline::is_plan_of(plan, module, out_dir, prefix),
    ensures
        plan matches crate::pipeline::ModulePlan::Doa { csv_path, .. } ==> {
            &&& csv_path is Some <==> (module matches ModuleConfig::Doa { csv, .. } && csv)
            &&& csv_path matches Some(path) ==> path@ == out_dir + "/"@ + file_name(
                prefix,
                "doa_csv"@,
            )->0
        },
        plan matches crate::pipeline::ModulePlan::Beamformer { wav_path, .. } ==> {
            &&& wav_path is Some <==> (module matches ModuleConfig::Beamformer { wav, .. } && wav)
            &&& wav_path matches Some(path) ==> path@ == out_dir + "/"@ + file_name(
                prefix,
                "bf"@,
            )->0
        },
        plan is Doa <==> module is Doa,
{
    lemma_suffixes();
    assert(out_dir + "/"@ + (prefix + "_respeaker_doa.csv"@) =~= out_dir + "/"@ + prefix
        + "_respeaker_doa.csv"@);
    assert(out_dir + "/"@ + (prefix + "_respeaker_bf.wav"@) =~= out_dir + "/"@ + prefix
        + "_respeaker_bf.wav"@);
}

/// What begins with a dot is left out of the catalog, and so is what bears the name of a recorded
/// file but is none.
pub proof fn law_hidden_things_are_left_out(e: DirEntry)
    ensures
        e.name@.len() > 0 && e.name@[0] == '.' ==> listed_manifest(e) is None && listed_file(e)
            is None,
        !e.is_file ==> listed_file(e) is None,
{
    reveal_strlit(".");
    if e.name@.len() > 0 && e.name@[0] == '.' {
        assert(e.name@.take(1) =~= "."@);
    }
}

/// Every entry with a manifest comes from a manifest of the listing with its prefix.
pub proof fn law_entries_come_from_manifests(
    listing: Seq<DirEntry>,
    active: Option<Seq<char>>,
    prefix: Seq<char>,
    k: int,
)
    requires
        0 <= k < manifests_of(listing, active, prefix).len(),
    ensures
        exists|i: int|
            0 <= i < listing.len() && ((#[trigger] listing[i]).manifest matches Some(m) && {
                &&& m.prefix@ == prefix
                &&& manifests_of(listing, active, prefix)[k].id == m.session_id@
                &&& manifests_of(listing, active, prefix)[k].files == file_views(m.files@)
            }),
    decreases listing.len(),
{
    let all = manifests_of(listing, active, prefix);
    let rest = listing.drop_first();
    let later = manifests_of(rest, active, prefix);
    let mine = match listed_manifest(listing[0]) {
        Some(m) => m.prefix@ == prefix,
        None => false,
    };
    if mine && k == 0 {
        let m = listed_manifest(listing[0])->0;
        assert(all[0] == manifest_entry(settled(m, active)));
        assert(listing[0].manifest == Some(m));
    } else {
        let l = if mine {
            k - 1
        } else {
            k
        };
        assert(all[k] == later[l]);
        law_entries_come_from_manifests(rest, active, prefix, l);
        let i = choose|i: int|
            0 <= i < rest.len() && ((#[trigger] rest[i]).manifest matches Some(m) && {
                &&& m.prefix@ == prefix
                &&& later[l].id == m.session_id@
                &&& later[l].files == file_views(m.files@)
            });
        assert(listing[i + 1] == rest[i]);
    }
}

/// Sessions with the same prefix stand in the catalog in the order of the listing.
pub proof fn law_equal_prefixes_keep_their_order(
    listing: Seq<DirEntry>,
    active: Option<Seq<char>>,
    i: int,
    j: int,
)
    requires
        0 <= i < j < listing.len(),
        listed_manifest(listing[i]) is Some,
        listed_manifest(listing[j]) is Some,
        listed_manifest(listing[i])->0.prefix@ == listed_manifest(listing[j])->0.prefix@,
    ensures
        ({
            let a = listed_manifest(listing[i])->0;
            let b = listed_manifest(listing[j])->0;
            let all = manifests_of(listing, active, a.prefix@);
            exists|k: int, l: int|
                0 <= k < l < all.len() && #[trigger] all[k] == manifest_entry(settled(a, active))
                    && #[trigger] all[l] == manifest_entry(settled(b, active))
        }),
    decreases listing.len(),
{
    let a = listed_manifest(listing[i])->0;
    let b = listed_manifest(listing[j])->0;
    let rest = listing.drop_first();
    let all = manifests_of(listing, active, a.prefix@);
    let later = manifests_of(rest, active, a.prefix@);
    assert(rest[j - 1] == listing[j]);
    if i == 0 {
        lemma_manifest_is_listed(rest, active, j - 1);
        let l = choose|l: int|
            0 <= l < later.len() && #[trigger] later[l] == manifest_entry(settled(b, active));
        assert(all[0] == manifest_entry(settled(a, active)));
        assert(all[l + 1] == later[l]);
    } else {
        assert(rest[i - 1] == listing[i]);
        law_equal_prefixes_keep_their_order(rest, active, i - 1, j - 1);
        let (k, l) = choose|k: int, l: int|
            0 <= k < l < later.len() && #[trigger] later[k] == manifest_entry(settled(a, active))
                && #[trigger] later[l] == manifest_entry(settled(b, active));
        let shift: int = match listed_manifest(listing[0]) {
            Some(m) => if m.prefix@ == a.prefix@ {
                1
            } else {
                0
            },
            None => 0,
        };
        assert(all[k + shift] == later[k]);
        assert(all[l + shift] == later[l]);
    }
}

/// Every file that the catalog shows without a manifest lies in the output directory under that
/// name, which is that of a recorded file of the prefix, and has that size.
pub proof fn law_shown_files_are_there(listing: Seq<DirEntry>, prefix: Seq<char>, k: int)
    requires
        0 <= k < files_of(listing, prefix).len(),
    ensures
        exists|i: int|
            0 <= i < listing.len() && {
                let e = #[trigger] listing[i];
                let f = files_of(listing, prefix)[k];
                &&& e.is_file
                &&& f.path == e.name@ && f.bytes == e.bytes && f.exists
                &&& file_name(prefix, f.kind) == Some(e.name@)
                &&& f.kind != "manifest"@
            },
    decreases listing.len(),
{
    let rest = listing.drop_last();
    let earlier = files_of(rest, prefix);
    let all = files_of(listing, prefix);
    if k < earlier.len() {
        law_shown_files_are_there(rest, prefix, k);
        let i = choose|i: int|
            0 <= i < rest.len() && {
                let e = #[trigger] rest[i];
                let f = earlier[k];
                &&& e.is_file
                &&& f.path == e.name@ && f.bytes == e.bytes && f.exists
                &&& file_name(prefix, f.kind) == Some(e.name@)
                &&& f.kind != "manifest"@
            };
        assert(listing[i] == rest[i]);
        assert(all[k] == earlier[k]);
    } else {
        let e = listing.last();
        let (p, f) = listed_file(e)->0;
        assert(all[k] == f);
        lemma_suffixes();
        lemma_kinds_differ(0, 5);
        lemma_kinds_differ(1, 5);
        lemma_kinds_differ(2, 5);
        lemma_kinds_differ(3, 5);
        lemma_kinds_differ(4, 5);
        let suffix = kind_suffix(f.kind)->0;
        let name = e.name@;
        assert(name =~= name.take(name.len() - suffix.len()) + name.skip(name.len() - suffix.len()));
        assert(listing[listing.len() - 1] == e);
    }
}

/// Of two entries of a catalog, the one whose prefix comes later in dictionary order comes first.
pub proof fn law_latest_recordings_come_first(entries: Seq<EntryView>, i: int, j: int)
    requires
        latest_first(entries),
        0 <= i < entries.len(),
        0 <= j < entries.len(),
        before(entries[i].prefix, entries[j].prefix),
    ensures
        j < i,
{
    lemma_before_is_total(entries[i].prefix, entries[j].prefix);
    if i <= j {
        assert(not_behind(entries[j].prefix, entries[i].prefix));
    }
}

/// The entry that is found for an identifier has it, and none before it does; so does the target
/// that is told as being there already.
pub proof fn law_first_one_is_found(
    entries: Seq<EntryView>,
    id: Seq<char>,
    targets: Seq<TargetFile>,
    at: int,
    i: int,
)
    ensures
        first_with_id(entries, id, at) ==> 0 <= at < entries.len() && entries[at].id == id,
        first_with_id(entries, id, at) && 0 <= i < entries.len() && entries[i].id == id ==> at <= i,
        first_clobbered(targets, at) ==> 0 <= at < targets.len() && targets[at].exists,
        first_clobbered(targets, at) && 0 <= i < targets.len() && targets[i].exists ==> at <= i,
{
}

/// A search succeeds exactly when the identifier is accepted and some entry has it.
pub proof fn law_sessions_are_found_when_they_are_there(
    entries: Seq<EntryView>,
    id: Seq<char>,
    result: Result<RecordingEntry, String>,
    missing: Seq<char>,
    i: int,
)
    requires
        found_in(entries, id, result, missing),
    ensures
        valid_session_id(id) && 0 <= i < entries.len() && entries[i].id == id ==> result is Ok,
        result matches Ok(entry) ==> entry@.id == id,
        !valid_session_id(id) ==> result is Err,
        valid_session_id(id) && (forall|k: int|
            0 <= k < entries.len() ==> (#[trigger] entries[k]).id != id) ==> result is Err
            && result->Err_0@ == missing,
{
}

/// What is said of an identifier: its length where that is at fault, and its characters otherwise.
pub proof fn law_identifiers_are_refused_for_a_reason(id: Seq<char>)
    ensures
        id.len() == 0 || byte_len(id) > 128 ==> session_id_message(id) == "session id 长度无效"@,
        id.len() > 0 && byte_len(id) <= 128 ==> session_id_message(id)
            == "session id 只允许 ASCII 字母、数字、_、-"@,
{
}

/// A path is refused for the directory before it is for itself, and each is told with the reason
/// that the file system gives; only where both are resolved is it told that it lies elsewhere.
pub proof fn law_path_refusals_tell_the_directory_first(path: ResolvedPath, root: ResolvedPath)
    ensures
        root.parts matches Err(e) ==> under_problem(path, root) == Some(
            "确认目录 "@ + root.shown@ + " 失败: "@ + e@,
        ),
        root.parts is Ok ==> (path.parts matches Err(e) ==> under_problem(path, root) == Some(
            "确认路径 "@ + path.shown@ + " 失败: "@ + e@,
        )),
        root.parts is Ok && path.parts is Ok && !found_below(path, root) ==> under_problem(path, root)
            == Some("路径不在输出目录内"@),
{
}

proof fn lemma_first_faulty_file(files: Seq<MoveSource>, root: ResolvedPath, k: int, n: nat)
    requires
        0 <= k < n,
        forall|j: int| 0 <= j < k ==> move_problem(#[trigger] files[j], root) is None,
        move_problem(files[k], root) is Some,
    ensures
        first_move_problem(files, root, n) == move_problem(files[k], root),
    decreases n,
{
    if k < n - 1 {
        lemma_first_faulty_file(files, root, k, (n - 1) as nat);
    } else {
        lemma_nothing_faulty(files, root, k as nat);
    }
}

proof fn lemma_nothing_faulty(files: Seq<MoveSource>, root: ResolvedPath, n: nat)
    requires
        forall|j: int| 0 <= j < n ==> move_problem(#[trigger] files[j], root) is None,
    ensures
        first_move_problem(files, root, n) is None,
    decreases n,
{
    if n > 0 {
        lemma_nothing_faulty(files, root, (n - 1) as nat);
    }
}

/// Where a session is accepted but one of its files cannot be moved, the first such file is told:
/// that it does not lie in the output directory, or that its place in the trash is taken.
pub proof fn law_first_faulty_file_is_told(
    session_id: Seq<char>,
    prefix: Seq<char>,
    place: TrashPlace,
    root: ResolvedPath,
    files: Seq<MoveSource>,
    k: int,
)
    requires
        valid_session_id(session_id),
        place.created is Ok,
        found_below(place.path, root),
        safe_name(prefix, 128),
        0 <= k < 6,
        forall|j: int|
            0 <= j < k && (#[trigger] files[j]).is_file ==> found_below(files[j].source, root)
                && !files[j].target_exists,
        files[k].is_file,
    ensures
        !found_below(files[k].source, root) ==> trash_problem(
            session_id,
            prefix,
            place,
            root,
            files,
        ) == under_problem(files[k].source, root),
        found_below(files[k].source, root) && files[k].target_exists ==> trash_problem(
            session_id,
            prefix,
            place,
            root,
            files,
        ) == Some("回收站目标已存在: "@ + files[k].target_shown@),
{
    if !found_below(files[k].source, root) || files[k].target_exists {
        lemma_first_faulty_file(files, root, k, 6);
    }
}

/// Of a file that is asked for, an unknown kind is told first, then that it is not there, and last
/// what is wrong with its path.
pub proof fn law_missing_files_are_told_in_order(
    kind: Seq<char>,
    is_file: bool,
    path: ResolvedPath,
    root: ResolvedPath,
)
    ensures
        !kinds().contains(kind) ==> resolve_problem(kind, is_file, path, root) == Some(
            "未知文件类型 "@ + kind,
        ),
        kinds().contains(kind) && !is_file ==> resolve_problem(kind, is_file, path, root) == Some(
            "文件不存在"@,
        ),
        kinds().contains(kind) && is_file ==> resolve_problem(kind, is_file, path, root)
            == under_problem(path, root),
{
    lemma_suffixes();
    let all = kinds();
    assert(all[0] == "algo"@ && all[1] == "mic"@ && all[2] == "ref"@ && all[3] == "bf"@ && all[4]
        == "doa_csv"@ && all[5] == "manifest"@);
    if kinds().contains(kind) {
        let k = choose|k: int| 0 <= k < 6 && all[k] == kind;
        assert(k == 0 || k == 1 || k == 2 || k == 3 || k == 4 || k == 5);
    }
}

/// Of the directory of a session in the trash it is told first that it could not be made, then that
/// the output directory or it could not be resolved, and last that it lies elsewhere.
pub proof fn law_faults_of_the_trash_come_in_order(
    session_id: Seq<char>,
    place: TrashPlace,
    root: ResolvedPath,
)
    requires
        valid_session_id(session_id),
    ensures
        place.created matches Err(e) ==> trash_root_problem(session_id, place, root) == Some(
            "创建回收站目录失败: "@ + e@,
        ),
        place.created is Ok ==> (root.parts matches Err(e) ==> trash_root_problem(
            session_id,
            place,
            root,
        ) == Some("确认输出目录失败: "@ + e@)),
        place.created is Ok && root.parts is Ok ==> (
        place.path.parts matches Err(e) ==> trash_root_problem(session_id, place, root) == Some(
            "确认回收站目录失败: "@ + e@,
        )),
        place.created is Ok && root.parts is Ok && place.path.parts is Ok && !found_below(
            place.path,
            root,
        ) ==> trash_root_problem(session_id, place, root) == Some("回收站路径不在输出目录内"@),
        place.created is Ok && found_below(place.path, root) ==> trash_root_problem(
            session_id,
            place,
            root,
        ) is None,
{
}

/// Of something in the trash it is told first that it could not be read, then that its name is no
/// text, then that it is no file of the session, and last that its place is taken.
pub proof fn law_faults_in_the_trash_come_in_order(prefix: Seq<char>, item: TrashItem)
    ensures
        item.error matches Some(e) ==> item_problem(prefix, item) == Some(
            "读取回收站项失败: "@ + e@,
        ),
        item.error is None && item.name is None ==> item_problem(prefix, item) == Some(
            "回收站存在无效文件名"@,
        ),
        item.error is None && item.name is Some && (!belongs(prefix, item.name->0@)
            || !item.file.is_file) ==> item_problem(prefix, item) == Some(
            "回收站包含不属于该 session 的文件"@,
        ),
        item.error is None && item.name is Some && belongs(prefix, item.name->0@)
            && item.file.is_file && item.file.target_exists ==> item_problem(prefix, item) == Some(
            "目标已存在，无法恢复: "@ + item.file.target_shown@,
        ),
{
}

/// Where a session is accepted but something in its trash cannot be restored, the first such thing
/// is told, before it is looked at whether everything really lies there.
pub proof fn law_first_faulty_item_is_told(
    session_id: Seq<char>,
    prefix: Seq<char>,
    place: TrashPlace,
    root: ResolvedPath,
    items: Seq<TrashItem>,
    k: int,
)
    requires
        valid_session_id(session_id),
        place.created is Ok,
        found_below(place.path, root),
        safe_name(prefix, 128),
        0 <= k < items.len(),
        forall|j: int| 0 <= j < k ==> can_be_restored(prefix, #[trigger] items[j]),
        !can_be_restored(prefix, items[k]),
    ensures
        restore_problem(session_id, prefix, place, root, items) == item_problem(prefix, items[k]),
        item_problem(prefix, items[k]) is Some,
{
    lemma_no_item_problem(prefix, items, k as nat);
    lemma_restorable(prefix, items[k]);
    assert(first_item_problem(prefix, items, (k + 1) as nat) == item_problem(prefix, items[k]));
    lemma_first_item_problem_stays(prefix, items, (k + 1) as nat, items.len());
}

} // verus!

//! The controller of the service: it holds the draft of the configuration and the state of the
//! session, and decides what each command and each event of a session does.

use vstd::prelude::*;
use vstd::string::*;

use crate::app_config::{
    is_default, is_preset, preset_config, preset_of, AppConfig, AppConfigError, Preset,
};
use crate::events::{
    first_snapshot, fresh_pipeline, DeviceSnapshot, ErrorSource, PipelineSnapshot,
    RecordingSnapshot, ServiceError, ServicePhase, ServiceSnapshot,
};
use crate::recorder::{
    classify_error, error_source_of, held, service_error, RecordingRequest, RecordingSummary,
};
use crate::single::Double;
use crate::text::{begins_with, decimal, joined, push_decimal, same_text, strip_head};

verus! {

pub const COMMAND_CAPACITY: usize = 32;

/// How many prefixes are tried for a recording that was given none.
pub const MAX_PREFIX_CANDIDATES: u32 = 10_000;

/// What the controller tells the clients.
#[derive(Debug)]
pub enum Announcement {
    State(ServiceSnapshot),
    Error(ServiceError),
    Device(DeviceSnapshot),
    Finished { session_id: String, summary: Option<RecordingSummary> },
}

/// The state as it is announced next.
pub open spec fn announced(snapshot: ServiceSnapshot) -> ServiceSnapshot {
    ServiceSnapshot {
        revision: if snapshot.revision == u64::MAX {
            u64::MAX
        } else {
            (snapshot.revision + 1) as u64
        },
        ..snapshot
    }
}

/// Whether a session is the one that a phase belongs to.
pub fn session_matches(phase: &ServicePhase, id: &str) -> (b: bool)
    ensures
        b == (phase.session() == Some(id@)),
{
    match phase {
        ServicePhase::Starting { session_id } => same_text(session_id.as_str(), id),
        ServicePhase::Recording { session_id } => same_text(session_id.as_str(), id),
        ServicePhase::Stopping { session_id } => same_text(session_id.as_str(), id),
        ServicePhase::Idle => false,
    }
}

/// What the error of a recording is taken for.
pub fn recording_error_source(error: &str) -> (source: ErrorSource)
    ensures
        source == error_source_of(error@),
{
    classify_error(error)
}

/// The candidate for a prefix: the base itself, then the base with a number.
pub open spec fn candidate(base: Seq<char>, index: nat) -> Seq<char> {
    if index == 0 {
        base
    } else {
        base + "_"@ + decimal(index)
    }
}

/// The search for a prefix whose files do not exist yet.
#[derive(Debug)]
pub struct PrefixSearch {
    pub base: String,
    pub index: u32,
    /// The prefix was given: no other may take its place.
    pub given: bool,
}

/// What the search does next.
#[derive(Debug)]
pub enum SearchStep {
    Chosen(String),
    Next,
    Failed(String),
}

impl PrefixSearch {
    pub open spec fn well_formed(&self) -> bool {
        self.index < MAX_PREFIX_CANDIDATES && (self.given ==> self.index == 0)
    }

    pub fn new(base: String, given: bool) -> (search: Self)
        ensures
            search.well_formed(),
            search.base == base,
            search.index == 0,
            search.given == given,
    {
        PrefixSearch { base, index: 0, given }
    }

    /// The prefix to be tried.
    pub fn current(&self) -> (prefix: String)
        ensures
            prefix@ == candidate(self.base@, self.index as nat),
    {
        if self.index == 0 {
            return self.base.clone();
        }
        let mut prefix = joined(self.base.as_str(), "_");
        push_decimal(&mut prefix, self.index as u64);
        prefix
    }

    /// Takes in whether the files of the prefix could be written. Only a file that exists moves
    /// the search on, and only where the prefix was not given.
    pub fn advance(&mut self, checked: Result<(), String>) -> (step: SearchStep)
        requires
            old(self).well_formed(),
        ensures
            final(self).base == old(self).base,
            final(self).given == old(self).given,
            final(self).well_formed(),
            match checked {
                Ok(()) => {
                    &&& step matches SearchStep::Chosen(prefix) && prefix@ == candidate(
                        old(self).base@,
                        old(self).index as nat,
                    )
                    &&& final(self).index == old(self).index
                },
                Err(error) => if old(self).given || !begins_with(error@, "目标文件已存在"@) {
                    &&& step == SearchStep::Failed(error)
                    &&& final(self).index == old(self).index
                } else if old(self).index + 1 < MAX_PREFIX_CANDIDATES {
                    &&& step is Next
                    &&& final(self).index == old(self).index + 1
                } else {
                    &&& step matches SearchStep::Failed(message) && message@
                        == "无法生成不冲突的录音 prefix"@
                    &&& final(self).index == old(self).index
                },
            },
            searched(*old(self), checked, step, *final(self)),
    {
        match checked {
            Ok(()) => SearchStep::Chosen(self.current()),
            Err(error) => {
                if self.given || strip_head(error.as_str(), "目标文件已存在").is_none() {
                    SearchStep::Failed(error)
                } else if self.index + 1 < MAX_PREFIX_CANDIDATES {
                    self.index = self.index + 1;
                    SearchStep::Next
                } else {
                    SearchStep::Failed("无法生成不冲突的录音 prefix".to_owned())
                }
            },
        }
    }
}

/// No two candidates of a search are the same.
pub proof fn law_candidates_differ(base: Seq<char>, i: nat, j: nat)
    requires
        candidate(base, i) == candidate(base, j),
    ensures
        i == j,
{
    reveal_strlit("_");
    let a = candidate(base, i);
    let b = candidate(base, j);
    assert(a.skip(base.len() as int) == b.skip(base.len() as int));
    if i > 0 && j > 0 {
        assert(a.skip((base.len() + 1) as int) =~= decimal(i));
        assert(b.skip((base.len() + 1) as int) =~= decimal(j));
        crate::text::lemma_decimal_is_injective(i, j);
    }
}

/// One step of the search: a free prefix is chosen, a taken one leads to the next where others may
/// be tried, and anything else ends the search.
pub open spec fn searched(
    search: PrefixSearch,
    checked: Result<(), String>,
    step: SearchStep,
    after: PrefixSearch,
) -> bool {
    &&& after.base@ == search.base@ && after.given == search.given
    &&& checked is Ok <==> step is Chosen
    &&& step matches SearchStep::Chosen(prefix) ==> prefix@ == candidate(
        search.base@,
        search.index as nat,
    )
    &&& step is Next <==> checked is Err && begins_with(checked->Err_0@, "目标文件已存在"@)
        && !search.given && search.index < 9999
    &&& after.index == (if step is Next {
        search.index + 1
    } else {
        search.index as int
    })
}

/// The search takes the first candidate that is free: with `n` candidates taken before it, that is
/// candidate number `n`; and a prefix that was given is the only one that is tried.
pub proof fn law_first_free_candidate_is_taken(
    searches: Seq<PrefixSearch>,
    checks: Seq<Result<(), String>>,
    steps: Seq<SearchStep>,
    n: int,
)
    requires
        checks.len() == steps.len(),
        searches.len() == steps.len() + 1,
        searches[0].index == 0,
        forall|k: int|
            0 <= k < steps.len() ==> searched(
                searches[k],
                checks[k],
                #[trigger] steps[k],
                searches[k + 1],
            ),
        0 <= n < steps.len(),
        forall|k: int| 0 <= k < n ==> #[trigger] steps[k] is Next,
    ensures
        searches[n].index == n,
        searches[n].base@ == searches[0].base@,
        searches[n].given == searches[0].given,
        n > 0 ==> !searches[0].given,
        checks[n] is Ok ==> (steps[n] matches SearchStep::Chosen(prefix) && prefix@ == candidate(
            searches[0].base@,
            n as nat,
        )),
        searches[0].given && checks[n] is Err ==> steps[n] is Failed,
    decreases n,
{
    assert(searched(searches[n], checks[n], steps[n], searches[n + 1]));
    if n > 0 {
        law_first_free_candidate_is_taken(searches, checks, steps, n - 1);
        assert(steps[n - 1] is Next);
        assert(searched(searches[n - 1], checks[n - 1], steps[n - 1], searches[n - 1 + 1]));
    }
}

/// Why a recording is not started.
#[derive(Debug)]
pub enum StartError {
    /// A session is under way.
    Conflict(String),
    Config(AppConfigError),
}

/// Where a profile comes from.
#[derive(Debug)]
pub enum ProfileSource {
    Preset(AppConfig),
    File,
}

/// Why a configuration is not taken over.
#[derive(Debug)]
pub enum ImportError {
    Parse(String),
    Invalid(AppConfigError),
}

/// What stopping does.
#[derive(Debug)]
pub struct StopAction {
    /// The session is told to stop.
    pub set_stop: bool,
    pub announcement: Option<ServiceSnapshot>,
}

/// What the end of a session does.
#[derive(Debug)]
pub struct FinishAction {
    /// The session is waited for.
    pub join: bool,
    pub announcements: Vec<Announcement>,
}

/// The state of the controller.
#[derive(Debug)]
pub struct Controller {
    pub snapshot: ServiceSnapshot,
    pub draft: AppConfig,
    /// There is a session to be told and waited for.
    pub active: bool,
}

/// The numbers of sessions. One of these serves all controllers of a process.
#[derive(Debug)]
pub struct SessionNumbers {
    pub next: u64,
}

impl SessionNumbers {
    pub fn new() -> (numbers: Self)
        ensures
            numbers.next == 1,
    {
        SessionNumbers { next: 1 }
    }

    /// The number of the session that starts after `count` others.
    pub open spec fn after(self, count: nat) -> u64 {
        ((self.next + count) % (u64::MAX + 1)) as u64
    }

    /// Takes the number of the next session.
    pub fn next_session_number(&mut self) -> (number: u64)
        ensures
            number == old(self).next,
            number == old(self).after(0),
            forall|count: nat| #[trigger]
                final(self).after(count) == old(self).after((count + 1) as nat),
            final(self).next == old(self).next.wrapping_add(1),
    {
        let number: u64 = self.next;
        self.next = number.wrapping_add(1);
        number
    }
}

/// No two sessions share a number, until all numbers have been used.
pub proof fn law_session_numbers_differ(numbers: SessionNumbers, i: nat, j: nat)
    requires
        i < j < i + u64::MAX + 1,
    ensures
        numbers.after(i) != numbers.after(j),
{
}

/// A phase that stands in a snapshot, with its session and what is shown of it.
pub open spec fn coherent(snapshot: ServiceSnapshot, active: bool) -> bool {
    match snapshot.phase.session() {
        Some(id) => {
            &&& active
            &&& snapshot.recording matches Some(r) && r.session_id@ == id
        },
        None => !active && snapshot.recording is None,
    }
}

/// The state after stopping.
pub open spec fn stopped(snapshot: ServiceSnapshot) -> ServiceSnapshot {
    match snapshot.phase {
        ServicePhase::Idle => snapshot,
        ServicePhase::Stopping { .. } => snapshot,
        ServicePhase::Starting { session_id } => announced(
            ServiceSnapshot { phase: ServicePhase::Stopping { session_id }, ..snapshot },
        ),
        ServicePhase::Recording { session_id } => announced(
            ServiceSnapshot { phase: ServicePhase::Stopping { session_id }, ..snapshot },
        ),
    }
}

/// Stopping once more changes nothing, and it never changes which session is under way.
pub proof fn law_stop_is_idempotent(snapshot: ServiceSnapshot)
    ensures
        stopped(stopped(snapshot)) == stopped(snapshot),
        stopped(snapshot).phase.session() == snapshot.phase.session(),
        stopped(snapshot).recording == snapshot.recording,
{
}

/// Every announcement has a higher revision than the one before, until revisions run out.
pub proof fn law_revisions_grow(snapshot: ServiceSnapshot)
    requires
        snapshot.revision < u64::MAX,
    ensures
        announced(snapshot).revision == snapshot.revision + 1,
{
}

/// Announcing changes the revision and nothing else; the last revision stays.
pub proof fn law_announcing_changes_only_the_revision(snapshot: ServiceSnapshot)
    ensures
        announced(snapshot).phase == snapshot.phase,
        announced(snapshot).device == snapshot.device,
        announced(snapshot).recording == snapshot.recording,
        announced(snapshot).pipeline == snapshot.pipeline,
        announced(snapshot).last_error == snapshot.last_error,
        announced(snapshot).config_warning == snapshot.config_warning,
        announced(snapshot).revision >= snapshot.revision,
{
}

/// Stopping takes a session that starts or records to stopping, under a new revision, and changes
/// nothing else.
pub proof fn law_stopping_takes_the_session_down(snapshot: ServiceSnapshot)
    ensures
        snapshot.phase matches ServicePhase::Starting { session_id } ==> stopped(snapshot).phase
            == (ServicePhase::Stopping { session_id }),
        snapshot.phase matches ServicePhase::Recording { session_id } ==> stopped(snapshot).phase
            == (ServicePhase::Stopping { session_id }),
        snapshot.phase is Idle || snapshot.phase is Stopping ==> stopped(snapshot) == snapshot,
        (snapshot.phase is Starting || snapshot.phase is Recording) && snapshot.revision < u64::MAX
            ==> stopped(snapshot).revision == snapshot.revision + 1,
        stopped(snapshot).device == snapshot.device,
        stopped(snapshot).pipeline == snapshot.pipeline,
        stopped(snapshot).last_error == snapshot.last_error,
        stopped(snapshot).config_warning == snapshot.config_warning,
{
}

/// Every candidate begins with the base; the first is the base itself, and each other one has an
/// underscore and its number behind it.
pub proof fn law_candidates_are_numbered(base: Seq<char>, index: nat)
    ensures
        begins_with(candidate(base, index), base),
        index == 0 ==> candidate(base, index) == base,
        index > 0 ==> {
            let tail = candidate(base, index).skip(base.len() as int);
            &&& tail.len() > 1
            &&& tail[0] == '_'
            &&& crate::text::number_read(tail.skip(1)) == index
        },
{
    reveal_strlit("_");
    crate::text::law_decimal_reads_back(index);
    assert(candidate(base, index).take(base.len() as int) =~= base);
    if index > 0 {
        let tail = candidate(base, index).skip(base.len() as int);
        assert(tail.skip(1) =~= decimal(index));
    }
}

/// Which session is under way, and how far: not at all, starting, recording, stopping.
pub open spec fn stage_of(phase: ServicePhase) -> int {
    match phase {
        ServicePhase::Idle => 0,
        ServicePhase::Starting { .. } => 1,
        ServicePhase::Recording { .. } => 2,
        ServicePhase::Stopping { .. } => 3,
    }
}

/// From one state of the service to the next: a session that goes on is the same session and does
/// not go back a stage, one that begins begins by starting, and revisions do not go back.
pub open spec fn leads_to(before: ServiceSnapshot, after: ServiceSnapshot) -> bool {
    &&& before.revision <= after.revision
    &&& !(after.phase is Idle) && !(before.phase is Idle) ==> {
        &&& after.phase.session() == before.phase.session()
        &&& stage_of(before.phase) <= stage_of(after.phase)
    }
    &&& before.phase is Idle ==> after.phase is Idle || after.phase is Starting
}

/// Whatever commands and events come, as long as a session is under way it stays the same session,
/// which starts, records and stops in this order, and every revision is at least the one before.
pub proof fn law_sessions_run_their_course(states: Seq<ServiceSnapshot>, i: int, j: int)
    requires
        0 <= i <= j < states.len(),
        forall|k: int|
            0 <= k < states.len() - 1 ==> leads_to(#[trigger] states[k], states[k + 1]),
        forall|k: int| i <= k <= j ==> !((#[trigger] states[k]).phase is Idle),
    ensures
        states[j].phase.session() == states[i].phase.session(),
        stage_of(states[i].phase) <= stage_of(states[j].phase),
        states[i].revision <= states[j].revision,
    decreases j - i,
{
    if i < j {
        law_sessions_run_their_course(states, i, j - 1);
        assert(leads_to(states[j - 1], states[j - 1 + 1]));
        assert(!(states[j - 1].phase is Idle));
        assert(!(states[j].phase is Idle));
    }
}

/// A phase, by the text of its session.
pub enum PhaseView {
    Idle,
    Starting(Seq<char>),
    Recording(Seq<char>),
    Stopping(Seq<char>),
}

pub open spec fn phase_view(phase: ServicePhase) -> PhaseView {
    match phase {
        ServicePhase::Idle => PhaseView::Idle,
        ServicePhase::Starting { session_id } => PhaseView::Starting(session_id@),
        ServicePhase::Recording { session_id } => PhaseView::Recording(session_id@),
        ServicePhase::Stopping { session_id } => PhaseView::Stopping(session_id@),
    }
}

/// What happens to the controller: commands, and reports of sessions.
pub enum Happening {
    Started(Seq<char>),
    Stop,
    Ready { session: Seq<char>, recording: bool },
    StoppingReported(Seq<char>),
    Finished(Seq<char>),
    Shutdown,
}

/// The phase behind what happens.
pub open spec fn phase_after(phase: PhaseView, what: Happening) -> PhaseView {
    match what {
        Happening::Started(id) => PhaseView::Starting(id),
        Happening::Stop => match phase {
            PhaseView::Starting(id) => PhaseView::Stopping(id),
            PhaseView::Recording(id) => PhaseView::Stopping(id),
            _ => phase,
        },
        Happening::Ready { session, recording } => if phase == PhaseView::Starting(session)
            && recording {
            PhaseView::Recording(session)
        } else {
            phase
        },
        Happening::StoppingReported(id) => if phase == PhaseView::Starting(id) || phase
            == PhaseView::Recording(id) || phase == PhaseView::Stopping(id) {
            PhaseView::Stopping(id)
        } else {
            phase
        },
        Happening::Finished(id) => if phase == PhaseView::Starting(id) || phase
            == PhaseView::Recording(id) || phase == PhaseView::Stopping(id) {
            PhaseView::Idle
        } else {
            phase
        },
        Happening::Shutdown => PhaseView::Idle,
    }
}

/// The phase behind one thing upon the other.
pub open spec fn phase_after_all(phase: PhaseView, all: Seq<Happening>) -> PhaseView
    decreases all.len(),
{
    if all.len() == 0 {
        phase
    } else {
        phase_after(phase_after_all(phase, all.drop_last()), all.last())
    }
}

/// A session that was started and reports that it records is recording; that it could not start
/// changes the phase only when it ends. Told to stop it is stopping, and once it ends the service is
/// idle: then another may start.
pub proof fn law_course_of_a_session(id: Seq<char>, phase: PhaseView)
    ensures
        ({
            let starting = phase_after(phase, Happening::Started(id));
            let recording = phase_after(
                starting,
                Happening::Ready { session: id, recording: true },
            );
            let stopping = phase_after(recording, Happening::Stop);
            &&& starting == PhaseView::Starting(id)
            &&& recording == PhaseView::Recording(id)
            &&& stopping == PhaseView::Stopping(id)
            &&& phase_after(starting, Happening::Stop) == PhaseView::Stopping(id)
            &&& phase_after(starting, Happening::Ready { session: id, recording: false })
                == starting
            &&& phase_after(stopping, Happening::Ready { session: id, recording: true })
                == stopping
            &&& phase_after(recording, Happening::StoppingReported(id)) == PhaseView::Stopping(id)
            &&& phase_after(starting, Happening::Finished(id)) is Idle
            &&& phase_after(recording, Happening::Finished(id)) is Idle
            &&& phase_after(stopping, Happening::Finished(id)) is Idle
            &&& phase_after(PhaseView::Idle, Happening::Stop) is Idle
            &&& phase_after(phase, Happening::Shutdown) is Idle
        }),
{
}

/// What another session reports changes nothing.
pub proof fn law_other_sessions_are_not_listened_to(
    phase: PhaseView,
    other: Seq<char>,
    recording: bool,
)
    requires
        phase != PhaseView::Starting(other),
        phase != PhaseView::Recording(other),
        phase != PhaseView::Stopping(other),
    ensures
        phase_after(phase, Happening::Ready { session: other, recording }) == phase,
        phase_after(phase, Happening::StoppingReported(other)) == phase,
        phase_after(phase, Happening::Finished(other)) == phase,
{
}

/// From its start on a session is under way, whatever else happens, until it ends or the service
/// does.
pub proof fn law_a_session_stays_until_it_ends(
    phase: PhaseView,
    id: Seq<char>,
    later: Seq<Happening>,
)
    requires
        forall|k: int|
            0 <= k < later.len() ==> !(#[trigger] later[k] is Started) && !(later[k] is Shutdown)
                && later[k] != Happening::Finished(id),
    ensures
        ({
            let now = phase_after_all(phase_after(phase, Happening::Started(id)), later);
            ||| now == PhaseView::Starting(id)
            ||| now == PhaseView::Recording(id)
            ||| now == PhaseView::Stopping(id)
        }),
    decreases later.len(),
{
    if later.len() > 0 {
        let earlier = later.drop_last();
        assert forall|k: int| 0 <= k < earlier.len() implies !(#[trigger] earlier[k] is Started)
            && !(earlier[k] is Shutdown) && earlier[k] != Happening::Finished(id) by {
            assert(earlier[k] == later[k]);
        }
        law_a_session_stays_until_it_ends(phase, id, earlier);
        assert(later.last() == later[later.len() - 1]);
    }
}

impl Controller {
    /// There is a session exactly while one is shown, and it is that one. The draft is valid.
    pub open spec fn well_formed(&self) -> bool {
        coherent(self.snapshot, self.active) && self.draft.valid()
    }

    pub fn new(draft: AppConfig, config_warning: Option<String>) -> (result: Result<
        Controller,
        AppConfigError,
    >)
        ensures
            result is Ok <==> draft.valid(),
            match result {
                Ok(controller) => {
                    &&& controller.well_formed()
                    &&& controller.draft == draft
                    &&& controller.snapshot == (ServiceSnapshot {
                        config_warning,
                        ..first_snapshot()
                    })
                },
                Err(e) => draft.refused_with(e),
            },
    {
        match draft.validate() {
            Ok(()) => {
                let mut snapshot = ServiceSnapshot::default();
                snapshot.config_warning = config_warning;
                Ok(Controller { snapshot, draft, active: false })
            },
            Err(e) => Err(e),
        }
    }

    /// Announces the state under the next revision.
    pub fn publish_snapshot(&mut self) -> (snapshot: ServiceSnapshot)
        ensures
            snapshot == announced(old(self).snapshot),
            *final(self) == (Controller { snapshot, ..*old(self) }),
    {
        self.snapshot.revision = self.snapshot.revision.saturating_add(1);
        self.snapshot.clone()
    }

    /// Takes in which device was found.
    pub fn refresh_device(&mut self, picked: Result<String, String>) -> (announcements: Vec<
        Announcement,
    >)
        requires
            old(self).well_formed(),
        ensures
            final(self).well_formed(),
            leads_to(old(self).snapshot, final(self).snapshot),
            ({
                let device = match picked {
                    Ok(name) => DeviceSnapshot { available: true, name: Some(name), error: None },
                    Err(error) => DeviceSnapshot {
                        available: false,
                        name: None,
                        error: Some(error),
                    },
                };
                let snapshot = announced(ServiceSnapshot { device, ..old(self).snapshot });
                &&& announcements@ == seq![
                    Announcement::Device(device),
                    Announcement::State(snapshot),
                ]
                &&& *final(self) == (Controller { snapshot, ..*old(self) })
            }),
    {
        self.snapshot.device = match picked {
            Ok(name) => DeviceSnapshot { available: true, name: Some(name), error: None },
            Err(error) => DeviceSnapshot { available: false, name: None, error: Some(error) },
        };
        let mut announcements: Vec<Announcement> = Vec::new();
        announcements.push(Announcement::Device(self.snapshot.device.clone()));
        announcements.push(Announcement::State(self.publish_snapshot()));
        announcements
    }

    /// Takes over a draft where it is valid.
    pub fn update_config(&mut self, config: AppConfig) -> (result: Result<(), AppConfigError>)
        requires
            old(self).well_formed(),
        ensures
            final(self).well_formed(),
            result is Ok <==> config.valid(),
            match result {
                Ok(()) => *final(self) == (Controller { draft: config, ..*old(self) }),
                Err(e) => config.refused_with(e) && *final(self) == *old(self),
            },
    {
        match config.validate() {
            Ok(()) => {
                self.draft = config;
                Ok(())
            },
            Err(e) => Err(e),
        }
    }

    /// Takes over the default draft.
    pub fn reset_config(&mut self)
        requires
            old(self).well_formed(),
        ensures
            final(self).well_formed(),
            is_default(final(self).draft),
            *final(self) == (Controller { draft: final(self).draft, ..*old(self) }),
    {
        self.draft = AppConfig::default();
    }

    /// Takes over a configuration that was read, and returns it.
    pub fn import_config(&mut self, parsed: Result<AppConfig, String>) -> (result: Result<
        AppConfig,
        ImportError,
    >)
        requires
            old(self).well_formed(),
        ensures
            final(self).well_formed(),
            match parsed {
                Err(e) => result == Err::<AppConfig, ImportError>(ImportError::Parse(e)),
                Ok(config) => match result {
                    Ok(taken) => config.valid() && taken == config,
                    Err(ImportError::Invalid(e)) => !config.valid() && config.refused_with(e),
                    Err(ImportError::Parse(_)) => false,
                },
            },
            match result {
                Ok(taken) => final(self).draft.same_as(taken) && *final(self) == (Controller {
                    draft: final(self).draft,
                    ..*old(self)
                }),
                Err(_) => *final(self) == *old(self),
            },
    {
        match parsed {
            Err(e) => Err(ImportError::Parse(e)),
            Ok(config) => match config.validate() {
                Ok(()) => {
                    self.draft = config.clone();
                    Ok(config)
                },
                Err(e) => Err(ImportError::Invalid(e)),
            },
        }
    }

    /// The configuration to be saved as a profile: the given one where it is valid, or the draft.
    pub fn profile_to_save(&self, given: Option<AppConfig>) -> (result: Result<
        AppConfig,
        AppConfigError,
    >)
        requires
            self.well_formed(),
        ensures
            match (given, result) {
                (Some(c), Ok(config)) => c.valid() && config == c,
                (Some(c), Err(e)) => !c.valid() && c.refused_with(e),
                (None, Ok(config)) => config.valid() && config.same_as(self.draft),
                (None, Err(_)) => false,
            },
    {
        match given {
            Some(config) => match config.validate() {
                Ok(()) => Ok(config),
                Err(e) => Err(e),
            },
            None => Ok(self.draft.clone()),
        }
    }

    /// Where the profile of a name comes from.
    pub fn profile_source(name: &str) -> (source: ProfileSource)
        ensures
            match source {
                ProfileSource::Preset(config) => {
                    &&& config.valid()
                    &&& name@ == "pure"@ || name@ == "doa"@ || name@ == "doa_bf"@ || name@
                        == "bf_fixed"@
                    &&& is_preset(
                        config,
                        if name@ == "pure"@ {
                            Preset::Pure
                        } else if name@ == "doa"@ {
                            Preset::Doa
                        } else if name@ == "doa_bf"@ {
                            Preset::DoaBf
                        } else {
                            Preset::BfFixed
                        },
                    )
                },
                ProfileSource::File => name@ != "pure"@ && name@ != "doa"@ && name@ != "doa_bf"@
                    && name@ != "bf_fixed"@,
            },
    {
        match preset_of(name) {
            Some(preset) => ProfileSource::Preset(preset_config(preset)),
            None => ProfileSource::File,
        }
    }

    /// The configuration of a recording that may be started now.
    pub fn begin_start(&self) -> (result: Result<AppConfig, StartError>)
        requires
            self.well_formed(),
        ensures
            result is Ok <==> self.snapshot.phase is Idle,
            match result {
                Ok(config) => config.same_as(self.draft) && config.valid(),
                Err(StartError::Conflict(message)) => message@ == "conflict:当前已有录音 session"@,
                Err(StartError::Config(_)) => false,
            },
    {
        match self.snapshot.phase {
            ServicePhase::Idle => {},
            _ => {
                return Err(StartError::Conflict("conflict:当前已有录音 session".to_owned()));
            },
        }
        let config = self.draft.clone();
        match config.validate() {
            Ok(()) => Ok(config),
            Err(e) => Err(StartError::Config(e)),
        }
    }

    /// A session was started.
    pub fn session_started(
        &mut self,
        session_id: &str,
        prefix: &str,
        config: &AppConfig,
        started_at: String,
    ) -> (snapshot: ServiceSnapshot)
        requires
            old(self).well_formed(),
            old(self).snapshot.phase is Idle,
        ensures
            final(self).well_formed(),
            leads_to(old(self).snapshot, final(self).snapshot),
            phase_view(final(self).snapshot.phase) == phase_after(
                phase_view(old(self).snapshot.phase),
                Happening::Started(session_id@),
            ),
            final(self).active,
            final(self).draft == old(self).draft,
            snapshot == final(self).snapshot,
            snapshot.phase matches ServicePhase::Starting { session_id: id } && id@ == session_id@,
            snapshot.recording matches Some(r) && {
                &&& r.session_id@ == session_id@
                &&& r.prefix@ == prefix@
                &&& r.out_dir@ == config.recording.out_dir@
                &&& r.started_at == started_at
                &&& r.elapsed_secs == (Double { bits: 0 })
                &&& r.captured_frames == 0
                &&& r.captured_seconds == (Double { bits: 0 })
            },
            snapshot == announced(
                ServiceSnapshot {
                    phase: snapshot.phase,
                    recording: snapshot.recording,
                    last_error: None,
                    pipeline: fresh_pipeline(config.pipeline_enabled),
                    ..old(self).snapshot
                },
            ),
    {
        self.active = true;
        self.snapshot.last_error = None;
        self.snapshot.pipeline = PipelineSnapshot::fresh(config.pipeline_enabled);
        self.snapshot.recording = Some(
            RecordingSnapshot::begun(
                session_id.to_owned(),
                prefix.to_owned(),
                config.recording.out_dir.clone(),
                started_at,
            ),
        );
        self.snapshot.phase = ServicePhase::Starting { session_id: session_id.to_owned() };
        self.publish_snapshot()
    }

    /// Stops the session. A session that is already stopping is left alone.
    pub fn stop(&mut self) -> (result: Result<StopAction, String>)
        requires
            old(self).well_formed(),
        ensures
            final(self).well_formed(),
            leads_to(old(self).snapshot, final(self).snapshot),
            phase_view(final(self).snapshot.phase) == phase_after(
                phase_view(old(self).snapshot.phase),
                Happening::Stop,
            ),
            final(self).draft == old(self).draft,
            match old(self).snapshot.phase {
                ServicePhase::Idle => {
                    &&& result matches Err(message) && message@
                        == "conflict:当前没有可停止的录音"@
                    &&& *final(self) == *old(self)
                },
                ServicePhase::Stopping { .. } => {
                    &&& result matches Ok(action) && !action.set_stop && action.announcement is None
                    &&& *final(self) == *old(self)
                },
                _ => {
                    &&& result matches Ok(action) && action.set_stop && action.announcement == Some(
                        stopped(old(self).snapshot),
                    )
                    &&& *final(self) == (Controller {
                        snapshot: stopped(old(self).snapshot),
                        ..*old(self)
                    })
                },
            },
    {
        let id = match &self.snapshot.phase {
            ServicePhase::Idle => {
                return Err("conflict:当前没有可停止的录音".to_owned());
            },
            ServicePhase::Stopping { .. } => {
                return Ok(StopAction { set_stop: false, announcement: None });
            },
            ServicePhase::Starting { session_id } => session_id.clone(),
            ServicePhase::Recording { session_id } => session_id.clone(),
        };
        self.snapshot.phase = ServicePhase::Stopping { session_id: id };
        let snapshot = self.publish_snapshot();
        Ok(StopAction { set_stop: true, announcement: Some(snapshot) })
    }

    fn set_error(&mut self, source: ErrorSource, code: &str, message: &str) -> (error: ServiceError)
        ensures
            service_error(error, source, code@, message@),
            *final(self) == (Controller {
                snapshot: ServiceSnapshot { last_error: Some(error), ..old(self).snapshot },
                ..*old(self)
            }),
    {
        let error = ServiceError::new(source, code, message.to_owned());
        self.snapshot.last_error = Some(error.clone());
        error
    }

    /// A session says that it records, or why it could not start. Only the session that is
    /// starting is listened to.
    pub fn session_ready(&mut self, session_id: &str, result: Result<(), String>) -> (announcements:
        Vec<Announcement>)
        requires
            old(self).well_formed(),
        ensures
            final(self).well_formed(),
            leads_to(old(self).snapshot, final(self).snapshot),
            phase_view(final(self).snapshot.phase) == phase_after(
                phase_view(old(self).snapshot.phase),
                Happening::Ready { session: session_id@, recording: result is Ok },
            ),
            final(self).draft == old(self).draft,
            if old(self).snapshot.phase is Starting && old(self).snapshot.phase.session() == Some(
                session_id@,
            ) {
                match result {
                    Ok(()) => {
                        let snapshot = final(self).snapshot;
                        &&& announcements@ == seq![Announcement::State(snapshot)]
                        &&& snapshot.phase is Recording
                        &&& snapshot.phase.session() == Some(session_id@)
                        &&& snapshot == announced(
                            ServiceSnapshot { phase: snapshot.phase, ..old(self).snapshot },
                        )
                    },
                    Err(e) => {
                        let snapshot = final(self).snapshot;
                        &&& snapshot.last_error matches Some(error) && {
                            &&& service_error(
                                error,
                                ErrorSource::Device,
                                "startup_failed"@,
                                e@,
                            )
                            &&& announcements@ == seq![
                                Announcement::Error(error),
                                Announcement::State(snapshot),
                            ]
                        }
                        &&& snapshot == announced(
                            ServiceSnapshot {
                                last_error: snapshot.last_error,
                                ..old(self).snapshot
                            },
                        )
                    },
                }
            } else {
                announcements@.len() == 0 && *final(self) == *old(self)
            },
    {
        let mut announcements: Vec<Announcement> = Vec::new();
        let starting = match &self.snapshot.phase {
            ServicePhase::Starting { session_id: current } => same_text(
                current.as_str(),
                session_id,
            ),
            _ => false,
        };
        if !starting {
            return announcements;
        }
        match result {
            Ok(()) => {
                self.snapshot.phase = ServicePhase::Recording { session_id: session_id.to_owned() };
            },
            Err(e) => {
                let error = self.set_error(ErrorSource::Device, "startup_failed", e.as_str());
                announcements.push(Announcement::Error(error));
            },
        }
        announcements.push(Announcement::State(self.publish_snapshot()));
        announcements
    }

    /// A session says that it is stopping.
    pub fn session_stopping(&mut self, session_id: &str) -> (announcements: Vec<Announcement>)
        requires
            old(self).well_formed(),
        ensures
            final(self).well_formed(),
            leads_to(old(self).snapshot, final(self).snapshot),
            phase_view(final(self).snapshot.phase) == phase_after(
                phase_view(old(self).snapshot.phase),
                Happening::StoppingReported(session_id@),
            ),
            final(self).draft == old(self).draft,
            if old(self).snapshot.phase.session() == Some(session_id@) {
                let snapshot = final(self).snapshot;
                &&& announcements@ == seq![Announcement::State(snapshot)]
                &&& snapshot.phase is Stopping
                &&& snapshot.phase.session() == Some(session_id@)
                &&& snapshot == announced(
                    ServiceSnapshot { phase: snapshot.phase, ..old(self).snapshot },
                )
            } else {
                announcements@.len() == 0 && *final(self) == *old(self)
            },
    {
        let mut announcements: Vec<Announcement> = Vec::new();
        if session_matches(&self.snapshot.phase, session_id) {
            self.snapshot.phase = ServicePhase::Stopping { session_id: session_id.to_owned() };
            announcements.push(Announcement::State(self.publish_snapshot()));
        }
        announcements
    }

    /// A session has ended. The controller is then idle again.
    pub fn session_finished(
        &mut self,
        session_id: &str,
        result: Result<RecordingSummary, String>,
    ) -> (action: FinishAction)
        requires
            old(self).well_formed(),
        ensures
            final(self).well_formed(),
            leads_to(old(self).snapshot, final(self).snapshot),
            phase_view(final(self).snapshot.phase) == phase_after(
                phase_view(old(self).snapshot.phase),
                Happening::Finished(session_id@),
            ),
            final(self).draft == old(self).draft,
            if old(self).snapshot.phase.session() == Some(session_id@) {
                let snapshot = final(self).snapshot;
                let said = action.announcements@;
                &&& action.join
                &&& !final(self).active
                &&& snapshot.phase is Idle
                &&& snapshot.recording is None
                &&& snapshot == announced(
                    ServiceSnapshot {
                        phase: ServicePhase::Idle,
                        recording: None,
                        last_error: snapshot.last_error,
                        ..old(self).snapshot
                    },
                )
                &&& said.last() == Announcement::State(snapshot)
                &&& said[said.len() - 2] matches Announcement::Finished { session_id: id, summary }
                    && id@ == session_id@ && match result {
                    Ok(s) => summary == Some(s),
                    Err(_) => summary is None,
                }
                &&& match result {
                    Ok(_) => said.len() == 2 && snapshot.last_error
                        == old(self).snapshot.last_error,
                    Err(e) => {
                        &&& said.len() == 3
                        &&& snapshot.last_error matches Some(error) && {
                            &&& service_error(
                                error,
                                error_source_of(e@),
                                "recording_failed"@,
                                e@,
                            )
                            &&& said[0] == Announcement::Error(error)
                        }
                    },
                }
            } else {
                &&& !action.join
                &&& action.announcements@.len() == 0
                &&& *final(self) == *old(self)
            },
    {
        let mut announcements: Vec<Announcement> = Vec::new();
        if !session_matches(&self.snapshot.phase, session_id) {
            return FinishAction { join: false, announcements };
        }
        self.active = false;
        self.snapshot.phase = ServicePhase::Idle;
        self.snapshot.recording = None;
        let summary = match result {
            Ok(summary) => Some(summary),
            Err(e) => {
                let source = recording_error_source(e.as_str());
                let error = self.set_error(source, "recording_failed", e.as_str());
                announcements.push(Announcement::Error(error));
                None
            },
        };
        announcements.push(
            Announcement::Finished { session_id: session_id.to_owned(), summary },
        );
        announcements.push(Announcement::State(self.publish_snapshot()));
        FinishAction { join: true, announcements }
    }

    /// The service ends: a session under way is told to stop and waited for.
    pub fn shutdown(&mut self) -> (action: FinishAction)
        requires
            old(self).well_formed(),
        ensures
            final(self).well_formed(),
            leads_to(old(self).snapshot, final(self).snapshot),
            phase_view(final(self).snapshot.phase) == phase_after(
                phase_view(old(self).snapshot.phase),
                Happening::Shutdown,
            ),
            final(self).draft == old(self).draft,
            action.join == old(self).active,
            !final(self).active,
            final(self).snapshot == announced(
                ServiceSnapshot { phase: ServicePhase::Idle, recording: None, ..old(self).snapshot },
            ),
            action.announcements@ == seq![Announcement::State(final(self).snapshot)],
    {
        let join = self.active;
        self.active = false;
        self.snapshot.phase = ServicePhase::Idle;
        self.snapshot.recording = None;
        let mut announcements: Vec<Announcement> = Vec::new();
        announcements.push(Announcement::State(self.publish_snapshot()));
        FinishAction { join, announcements }
    }
}

/// What is asked of a recording.
pub fn recording_request(config: AppConfig, prefix: &str, session_id: &str) -> (request:
    RecordingRequest)
    ensures
        request.session_id@ == session_id@,
        request.recording.duration_seconds == config.recording.duration_seconds,
        request.recording.out_dir == config.recording.out_dir,
        held(request.recording.prefix) == Some(prefix@),
        request.pipeline == (if config.pipeline_enabled {
            Some(config.pipeline)
        } else {
            None
        }),
{
    RecordingRequest {
        recording: crate::app_config::RecordingConfig {
            duration_seconds: config.recording.duration_seconds,
            out_dir: config.recording.out_dir,
            prefix: Some(prefix.to_owned()),
        },
        pipeline: if config.pipeline_enabled {
            Some(config.pipeline)
        } else {
            None
        },
        session_id: session_id.to_owned(),
    }
}

} // verus!

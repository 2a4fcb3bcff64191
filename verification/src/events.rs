//! The state that the service shows, and how the events of a session change it.

use vstd::prelude::*;
use vstd::string::*;

use crate::beamformer::BeamformerStats;
use crate::single::Double;
use crate::text::same_text;

verus! {

#[derive(Clone, Copy, Debug, PartialEq, Eq, Structural)]
pub enum ErrorSource {
    Config,
    Device,
    Capture,
    RawWav,
    Pipeline,
    Web,
}

impl ErrorSource {
    /// The name under which a source is shown.
    pub open spec fn spec_name(self) -> Seq<char> {
        match self {
            ErrorSource::Config => "config"@,
            ErrorSource::Device => "device"@,
            ErrorSource::Capture => "capture"@,
            ErrorSource::RawWav => "raw_wav"@,
            ErrorSource::Pipeline => "pipeline"@,
            ErrorSource::Web => "web"@,
        }
    }

    pub fn name(self) -> (name: &'static str)
        ensures
            name@ == self.spec_name(),
    {
        match self {
            ErrorSource::Config => "config",
            ErrorSource::Device => "device",
            ErrorSource::Capture => "capture",
            ErrorSource::RawWav => "raw_wav",
            ErrorSource::Pipeline => "pipeline",
            ErrorSource::Web => "web",
        }
    }
}

#[derive(Debug)]
pub struct ServiceError {
    pub source: ErrorSource,
    pub code: String,
    pub message: String,
    pub field: Option<String>,
}

fn copy_text(text: &Option<String>) -> (copy: Option<String>)
    ensures
        copy == *text,
{
    match text {
        Some(t) => Some(t.clone()),
        None => None,
    }
}

impl ServiceError {
    pub fn new(source: ErrorSource, code: &str, message: String) -> (error: Self)
        ensures
            error.source == source,
            error.code@ == code@,
            error.message == message,
            error.field is None,
    {
        ServiceError { source, code: code.to_owned(), message, field: None }
    }
}

impl Clone for ServiceError {
    fn clone(&self) -> (error: Self)
        ensures
            error == *self,
    {
        ServiceError {
            source: self.source,
            code: self.code.clone(),
            message: self.message.clone(),
            field: copy_text(&self.field),
        }
    }
}

#[derive(Debug, Default)]
pub enum ServicePhase {
    #[default]
    Idle,
    Starting { session_id: String },
    Recording { session_id: String },
    Stopping { session_id: String },
}

impl ServicePhase {
    /// The session that is under way.
    pub open spec fn session(&self) -> Option<Seq<char>> {
        match self {
            ServicePhase::Idle => None,
            ServicePhase::Starting { session_id } => Some(session_id@),
            ServicePhase::Recording { session_id } => Some(session_id@),
            ServicePhase::Stopping { session_id } => Some(session_id@),
        }
    }
}

impl Clone for ServicePhase {
    fn clone(&self) -> (phase: Self)
        ensures
            phase == *self,
    {
        match self {
            ServicePhase::Idle => ServicePhase::Idle,
            ServicePhase::Starting { session_id } => ServicePhase::Starting {
                session_id: session_id.clone(),
            },
            ServicePhase::Recording { session_id } => ServicePhase::Recording {
                session_id: session_id.clone(),
            },
            ServicePhase::Stopping { session_id } => ServicePhase::Stopping {
                session_id: session_id.clone(),
            },
        }
    }
}

#[derive(Debug, Default)]
pub struct DeviceSnapshot {
    pub available: bool,
    pub name: Option<String>,
    pub error: Option<String>,
}

impl Clone for DeviceSnapshot {
    fn clone(&self) -> (device: Self)
        ensures
            device == *self,
    {
        DeviceSnapshot {
            available: self.available,
            name: copy_text(&self.name),
            error: copy_text(&self.error),
        }
    }
}

#[derive(Debug, Default)]
pub struct RecordingSnapshot {
    pub session_id: String,
    pub prefix: String,
    pub out_dir: String,
    pub started_at: String,
    pub elapsed_secs: Double,
    pub captured_frames: u64,
    pub captured_seconds: Double,
}

impl RecordingSnapshot {
    /// A recording of which nothing has been captured.
    pub fn begun(session_id: String, prefix: String, out_dir: String, started_at: String) -> (recording:
        Self)
        ensures
            recording == (RecordingSnapshot {
                session_id,
                prefix,
                out_dir,
                started_at,
                elapsed_secs: Double { bits: 0 },
                captured_frames: 0,
                captured_seconds: Double { bits: 0 },
            }),
    {
        RecordingSnapshot {
            session_id,
            prefix,
            out_dir,
            started_at,
            elapsed_secs: Double { bits: 0 },
            captured_frames: 0,
            captured_seconds: Double { bits: 0 },
        }
    }
}

impl Clone for RecordingSnapshot {
    fn clone(&self) -> (recording: Self)
        ensures
            recording == *self,
    {
        RecordingSnapshot {
            session_id: self.session_id.clone(),
            prefix: self.prefix.clone(),
            out_dir: self.out_dir.clone(),
            started_at: self.started_at.clone(),
            elapsed_secs: self.elapsed_secs,
            captured_frames: self.captured_frames,
            captured_seconds: self.captured_seconds,
        }
    }
}

#[derive(Clone, Copy, Debug, Default, PartialEq, Eq, Structural)]
pub struct BeamformerStatsDto {
    pub input_frames: u64,
    pub output_frames: u64,
    pub stft_frames: u64,
    pub clipped_samples: u64,
}

/// What is shown of the counts of the beamformer.
pub open spec fn shown_stats(s: BeamformerStats) -> BeamformerStatsDto {
    BeamformerStatsDto {
        input_frames: s.input_frames,
        output_frames: s.output_frames,
        stft_frames: s.stft_frames,
        clipped_samples: s.clipped_samples,
    }
}

impl BeamformerStatsDto {
    pub fn from_stats(s: &BeamformerStats) -> (dto: Self)
        ensures
            dto == shown_stats(*s),
    {
        BeamformerStatsDto {
            input_frames: s.input_frames,
            output_frames: s.output_frames,
            stft_frames: s.stft_frames,
            clipped_samples: s.clipped_samples,
        }
    }
}

#[derive(Debug, Default)]
pub struct PipelineSnapshot {
    pub enabled: bool,
    pub degraded: bool,
    pub error: Option<String>,
    pub doa_count: Option<u64>,
    pub bf_stats: Option<BeamformerStatsDto>,
}

/// The processing modules before they have processed anything.
pub open spec fn fresh_pipeline(enabled: bool) -> PipelineSnapshot {
    PipelineSnapshot { enabled, degraded: false, error: None, doa_count: None, bf_stats: None }
}

impl PipelineSnapshot {
    pub fn fresh(enabled: bool) -> (pipeline: Self)
        ensures
            pipeline == fresh_pipeline(enabled),
    {
        PipelineSnapshot { enabled, degraded: false, error: None, doa_count: None, bf_stats: None }
    }
}

impl Clone for PipelineSnapshot {
    fn clone(&self) -> (pipeline: Self)
        ensures
            pipeline == *self,
    {
        PipelineSnapshot {
            enabled: self.enabled,
            degraded: self.degraded,
            error: copy_text(&self.error),
            doa_count: self.doa_count,
            bf_stats: self.bf_stats,
        }
    }
}

#[derive(Debug)]
pub struct ServiceSnapshot {
    pub revision: u64,
    pub phase: ServicePhase,
    pub device: DeviceSnapshot,
    pub recording: Option<RecordingSnapshot>,
    pub pipeline: PipelineSnapshot,
    pub last_error: Option<ServiceError>,
    pub config_warning: Option<String>,
}

/// The state before anything has happened.
pub open spec fn first_snapshot() -> ServiceSnapshot {
    ServiceSnapshot {
        revision: 0,
        phase: ServicePhase::Idle,
        device: DeviceSnapshot { available: false, name: None, error: None },
        recording: None,
        pipeline: fresh_pipeline(false),
        last_error: None,
        config_warning: None,
    }
}

impl Default for ServiceSnapshot {
    fn default() -> (snapshot: Self)
        ensures
            snapshot == first_snapshot(),
    {
        ServiceSnapshot {
            revision: 0,
            phase: ServicePhase::Idle,
            device: DeviceSnapshot { available: false, name: None, error: None },
            recording: None,
            pipeline: PipelineSnapshot::fresh(false),
            last_error: None,
            config_warning: None,
        }
    }
}

impl Clone for ServiceSnapshot {
    fn clone(&self) -> (snapshot: Self)
        ensures
            snapshot == *self,
    {
        ServiceSnapshot {
            revision: self.revision,
            phase: self.phase.clone(),
            device: self.device.clone(),
            recording: match &self.recording {
                Some(recording) => Some(recording.clone()),
                None => None,
            },
            pipeline: self.pipeline.clone(),
            last_error: match &self.last_error {
                Some(error) => Some(error.clone()),
                None => None,
            },
            config_warning: copy_text(&self.config_warning),
        }
    }
}

/// The first of two values that is there.
pub open spec fn first_of<T>(a: Option<T>, b: Option<T>) -> Option<T> {
    match a {
        Some(_) => a,
        None => b,
    }
}

/// The recording to show when `snap` is announced while `latest` is shown: the progress of a
/// session that is already shown stays.
pub open spec fn merged_recording(
    snap: Option<RecordingSnapshot>,
    latest: Option<RecordingSnapshot>,
) -> Option<RecordingSnapshot> {
    match (snap, latest) {
        (Some(s), Some(l)) => if s.session_id@ == l.session_id@ {
            Some(l)
        } else {
            Some(s)
        },
        _ => snap,
    }
}

/// The state to show when `snap` is announced while `latest` is shown. The controller knows
/// nothing of what the session itself reported: that stays, until a new session starts.
pub open spec fn merged(snap: ServiceSnapshot, latest: ServiceSnapshot) -> ServiceSnapshot {
    if snap.phase is Starting {
        snap
    } else {
        ServiceSnapshot {
            recording: merged_recording(snap.recording, latest.recording),
            pipeline: PipelineSnapshot {
                enabled: snap.pipeline.enabled,
                degraded: snap.pipeline.degraded || latest.pipeline.degraded,
                error: first_of(snap.pipeline.error, latest.pipeline.error),
                doa_count: first_of(snap.pipeline.doa_count, latest.pipeline.doa_count),
                bf_stats: first_of(snap.pipeline.bf_stats, latest.pipeline.bf_stats),
            },
            ..snap
        }
    }
}

/// The state with an error reported. An error of the processing modules also marks them as
/// degraded.
pub open spec fn with_error(shown: ServiceSnapshot, error: ServiceError) -> ServiceSnapshot {
    ServiceSnapshot {
        pipeline: if error.source == ErrorSource::Pipeline {
            PipelineSnapshot { degraded: true, error: Some(error.message), ..shown.pipeline }
        } else {
            shown.pipeline
        },
        last_error: Some(error),
        ..shown
    }
}

/// The state with the progress of the recording reported.
pub open spec fn with_progress(
    shown: ServiceSnapshot,
    secs: Double,
    frames: u64,
    captured_seconds: Double,
) -> ServiceSnapshot {
    ServiceSnapshot {
        recording: match shown.recording {
            Some(recording) => Some(
                RecordingSnapshot {
                    elapsed_secs: secs,
                    captured_frames: frames,
                    captured_seconds,
                    ..recording
                },
            ),
            None => None,
        },
        ..shown
    }
}

/// The state with the status of the processing modules reported. What the status does not hold of
/// the counts stays.
pub open spec fn with_pipeline_status(
    shown: ServiceSnapshot,
    status: PipelineSnapshot,
) -> ServiceSnapshot {
    ServiceSnapshot {
        pipeline: PipelineSnapshot {
            enabled: status.enabled,
            degraded: status.degraded,
            error: status.error,
            doa_count: first_of(status.doa_count, shown.pipeline.doa_count),
            bf_stats: first_of(status.bf_stats, shown.pipeline.bf_stats),
        },
        ..shown
    }
}

/// The state shown to clients, and the number of the last event. Each event has the number that
/// follows, modulo 2^64.
#[derive(Debug)]
pub struct EventBus {
    pub seq: u64,
    pub latest: ServiceSnapshot,
}

impl EventBus {
    pub fn new() -> (bus: Self)
        ensures
            bus.seq == 0,
            bus.latest == first_snapshot(),
    {
        EventBus { seq: 0, latest: ServiceSnapshot::default() }
    }

    pub fn latest_snapshot(&self) -> (snapshot: ServiceSnapshot)
        ensures
            snapshot == self.latest,
    {
        self.latest.clone()
    }

    /// Takes the number of the next event. The state that is shown stays.
    pub fn publish(&mut self) -> (seq: u64)
        ensures
            seq == old(self).seq.wrapping_add(1),
            final(self).seq == seq,
            final(self).latest == old(self).latest,
    {
        self.seq = self.seq.wrapping_add(1);
        self.seq
    }

    /// The number and the content of an event that repeats the state for one client.
    pub fn snapshot_envelope(&mut self) -> (event: (u64, ServiceSnapshot))
        ensures
            event.0 == old(self).seq.wrapping_add(1),
            event.1 == old(self).latest,
            final(self).seq == event.0,
            final(self).latest == old(self).latest,
    {
        let seq: u64 = self.publish();
        (seq, self.latest_snapshot())
    }

    /// Shows a state that the controller announces.
    pub fn set_snapshot(&mut self, snap: ServiceSnapshot) -> (seq: u64)
        ensures
            final(self).latest == merged(snap, old(self).latest),
            seq == old(self).seq.wrapping_add(1),
            final(self).seq == seq,
    {
        let mut previous = snap;
        std::mem::swap(&mut previous, &mut self.latest);
        let starting = match self.latest.phase {
            ServicePhase::Starting { .. } => true,
            _ => false,
        };
        if !starting {
            let same = match (&self.latest.recording, &previous.recording) {
                (Some(s), Some(l)) => same_text(s.session_id.as_str(), l.session_id.as_str()),
                _ => false,
            };
            if same {
                self.latest.recording = previous.recording;
            }
            if self.latest.pipeline.doa_count.is_none() {
                self.latest.pipeline.doa_count = previous.pipeline.doa_count;
            }
            if self.latest.pipeline.bf_stats.is_none() {
                self.latest.pipeline.bf_stats = previous.pipeline.bf_stats;
            }
            if !self.latest.pipeline.degraded {
                self.latest.pipeline.degraded = previous.pipeline.degraded;
            }
            if self.latest.pipeline.error.is_none() {
                self.latest.pipeline.error = previous.pipeline.error;
            }
        }
        self.publish()
    }

    pub fn publish_doa(&mut self, count: u64) -> (seq: u64)
        ensures
            final(self).latest == (ServiceSnapshot {
                pipeline: PipelineSnapshot {
                    doa_count: Some(count),
                    ..old(self).latest.pipeline
                },
                ..old(self).latest
            }),
            seq == old(self).seq.wrapping_add(1),
            final(self).seq == seq,
    {
        self.latest.pipeline.doa_count = Some(count);
        self.publish()
    }

    pub fn publish_bf_stats(&mut self, stats: &BeamformerStats) -> (seq: u64)
        ensures
            final(self).latest == (ServiceSnapshot {
                pipeline: PipelineSnapshot {
                    bf_stats: Some(shown_stats(*stats)),
                    ..old(self).latest.pipeline
                },
                ..old(self).latest
            }),
            seq == old(self).seq.wrapping_add(1),
            final(self).seq == seq,
    {
        self.latest.pipeline.bf_stats = Some(BeamformerStatsDto::from_stats(stats));
        self.publish()
    }

    pub fn publish_error(&mut self, error: &ServiceError) -> (seq: u64)
        ensures
            final(self).latest == with_error(old(self).latest, *error),
            seq == old(self).seq.wrapping_add(1),
            final(self).seq == seq,
    {
        if error.source == ErrorSource::Pipeline {
            self.latest.pipeline.degraded = true;
            self.latest.pipeline.error = Some(error.message.clone());
        }
        self.latest.last_error = Some(error.clone());
        self.publish()
    }

    pub fn publish_device_status(&mut self, device: &DeviceSnapshot) -> (seq: u64)
        ensures
            final(self).latest == (ServiceSnapshot { device: *device, ..old(self).latest }),
            seq == old(self).seq.wrapping_add(1),
            final(self).seq == seq,
    {
        self.latest.device = device.clone();
        self.publish()
    }

    /// `captured_seconds` is the length of `frames` at the sample rate.
    pub fn publish_recording_progress(
        &mut self,
        secs: Double,
        frames: u64,
        captured_seconds: Double,
    ) -> (seq: u64)
        ensures
            final(self).latest == with_progress(
                old(self).latest,
                secs,
                frames,
                captured_seconds,
            ),
            seq == old(self).seq.wrapping_add(1),
            final(self).seq == seq,
    {
        let mut recording: Option<RecordingSnapshot> = None;
        std::mem::swap(&mut recording, &mut self.latest.recording);
        self.latest.recording = match recording {
            Some(recording) => Some(
                RecordingSnapshot {
                    session_id: recording.session_id,
                    prefix: recording.prefix,
                    out_dir: recording.out_dir,
                    started_at: recording.started_at,
                    elapsed_secs: secs,
                    captured_frames: frames,
                    captured_seconds,
                },
            ),
            None => None,
        };
        self.publish()
    }

    pub fn publish_pipeline_status(&mut self, status: &PipelineSnapshot) -> (seq: u64)
        ensures
            final(self).latest == with_pipeline_status(old(self).latest, *status),
            seq == old(self).seq.wrapping_add(1),
            final(self).seq == seq,
    {
        self.latest.pipeline.enabled = status.enabled;
        self.latest.pipeline.degraded = status.degraded;
        self.latest.pipeline.error = copy_text(&status.error);
        if status.doa_count.is_some() {
            self.latest.pipeline.doa_count = status.doa_count;
        }
        if status.bf_stats.is_some() {
            self.latest.pipeline.bf_stats = status.bf_stats;
        }
        self.publish()
    }
}

/// A state announced for the session that is shown does not undo its progress.
pub proof fn law_progress_outlives_announcements(
    snap: ServiceSnapshot,
    latest: ServiceSnapshot,
    secs: Double,
    frames: u64,
    captured_seconds: Double,
)
    requires
        !(snap.phase is Starting),
        snap.recording is Some,
        latest.recording is Some,
        snap.recording->0.session_id@ == latest.recording->0.session_id@,
    ensures
        merged(snap, with_progress(latest, secs, frames, captured_seconds)).recording matches Some(
            r,
        ) && r.captured_frames == frames && r.elapsed_secs == secs && r.captured_seconds
            == captured_seconds,
{
}

/// Once the processing modules are degraded they are shown so, whatever is announced, until a
/// session starts.
pub proof fn law_degraded_until_next_start(
    latest: ServiceSnapshot,
    error: ServiceError,
    snap: ServiceSnapshot,
)
    requires
        error.source == ErrorSource::Pipeline,
        !(snap.phase is Starting),
    ensures
        merged(snap, with_error(latest, error)).pipeline.degraded,
        merged(snap, with_error(latest, error)).pipeline.error is Some,
{
}

/// A session starts with nothing of the one before.
pub proof fn law_start_shows_only_the_new_session(snap: ServiceSnapshot, latest: ServiceSnapshot)
    requires
        snap.phase is Starting,
    ensures
        merged(snap, latest) == snap,
{
}

/// Announcing a state twice shows the same as announcing it once.
pub proof fn law_announcing_twice_changes_nothing(snap: ServiceSnapshot, latest: ServiceSnapshot)
    ensures
        merged(snap, merged(snap, latest)) == merged(snap, latest),
{
}

/// What is announced is shown: phase, revision, device, last error, warning and whether the modules
/// are switched on are always those of the announcement.
pub proof fn law_announcements_are_shown(snap: ServiceSnapshot, latest: ServiceSnapshot)
    ensures
        merged(snap, latest).phase == snap.phase,
        merged(snap, latest).revision == snap.revision,
        merged(snap, latest).device == snap.device,
        merged(snap, latest).last_error == snap.last_error,
        merged(snap, latest).config_warning == snap.config_warning,
        merged(snap, latest).pipeline.enabled == snap.pipeline.enabled,
        snap.pipeline.degraded ==> merged(snap, latest).pipeline.degraded,
        snap.pipeline.error is Some ==> merged(snap, latest).pipeline.error == snap.pipeline.error,
        snap.pipeline.doa_count is Some ==> merged(snap, latest).pipeline.doa_count
            == snap.pipeline.doa_count,
        snap.pipeline.bf_stats is Some ==> merged(snap, latest).pipeline.bf_stats
            == snap.pipeline.bf_stats,
{
}

/// What the modules reported stays shown where the announcement says nothing of it, and shows
/// nothing that neither of the two holds.
pub proof fn law_reports_outlive_announcements(snap: ServiceSnapshot, latest: ServiceSnapshot)
    requires
        !(snap.phase is Starting),
    ensures
        merged(snap, latest).pipeline.degraded <==> snap.pipeline.degraded
            || latest.pipeline.degraded,
        snap.pipeline.error is None ==> merged(snap, latest).pipeline.error
            == latest.pipeline.error,
        snap.pipeline.doa_count is None ==> merged(snap, latest).pipeline.doa_count
            == latest.pipeline.doa_count,
        snap.pipeline.bf_stats is None ==> merged(snap, latest).pipeline.bf_stats
            == latest.pipeline.bf_stats,
{
}

/// The recording of an announcement is shown unless the same session is shown already, whose
/// progress stays; without one in the announcement none is shown.
pub proof fn law_announced_recording_is_shown(snap: ServiceSnapshot, latest: ServiceSnapshot)
    ensures
        snap.recording is None ==> merged(snap, latest).recording is None,
        latest.recording is None ==> merged(snap, latest).recording == snap.recording,
        snap.recording is Some && latest.recording is Some && snap.recording->0.session_id@
            != latest.recording->0.session_id@ ==> merged(snap, latest).recording == snap.recording,
        snap.recording is Some && latest.recording is Some && snap.recording->0.session_id@
            == latest.recording->0.session_id@ && !(snap.phase is Starting) ==> merged(
            snap,
            latest,
        ).recording == latest.recording,
{
}

/// An error that is reported is shown as the last one; one of the modules also shows them as
/// degraded by it, and any other leaves what is shown of them. Nothing else changes.
pub proof fn law_reported_errors_are_shown(shown: ServiceSnapshot, error: ServiceError)
    ensures
        with_error(shown, error).last_error == Some(error),
        error.source is Pipeline ==> {
            &&& with_error(shown, error).pipeline.degraded
            &&& with_error(shown, error).pipeline.error == Some(error.message)
            &&& with_error(shown, error).pipeline.enabled == shown.pipeline.enabled
            &&& with_error(shown, error).pipeline.doa_count == shown.pipeline.doa_count
            &&& with_error(shown, error).pipeline.bf_stats == shown.pipeline.bf_stats
        },
        !(error.source is Pipeline) ==> with_error(shown, error).pipeline == shown.pipeline,
        with_error(shown, error).phase == shown.phase,
        with_error(shown, error).revision == shown.revision,
        with_error(shown, error).device == shown.device,
        with_error(shown, error).recording == shown.recording,
        with_error(shown, error).config_warning == shown.config_warning,
{
}

/// Progress changes the three numbers of the recording that is shown, and nothing else; without a
/// recording it changes nothing.
pub proof fn law_progress_changes_the_recording_only(
    shown: ServiceSnapshot,
    secs: Double,
    frames: u64,
    captured_seconds: Double,
)
    ensures
        ({
            let after = with_progress(shown, secs, frames, captured_seconds);
            &&& shown.recording is None ==> after == shown
            &&& shown.recording matches Some(before) ==> {
                &&& after.recording matches Some(now)
                &&& now.elapsed_secs == secs && now.captured_frames == frames
                &&& now.captured_seconds == captured_seconds
                &&& now.session_id == before.session_id && now.prefix == before.prefix
                &&& now.out_dir == before.out_dir && now.started_at == before.started_at
            }
            &&& after.phase == shown.phase && after.revision == shown.revision
            &&& after.device == shown.device && after.pipeline == shown.pipeline
            &&& after.last_error == shown.last_error
            &&& after.config_warning == shown.config_warning
        }),
{
}

/// A status of the modules replaces what is shown of them, but for counts that it does not hold;
/// nothing else changes.
pub proof fn law_status_replaces_what_is_shown(shown: ServiceSnapshot, status: PipelineSnapshot)
    ensures
        ({
            let after = with_pipeline_status(shown, status);
            &&& after.pipeline.enabled == status.enabled
            &&& after.pipeline.degraded == status.degraded
            &&& after.pipeline.error == status.error
            &&& status.doa_count is Some ==> after.pipeline.doa_count == status.doa_count
            &&& status.doa_count is None ==> after.pipeline.doa_count == shown.pipeline.doa_count
            &&& status.bf_stats is Some ==> after.pipeline.bf_stats == status.bf_stats
            &&& status.bf_stats is None ==> after.pipeline.bf_stats == shown.pipeline.bf_stats
            &&& after.phase == shown.phase && after.revision == shown.revision
            &&& after.device == shown.device && after.recording == shown.recording
            &&& after.last_error == shown.last_error
            &&& after.config_warning == shown.config_warning
        }),
{
}

/// The counts of the beamformer are shown as they are.
pub proof fn law_counts_are_shown_as_they_are(stats: BeamformerStats)
    ensures
        shown_stats(stats).input_frames == stats.input_frames,
        shown_stats(stats).output_frames == stats.output_frames,
        shown_stats(stats).stft_frames == stats.stft_frames,
        shown_stats(stats).clipped_samples == stats.clipped_samples,
{
}

/// A session is under way in every phase but the idle one, and is the one that the phase names.
pub proof fn law_every_phase_names_its_session(phase: ServicePhase)
    ensures
        phase is Idle <==> phase.session() is None,
        phase matches ServicePhase::Starting { session_id } ==> phase.session() == Some(
            session_id@,
        ),
        phase matches ServicePhase::Recording { session_id } ==> phase.session() == Some(
            session_id@,
        ),
        phase matches ServicePhase::Stopping { session_id } ==> phase.session() == Some(
            session_id@,
        ),
{
}

/// Modules that have processed nothing show no count, no error and no degradation.
pub proof fn law_fresh_modules_show_nothing(enabled: bool)
    ensures
        fresh_pipeline(enabled).enabled == enabled,
        !fresh_pipeline(enabled).degraded,
        fresh_pipeline(enabled).error is None,
        fresh_pipeline(enabled).doa_count is None,
        fresh_pipeline(enabled).bf_stats is None,
{
}

/// The name of each source.
pub proof fn law_names_of_the_sources(source: ErrorSource)
    ensures
        source is Config ==> source.spec_name() == "config"@,
        source is Device ==> source.spec_name() == "device"@,
        source is Capture ==> source.spec_name() == "capture"@,
        source is RawWav ==> source.spec_name() == "raw_wav"@,
        source is Pipeline ==> source.spec_name() == "pipeline"@,
        source is Web ==> source.spec_name() == "web"@,
{
}

/// Before anything has happened the service is idle, without a device, a recording, modules, an
/// error or a warning.
pub proof fn law_service_begins_idle(snap: ServiceSnapshot)
    requires
        snap == first_snapshot(),
    ensures
        snap.phase is Idle,
        snap.revision == 0,
        !snap.device.available && snap.device.name is None && snap.device.error is None,
        snap.recording is None,
        !snap.pipeline.enabled && !snap.pipeline.degraded && snap.pipeline.error is None,
        snap.last_error is None,
        snap.config_warning is None,
{
}

} // verus!

//! The confidence gate: when a direction is acquired, followed, coasted on and given up.
//!
//! The confidence gate decides; the motion filter that it steers computes. What the decisions
//! need of the angles, how far an observation lies from the prediction and from the candidates
//! before it, comes in with each observation.

use vstd::prelude::*;

use crate::single::Single;

verus! {

/// How many candidates in a row, each near the one before, acquire a direction.
pub const ACQUIRE_FRAMES: u32 = 3;

/// How many candidates in a row, each near the one before, move the track to a distant direction.
pub const JUMP_FRAMES: u32 = 3;

/// The time between two frames in milliseconds: 256 samples at 16 kHz.
pub const HOP_MS: u64 = 16;

#[derive(Clone, Copy, Debug, PartialEq, Eq, Structural)]
pub enum TrackStatus {
    Searching,
    Tracking,
    Coasting,
}

/// What the confidence gate reads of an observation.
#[derive(Clone, Copy, Debug, PartialEq, Eq, Structural)]
pub struct GateObservation {
    pub confidence: Single,
    /// The observation lies within the innovation gate around the predicted direction.
    pub near_prediction: bool,
    /// The observation lies near the last candidate of the acquisition run.
    pub near_acquire: bool,
    /// The observation lies near the last candidate of the jump run.
    pub near_jump: bool,
}

/// What becomes of a run of candidates.
#[derive(Clone, Copy, Debug, PartialEq, Eq, Structural)]
pub enum RunEffect {
    /// Nothing changes.
    Keep,
    /// The run is emptied.
    Clear,
    /// The observation joins the run.
    Extend,
    /// The run is emptied and the observation begins a new one.
    Restart,
    /// The observation joins the run, the mean of the run is taken, and the run is emptied.
    Complete,
}

/// What the motion filter does after its prediction step.
#[derive(Clone, Copy, Debug, PartialEq, Eq, Structural)]
pub enum FilterEffect {
    /// Nothing: no track, and none begins.
    Idle,
    /// Begins a track at the mean of the completed run.
    Begin,
    /// Corrects the track with the observation.
    Correct,
    /// Slows the predicted movement down.
    Damp,
    /// Gives the track up.
    Drop,
}

/// One decision of the confidence gate.
#[derive(Clone, Copy, Debug, PartialEq, Eq, Structural)]
pub struct GateStep {
    pub filter: FilterEffect,
    pub acquire: RunEffect,
    pub jump: RunEffect,
}

impl GateStep {
    /// The observation changed the track.
    pub open spec fn uses_observation(self) -> bool {
        self.filter is Begin || self.filter is Correct
    }

    pub fn observation_used(self) -> (b: bool)
        ensures
            b == self.uses_observation(),
    {
        match self.filter {
            FilterEffect::Begin => true,
            FilterEffect::Correct => true,
            _ => false,
        }
    }
}

/// The length of a run after a candidate that is near its last one, or is not.
pub open spec fn grown_run(count: int, near: bool) -> int {
    if count == 0 || near {
        count + 1
    } else {
        1
    }
}

/// What joining a run of `count` candidates means for the run, when `need` of them complete it.
pub open spec fn join_effect(count: int, near: bool, need: int) -> RunEffect {
    let restart = !(count == 0 || near);
    if grown_run(count, near) >= need {
        RunEffect::Complete
    } else if restart {
        RunEffect::Restart
    } else {
        RunEffect::Extend
    }
}

/// The length of a run behind an effect.
pub open spec fn run_after(count: int, effect: RunEffect) -> int {
    match effect {
        RunEffect::Keep => count,
        RunEffect::Clear => 0,
        RunEffect::Extend => count + 1,
        RunEffect::Restart => 1,
        RunEffect::Complete => 0,
    }
}

pub struct GateTracker {
    pub status: TrackStatus,
    pub coast_ms: u64,
    pub acquire_count: u32,
    pub jump_count: u32,
    pub acquire_confidence: Single,
    pub update_confidence: Single,
    pub max_coast_ms: u32,
}

impl GateTracker {
    pub open spec fn well_formed(&self) -> bool {
        &&& self.acquire_count < ACQUIRE_FRAMES
        &&& self.jump_count < JUMP_FRAMES
        &&& self.status is Searching ==> self.coast_ms == 0 && self.jump_count == 0
        &&& !(self.status is Searching) ==> self.acquire_count == 0
        &&& self.status is Tracking ==> self.coast_ms == 0
        &&& self.status is Coasting ==> HOP_MS <= self.coast_ms <= self.max_coast_ms
    }

    /// There is a track.
    pub open spec fn has_track(&self) -> bool {
        !(self.status is Searching)
    }

    /// The observation begins or moves a track.
    pub open spec fn acquires(&self, o: GateObservation) -> bool {
        self.acquire_confidence.at_most(o.confidence)
    }

    /// The observation corrects a track.
    pub open spec fn corrects(&self, o: GateObservation) -> bool {
        self.update_confidence.at_most(o.confidence) && o.near_prediction
    }

    /// One more frame without a correction ends the track.
    pub open spec fn coasting_ends(&self) -> bool {
        self.coast_ms + HOP_MS > self.max_coast_ms
    }

    /// The decision on a frame: with an observation, or without one.
    pub open spec fn decide(&self, obs: Option<GateObservation>) -> GateStep {
        match self.status {
            TrackStatus::Searching => match obs {
                None => GateStep {
                    filter: FilterEffect::Idle,
                    acquire: RunEffect::Clear,
                    jump: RunEffect::Keep,
                },
                Some(o) => if self.acquires(o) {
                    let run = join_effect(
                        self.acquire_count as int,
                        o.near_acquire,
                        ACQUIRE_FRAMES as int,
                    );
                    GateStep {
                        filter: if grown_run(self.acquire_count as int, o.near_acquire)
                            >= ACQUIRE_FRAMES {
                            FilterEffect::Begin
                        } else {
                            FilterEffect::Idle
                        },
                        acquire: run,
                        jump: RunEffect::Keep,
                    }
                } else {
                    GateStep {
                        filter: FilterEffect::Idle,
                        acquire: RunEffect::Clear,
                        jump: RunEffect::Keep,
                    }
                },
            },
            _ => match obs {
                Some(o) if self.corrects(o) => GateStep {
                    filter: FilterEffect::Correct,
                    acquire: RunEffect::Keep,
                    jump: RunEffect::Clear,
                },
                Some(o) if self.acquires(o) && grown_run(self.jump_count as int, o.near_jump)
                    >= JUMP_FRAMES => GateStep {
                    filter: FilterEffect::Begin,
                    acquire: RunEffect::Keep,
                    jump: join_effect(self.jump_count as int, o.near_jump, JUMP_FRAMES as int),
                },
                _ => if self.coasting_ends() {
                    GateStep {
                        filter: FilterEffect::Drop,
                        acquire: RunEffect::Clear,
                        jump: RunEffect::Clear,
                    }
                } else {
                    GateStep {
                        filter: FilterEffect::Damp,
                        acquire: RunEffect::Keep,
                        jump: match obs {
                            None => RunEffect::Clear,
                            Some(o) => if self.acquires(o) {
                                join_effect(
                                    self.jump_count as int,
                                    o.near_jump,
                                    JUMP_FRAMES as int,
                                )
                            } else {
                                RunEffect::Clear
                            },
                        },
                    }
                },
            },
        }
    }

    /// The status behind a decision.
    pub open spec fn status_after(&self, step: GateStep) -> TrackStatus {
        match step.filter {
            FilterEffect::Idle => TrackStatus::Searching,
            FilterEffect::Begin => TrackStatus::Tracking,
            FilterEffect::Correct => TrackStatus::Tracking,
            FilterEffect::Damp => TrackStatus::Coasting,
            FilterEffect::Drop => TrackStatus::Searching,
        }
    }

    /// The state behind the decision on a frame.
    pub open spec fn stepped(&self, obs: Option<GateObservation>) -> GateTracker {
        let step = self.decide(obs);
        GateTracker {
            status: self.status_after(step),
            coast_ms: if step.filter is Damp {
                (self.coast_ms + HOP_MS) as u64
            } else {
                0
            },
            acquire_count: run_after(self.acquire_count as int, step.acquire) as u32,
            jump_count: run_after(self.jump_count as int, step.jump) as u32,
            ..*self
        }
    }

    /// The thresholds and the coasting limit never change.
    pub open spec fn same_limits(&self, other: &GateTracker) -> bool {
        &&& self.acquire_confidence == other.acquire_confidence
        &&& self.update_confidence == other.update_confidence
        &&& self.max_coast_ms == other.max_coast_ms
    }

    pub fn new(
        acquire_confidence: Single,
        update_confidence: Single,
        max_coast_ms: u32,
    ) -> (tracker: Self)
        ensures
            tracker.well_formed(),
            tracker.status is Searching,
            tracker.acquire_count == 0,
            tracker.acquire_confidence == acquire_confidence,
            tracker.update_confidence == update_confidence,
            tracker.max_coast_ms == max_coast_ms,
    {
        GateTracker {
            status: TrackStatus::Searching,
            coast_ms: 0,
            acquire_count: 0,
            jump_count: 0,
            acquire_confidence,
            update_confidence,
            max_coast_ms,
        }
    }

    pub fn status(&self) -> (status: TrackStatus)
        ensures
            status == self.status,
    {
        self.status
    }

    /// Whether there is a track to report.
    pub fn tracking(&self) -> (b: bool)
        ensures
            b == self.has_track(),
    {
        match self.status {
            TrackStatus::Searching => false,
            _ => true,
        }
    }

    /// Drives the confidence gate by one frame.
    pub fn update(&mut self, obs: Option<GateObservation>) -> (step: GateStep)
        requires
            old(self).well_formed(),
        ensures
            step == old(self).decide(obs),
            *final(self) == old(self).stepped(obs),
            final(self).well_formed(),
            final(self).same_limits(old(self)),
            final(self).status == old(self).status_after(step),
            final(self).acquire_count == run_after(old(self).acquire_count as int, step.acquire),
            final(self).jump_count == run_after(old(self).jump_count as int, step.jump),
            final(self).coast_ms == (if step.filter is Damp {
                old(self).coast_ms + HOP_MS
            } else {
                0
            }),
            obs matches Some(o) ==> old(self).has_track() && old(self).update_confidence.at_most(
                o.confidence,
            ) && o.near_prediction ==> step.filter is Correct && final(self).status is Tracking
                && final(self).coast_ms == 0,
    {
        match self.status {
            TrackStatus::Searching => {
                let o = match obs {
                    None => {
                        self.acquire_count = 0;
                        return GateStep {
                            filter: FilterEffect::Idle,
                            acquire: RunEffect::Clear,
                            jump: RunEffect::Keep,
                        };
                    },
                    Some(o) => o,
                };
                if !self.acquire_confidence.le(o.confidence) {
                    self.acquire_count = 0;
                    return GateStep {
                        filter: FilterEffect::Idle,
                        acquire: RunEffect::Clear,
                        jump: RunEffect::Keep,
                    };
                }
                let acquire = Self::join(&mut self.acquire_count, o.near_acquire, ACQUIRE_FRAMES);
                match acquire {
                    RunEffect::Complete => {
                        self.status = TrackStatus::Tracking;
                        GateStep { filter: FilterEffect::Begin, acquire, jump: RunEffect::Keep }
                    },
                    _ => GateStep { filter: FilterEffect::Idle, acquire, jump: RunEffect::Keep },
                }
            },
            _ => {
                let mut jump = RunEffect::Clear;
                if let Some(o) = obs {
                    if self.update_confidence.le(o.confidence) && o.near_prediction {
                        self.status = TrackStatus::Tracking;
                        self.coast_ms = 0;
                        self.jump_count = 0;
                        return GateStep {
                            filter: FilterEffect::Correct,
                            acquire: RunEffect::Keep,
                            jump: RunEffect::Clear,
                        };
                    }
                    if self.acquire_confidence.le(o.confidence) {
                        jump = Self::join(&mut self.jump_count, o.near_jump, JUMP_FRAMES);
                        match jump {
                            RunEffect::Complete => {
                                self.status = TrackStatus::Tracking;
                                self.coast_ms = 0;
                                return GateStep {
                                    filter: FilterEffect::Begin,
                                    acquire: RunEffect::Keep,
                                    jump,
                                };
                            },
                            _ => {},
                        }
                    } else {
                        self.jump_count = 0;
                    }
                } else {
                    self.jump_count = 0;
                }
                self.coast(jump)
            },
        }
    }

    fn join(count: &mut u32, near: bool, need: u32) -> (effect: RunEffect)
        requires
            *old(count) < need,
            need > 1,
        ensures
            effect == join_effect(*old(count) as int, near, need as int),
            *final(count) == run_after(*old(count) as int, effect),
            *final(count) < need,
            effect is Complete <==> grown_run(*old(count) as int, near) >= need,
    {
        let restart = !(*count == 0 || near);
        if restart {
            *count = 1;
        } else {
            *count = *count + 1;
        }
        if *count >= need {
            *count = 0;
            RunEffect::Complete
        } else if restart {
            RunEffect::Restart
        } else {
            RunEffect::Extend
        }
    }

    fn coast(&mut self, jump: RunEffect) -> (step: GateStep)
        requires
            old(self).has_track(),
            old(self).jump_count < JUMP_FRAMES,
            old(self).acquire_count == 0,
            old(self).status is Tracking ==> old(self).coast_ms == 0,
            old(self).status is Coasting ==> HOP_MS <= old(self).coast_ms <= old(
                self,
            ).max_coast_ms,
        ensures
            step == (if old(self).coasting_ends() {
                GateStep {
                    filter: FilterEffect::Drop,
                    acquire: RunEffect::Clear,
                    jump: RunEffect::Clear,
                }
            } else {
                GateStep { filter: FilterEffect::Damp, acquire: RunEffect::Keep, jump }
            }),
            final(self).well_formed(),
            final(self).same_limits(old(self)),
            final(self).status == old(self).status_after(step),
            final(self).acquire_count == 0,
            final(self).jump_count == (if step.filter is Damp {
                old(self).jump_count
            } else {
                0
            }),
            final(self).coast_ms == (if step.filter is Damp {
                old(self).coast_ms + HOP_MS
            } else {
                0
            }),
    {
        let coasted: u64 = self.coast_ms + HOP_MS;
        if coasted > self.max_coast_ms as u64 {
            self.status = TrackStatus::Searching;
            self.acquire_count = 0;
            self.jump_count = 0;
            self.coast_ms = 0;
            return GateStep {
                filter: FilterEffect::Drop,
                acquire: RunEffect::Clear,
                jump: RunEffect::Clear,
            };
        }
        self.coast_ms = coasted;
        self.status = TrackStatus::Coasting;
        GateStep { filter: FilterEffect::Damp, acquire: RunEffect::Keep, jump }
    }
}

/// The state behind frame upon frame.
pub open spec fn after_frames(
    tracker: GateTracker,
    frames: Seq<Option<GateObservation>>,
) -> GateTracker
    decreases frames.len(),
{
    if frames.len() == 0 {
        tracker
    } else {
        after_frames(tracker, frames.drop_last()).stepped(frames.last())
    }
}

/// The last `count` frames, one next to the other, are candidates that acquire a direction, each
/// near the one before.
pub open spec fn acquisition_run(
    tracker: GateTracker,
    frames: Seq<Option<GateObservation>>,
    count: int,
) -> bool {
    &&& count <= frames.len()
    &&& forall|i: int|
        frames.len() - count <= i < frames.len() ==> {
            &&& (#[trigger] frames[i]) matches Some(o)
            &&& tracker.acquires(o)
            &&& frames.len() - count < i ==> o.near_acquire
        }
}

/// The last `count` frames, one next to the other, are candidates away from the prediction, each
/// near the one before.
pub open spec fn jump_run(
    tracker: GateTracker,
    frames: Seq<Option<GateObservation>>,
    count: int,
) -> bool {
    &&& count <= frames.len()
    &&& forall|i: int|
        frames.len() - count <= i < frames.len() ==> {
            &&& (#[trigger] frames[i]) matches Some(o)
            &&& tracker.acquires(o)
            &&& !tracker.corrects(o)
            &&& frames.len() - count < i ==> o.near_jump
        }
}

proof fn lemma_runs_are_the_last_frames(
    tracker: GateTracker,
    frames: Seq<Option<GateObservation>>,
)
    requires
        tracker.well_formed(),
        tracker.acquire_count == 0,
        tracker.jump_count == 0,
    ensures
        after_frames(tracker, frames).well_formed(),
        after_frames(tracker, frames).same_limits(&tracker),
        acquisition_run(tracker, frames, after_frames(tracker, frames).acquire_count as int),
        jump_run(tracker, frames, after_frames(tracker, frames).jump_count as int),
    decreases frames.len(),
{
    if frames.len() > 0 {
        let earlier = frames.drop_last();
        lemma_runs_are_the_last_frames(tracker, earlier);
        assert forall|i: int| 0 <= i < earlier.len() implies frames[i] == #[trigger] earlier[i] by {}
        assert forall|i: int| 0 <= i < frames.len() - 1 implies #[trigger] frames[i]
            == earlier[i] by {}
    }
}

/// A direction is acquired only by a frame that closes a run of three frames next to each other,
/// all of them with an observation above the acquisition threshold and each near the one before: a
/// frame without an observation, like one below the threshold, begins the count anew.
pub proof fn law_acquisition_needs_a_run(
    tracker: GateTracker,
    frames: Seq<Option<GateObservation>>,
)
    requires
        tracker.well_formed(),
        tracker.acquire_count == 0,
        tracker.jump_count == 0,
        frames.len() > 0,
        after_frames(tracker, frames.drop_last()).status is Searching,
        after_frames(tracker, frames).status is Tracking,
    ensures
        acquisition_run(tracker, frames, ACQUIRE_FRAMES as int),
{
    let earlier = frames.drop_last();
    lemma_runs_are_the_last_frames(tracker, earlier);
    assert forall|i: int| 0 <= i < frames.len() - 1 implies #[trigger] frames[i] == earlier[i] by {}
}

/// A track moves to a distant direction only by a frame that closes a run of three frames next to
/// each other, all of them with an observation above the acquisition threshold that does not
/// correct the track, and each near the one before.
pub proof fn law_jump_needs_a_run(tracker: GateTracker, frames: Seq<Option<GateObservation>>)
    requires
        tracker.well_formed(),
        tracker.acquire_count == 0,
        tracker.jump_count == 0,
        frames.len() > 0,
        after_frames(tracker, frames.drop_last()).has_track(),
        after_frames(tracker, frames.drop_last()).decide(frames.last()).filter is Begin,
    ensures
        jump_run(tracker, frames, JUMP_FRAMES as int),
{
    let earlier = frames.drop_last();
    lemma_runs_are_the_last_frames(tracker, earlier);
    assert forall|i: int| 0 <= i < frames.len() - 1 implies #[trigger] frames[i] == earlier[i] by {}
}

/// An observation below both thresholds never changes the track.
pub proof fn law_weak_observations_are_not_used(tracker: GateTracker, o: GateObservation)
    requires
        tracker.well_formed(),
        !tracker.update_confidence.at_most(o.confidence),
        !tracker.acquire_confidence.at_most(o.confidence),
    ensures
        !tracker.decide(Some(o)).uses_observation(),
{
}

/// A distant observation never corrects the track: it moves the track only as the last of a run.
pub proof fn law_distant_observations_need_a_run(tracker: GateTracker, o: GateObservation)
    requires
        tracker.well_formed(),
        tracker.has_track(),
        !o.near_prediction,
        tracker.decide(Some(o)).uses_observation(),
    ensures
        tracker.decide(Some(o)).filter is Begin,
        tracker.acquires(o),
        tracker.jump_count == JUMP_FRAMES - 1,
        o.near_jump,
{
}

/// How long a track has been coasted on after `frames` frames without any observation, when it is
/// not given up before.
pub open spec fn coasted(tracker: GateTracker, frames: nat) -> int {
    tracker.coast_ms + frames * HOP_MS
}

/// Without observations a track is kept exactly as long as the coasted time stays within the
/// limit: the first frame beyond it ends the track.
pub proof fn law_coasting_ends_beyond_the_limit(tracker: GateTracker)
    requires
        tracker.well_formed(),
        tracker.has_track(),
    ensures
        tracker.decide(None).filter is Damp <==> coasted(tracker, 1) <= tracker.max_coast_ms,
        tracker.decide(None).filter is Drop <==> coasted(tracker, 1) > tracker.max_coast_ms,
        tracker.decide(None).filter is Damp || tracker.decide(None).filter is Drop,
{
}

/// Whatever the track was doing, followed or coasted on, an observation that is confident enough
/// and near the prediction corrects it: the track is followed from there, nothing of the coasting
/// is left, and a jump run that was under way is over.
pub proof fn law_good_observations_correct_the_track(tracker: GateTracker, o: GateObservation)
    requires
        tracker.well_formed(),
        tracker.status is Tracking || tracker.status is Coasting,
        tracker.update_confidence.at_most(o.confidence),
        o.near_prediction,
    ensures
        tracker.decide(Some(o)).filter is Correct,
        tracker.decide(Some(o)).uses_observation(),
        tracker.decide(Some(o)).jump is Clear,
        tracker.stepped(Some(o)).status is Tracking,
        tracker.stepped(Some(o)).coast_ms == 0,
        tracker.stepped(Some(o)).jump_count == 0,
{
}

/// Three frames next to each other with confident observations, the second and the third near the
/// one before, acquire a direction, and no sooner than the third does the track begin.
pub proof fn law_a_run_acquires(
    tracker: GateTracker,
    a: GateObservation,
    b: GateObservation,
    c: GateObservation,
)
    requires
        tracker.well_formed(),
        tracker.status is Searching,
        tracker.acquire_count == 0 || !a.near_acquire,
        tracker.acquire_confidence.at_most(a.confidence),
        tracker.acquire_confidence.at_most(b.confidence),
        tracker.acquire_confidence.at_most(c.confidence),
        b.near_acquire,
        c.near_acquire,
    ensures
        ({
            let first = tracker.stepped(Some(a));
            let second = first.stepped(Some(b));
            let third = second.stepped(Some(c));
            &&& tracker.decide(Some(a)).filter is Idle
            &&& first.decide(Some(b)).filter is Idle
            &&& first.decide(Some(b)).acquire is Extend
            &&& second.decide(Some(c)).filter is Begin
            &&& second.decide(Some(c)).acquire is Complete
            &&& second.decide(Some(c)).uses_observation()
            &&& first.status is Searching && second.status is Searching
            &&& third.status is Tracking
            &&& third.coast_ms == 0
            &&& third.acquire_count == 0
        }),
{
}

/// While a direction is sought, a frame without an observation or with one that is not confident
/// enough empties the run, and a candidate away from the last one begins a new run.
pub proof fn law_a_run_is_broken(tracker: GateTracker, obs: Option<GateObservation>)
    requires
        tracker.well_formed(),
        tracker.status is Searching,
    ensures
        (obs is None || !tracker.acquire_confidence.at_most(obs->0.confidence)) ==> {
            &&& tracker.decide(obs).filter is Idle
            &&& tracker.decide(obs).acquire is Clear
            &&& tracker.stepped(obs).acquire_count == 0
            &&& tracker.stepped(obs).status is Searching
        },
        (obs matches Some(o) && tracker.acquire_confidence.at_most(o.confidence)
            && !o.near_acquire && tracker.acquire_count > 0) ==> {
            &&& tracker.decide(obs).filter is Idle
            &&& tracker.decide(obs).acquire is Restart
            &&& tracker.stepped(obs).acquire_count == 1
            &&& tracker.stepped(obs).status is Searching
        },
{
}

/// Three frames next to each other with confident observations that do not correct the track, the
/// second and the third near the one before, move the track to them when the coasting lasts that
/// long; until the third the track is coasted on.
pub proof fn law_a_run_moves_the_track(
    tracker: GateTracker,
    a: GateObservation,
    b: GateObservation,
    c: GateObservation,
)
    requires
        tracker.well_formed(),
        tracker.status is Tracking || tracker.status is Coasting,
        tracker.jump_count == 0 || !a.near_jump,
        tracker.acquire_confidence.at_most(a.confidence),
        tracker.acquire_confidence.at_most(b.confidence),
        tracker.acquire_confidence.at_most(c.confidence),
        !(a.near_prediction && tracker.update_confidence.at_most(a.confidence)),
        !(b.near_prediction && tracker.update_confidence.at_most(b.confidence)),
        !(c.near_prediction && tracker.update_confidence.at_most(c.confidence)),
        b.near_jump,
        c.near_jump,
        tracker.coast_ms + 32 <= tracker.max_coast_ms,
    ensures
        ({
            let first = tracker.stepped(Some(a));
            let second = first.stepped(Some(b));
            let third = second.stepped(Some(c));
            &&& tracker.decide(Some(a)).filter is Damp
            &&& first.decide(Some(b)).filter is Damp
            &&& first.decide(Some(b)).jump is Extend
            &&& second.decide(Some(c)).filter is Begin
            &&& second.decide(Some(c)).jump is Complete
            &&& second.decide(Some(c)).uses_observation()
            &&& first.status is Coasting && first.coast_ms == tracker.coast_ms + 16
            &&& second.status is Coasting && second.coast_ms == tracker.coast_ms + 32
            &&& third.status is Tracking
            &&& third.coast_ms == 0
            &&& third.jump_count == 0
        }),
{
}

/// A frame that neither corrects nor moves the track adds sixteen milliseconds of coasting; where
/// that is beyond the limit the track is given up with every run, and not before.
pub proof fn law_other_frames_coast(tracker: GateTracker, obs: Option<GateObservation>)
    requires
        tracker.well_formed(),
        tracker.status is Tracking || tracker.status is Coasting,
        obs matches Some(o) ==> {
            &&& !(tracker.update_confidence.at_most(o.confidence) && o.near_prediction)
            &&& !(tracker.acquire_confidence.at_most(o.confidence) && tracker.jump_count == 2
                && o.near_jump)
        },
    ensures
        !tracker.decide(obs).uses_observation(),
        tracker.coast_ms + 16 <= tracker.max_coast_ms ==> {
            &&& tracker.decide(obs).filter is Damp
            &&& tracker.stepped(obs).status is Coasting
            &&& tracker.stepped(obs).coast_ms == tracker.coast_ms + 16
        },
        tracker.coast_ms + 16 > tracker.max_coast_ms ==> {
            &&& tracker.decide(obs).filter is Drop
            &&& tracker.decide(obs).acquire is Clear
            &&& tracker.decide(obs).jump is Clear
            &&& tracker.stepped(obs).status is Searching
            &&& tracker.stepped(obs).coast_ms == 0
            &&& tracker.stepped(obs).acquire_count == 0
            &&& tracker.stepped(obs).jump_count == 0
        },
{
}

/// While a track is coasted on, a frame without a confident observation empties the jump run, and
/// a candidate away from the last one begins a new run.
pub proof fn law_a_jump_run_is_broken(tracker: GateTracker, obs: Option<GateObservation>)
    requires
        tracker.well_formed(),
        tracker.status is Tracking || tracker.status is Coasting,
        tracker.coast_ms + 16 <= tracker.max_coast_ms,
    ensures
        (obs is None || !tracker.acquire_confidence.at_most(obs->0.confidence))
            ==> tracker.decide(obs).jump is Clear && tracker.stepped(obs).jump_count == 0,
        (obs matches Some(o) && tracker.acquire_confidence.at_most(o.confidence)
            && !(o.near_prediction && tracker.update_confidence.at_most(o.confidence))
            && !o.near_jump && tracker.jump_count > 0) ==> {
            &&& tracker.decide(obs).jump is Restart
            &&& tracker.stepped(obs).jump_count == 1
        },
{
}

/// The thresholds and the coasting limit stay as they were set.
pub proof fn law_limits_never_change(tracker: GateTracker, obs: Option<GateObservation>)
    ensures
        tracker.stepped(obs).acquire_confidence == tracker.acquire_confidence,
        tracker.stepped(obs).update_confidence == tracker.update_confidence,
        tracker.stepped(obs).max_coast_ms == tracker.max_coast_ms,
{
}

/// There is a track while one is followed or coasted on, and an observation was used exactly when it
/// began or corrected one.
pub proof fn law_tracks_and_used_observations(tracker: GateTracker, step: GateStep)
    ensures
        tracker.has_track() <==> tracker.status is Tracking || tracker.status is Coasting,
        step.filter is Begin || step.filter is Correct ==> step.uses_observation(),
        step.filter is Idle || step.filter is Damp || step.filter is Drop
            ==> !step.uses_observation(),
{
}

} // verus!

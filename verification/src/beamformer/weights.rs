//! The weight table: where a weight is stored, which weights a bin takes, and the searches that
//! find them.

use vstd::prelude::*;

use crate::beamformer::BeamformerAlgorithm;
use crate::doa::{ANGLE_COUNT, FFT_BINS, MIC_COUNT};
use crate::single::{lemma_key_order_is_numeric, single, Single};

verus! {

/// How often the loading is raised before the search gives up.
pub const RAISE_LIMIT: u32 = 64;

/// How often the interval of the loading is halved.
pub const BINARY_ITERS: u32 = 32;

/// How often the share of the superdirective weights is halved.
pub const BLEND_LIMIT: u32 = 33;

/// The place of a weight: angle by angle, bin by bin, microphone by microphone.
pub open spec fn lut_place(angle: int, bin: int, mic: int) -> int {
    ((angle * FFT_BINS) + bin) * MIC_COUNT + mic
}

pub fn lut_index(angle: usize, bin: usize, mic: usize) -> (index: usize)
    requires
        angle < ANGLE_COUNT,
        bin < FFT_BINS,
        mic < MIC_COUNT,
    ensures
        index == lut_place(angle as int, bin as int, mic as int),
        index < ANGLE_COUNT * FFT_BINS * MIC_COUNT,
{
    ((angle * FFT_BINS) + bin) * MIC_COUNT + mic
}

/// No two weights share a place, and every place of the table holds one.
pub proof fn law_table_is_a_bijection(place: int)
    requires
        0 <= place < ANGLE_COUNT * FFT_BINS * MIC_COUNT,
    ensures
        forall|a: int, b: int, m: int|
            0 <= a < ANGLE_COUNT && 0 <= b < FFT_BINS && 0 <= m < MIC_COUNT
                && #[trigger] lut_place(a, b, m) == place ==> a == place / 1028 && b == (place
                / 4) % 257 && m == place % 4,
        lut_place(place / 1028, (place / 4) % 257, place % 4) == place,
{
    assert forall|a: int, b: int, m: int|
        0 <= a < ANGLE_COUNT && 0 <= b < FFT_BINS && 0 <= m < MIC_COUNT && #[trigger] lut_place(
            a,
            b,
            m,
        ) == place implies a == place / 1028 && b == (place / 4) % 257 && m == place % 4 by {}
}

/// The table index of a direction given in whole degrees.
pub fn angle_index(rounded_deg: i64) -> (index: usize)
    ensures
        index == rounded_deg as int % ANGLE_COUNT as int,
        index < ANGLE_COUNT,
{
    if rounded_deg >= 0 {
        (rounded_deg % 360) as usize
    } else {
        let back: i64 = if rounded_deg == i64::MIN {
            // -(2^63) and 2^63 - 360 * k leave the same remainder.
            -(rounded_deg + 360) % 360
        } else {
            -rounded_deg % 360
        };
        if back == 0 {
            0
        } else {
            (360 - back) as usize
        }
    }
}

/// Where a frequency stands in the band of the superdirective weights.
#[derive(Clone, Copy, Debug, PartialEq, Eq, Structural)]
pub enum MixZone {
    /// Delay-and-sum only.
    Outside,
    /// The share of the superdirective weights rises.
    Rising,
    /// Superdirective weights only.
    Full,
    /// The share of the superdirective weights falls.
    Falling,
}

pub open spec fn mix_zone_of(
    freq: Single,
    low_start: Single,
    low_full: Single,
    high_full: Single,
    high_end: Single,
) -> MixZone {
    if freq.at_most(low_start) || high_end.at_most(freq) {
        MixZone::Outside
    } else if freq.below(low_full) {
        MixZone::Rising
    } else if freq.at_most(high_full) {
        MixZone::Full
    } else {
        MixZone::Falling
    }
}

pub fn mix_zone(
    freq: Single,
    low_start: Single,
    low_full: Single,
    high_full: Single,
    high_end: Single,
) -> (zone: MixZone)
    ensures
        zone == mix_zone_of(freq, low_start, low_full, high_full, high_end),
{
    if freq.le(low_start) || high_end.le(freq) {
        MixZone::Outside
    } else if freq.lt(low_full) {
        MixZone::Rising
    } else if freq.le(high_full) {
        MixZone::Full
    } else {
        MixZone::Falling
    }
}

/// How the weights of a bin are to be found.
#[derive(Clone, Copy, Debug, PartialEq, Eq, Structural)]
pub enum BinPlan {
    /// The highest bin carries nothing.
    Zero,
    /// The lowest bin averages the microphones.
    Average,
    DelaySum,
    Superdirective,
}

pub open spec fn bin_plan_of(bin: int, algorithm: BeamformerAlgorithm, mix: Single) -> BinPlan {
    if bin == FFT_BINS - 1 {
        BinPlan::Zero
    } else if bin == 0 {
        BinPlan::Average
    } else if algorithm is DelaySum || mix.at_most(single(0)) {
        BinPlan::DelaySum
    } else {
        BinPlan::Superdirective
    }
}

pub fn bin_plan(bin: usize, algorithm: BeamformerAlgorithm, mix: Single) -> (plan: BinPlan)
    ensures
        plan == bin_plan_of(bin as int, algorithm, mix),
{
    if bin == FFT_BINS - 1 {
        BinPlan::Zero
    } else if bin == 0 {
        BinPlan::Average
    } else {
        match algorithm {
            BeamformerAlgorithm::DelaySum => BinPlan::DelaySum,
            BeamformerAlgorithm::RobustSuperdirective => if mix.le(single(0)) {
                BinPlan::DelaySum
            } else {
                BinPlan::Superdirective
            },
        }
    }
}

/// What came of the plan of a bin.
#[derive(Clone, Copy, Debug, PartialEq, Eq, Structural)]
pub struct BinOutcome {
    /// Superdirective weights were found that meet the gain, where they were planned.
    pub superdirective_found: bool,
    /// The chosen weights are finite and leave the steered direction undistorted.
    pub passes: bool,
}

/// Which weights the bin takes in the end, and how often it fell back on delay-and-sum.
#[derive(Clone, Copy, Debug, PartialEq, Eq, Structural)]
pub struct BinDecision {
    pub weights: BinPlan,
    pub fallbacks: u64,
}

pub open spec fn bin_decision_of(plan: BinPlan, outcome: BinOutcome) -> BinDecision {
    match plan {
        BinPlan::Zero => BinDecision { weights: BinPlan::Zero, fallbacks: 0 },
        BinPlan::Average => BinDecision { weights: BinPlan::Average, fallbacks: 0 },
        _ => {
            let missed = plan is Superdirective && !outcome.superdirective_found;
            BinDecision {
                weights: if plan is Superdirective && !missed && outcome.passes {
                    BinPlan::Superdirective
                } else {
                    BinPlan::DelaySum
                },
                fallbacks: ((if missed {
                    1int
                } else {
                    0
                }) + (if outcome.passes {
                    0int
                } else {
                    1
                })) as u64,
            }
        },
    }
}

pub fn decide_bin(plan: BinPlan, outcome: BinOutcome) -> (decision: BinDecision)
    ensures
        decision == bin_decision_of(plan, outcome),
{
    match plan {
        BinPlan::Zero => BinDecision { weights: BinPlan::Zero, fallbacks: 0 },
        BinPlan::Average => BinDecision { weights: BinPlan::Average, fallbacks: 0 },
        BinPlan::DelaySum => BinDecision {
            weights: BinPlan::DelaySum,
            fallbacks: if outcome.passes {
                0
            } else {
                1
            },
        },
        BinPlan::Superdirective => {
            if !outcome.superdirective_found {
                BinDecision {
                    weights: BinPlan::DelaySum,
                    fallbacks: if outcome.passes {
                        1
                    } else {
                        2
                    },
                }
            } else if outcome.passes {
                BinDecision { weights: BinPlan::Superdirective, fallbacks: 0 }
            } else {
                BinDecision { weights: BinPlan::DelaySum, fallbacks: 1 }
            }
        },
    }
}

/// Superdirective weights stand in the table only where they were found and pass the final check.
pub proof fn law_failed_bins_fall_back(plan: BinPlan, outcome: BinOutcome)
    ensures
        bin_decision_of(plan, outcome).weights is Superdirective ==> plan is Superdirective
            && outcome.superdirective_found && outcome.passes,
        plan is DelaySum ==> bin_decision_of(plan, outcome).weights is DelaySum,
        plan is Superdirective && !(outcome.superdirective_found && outcome.passes)
            ==> bin_decision_of(plan, outcome).weights is DelaySum && bin_decision_of(
            plan,
            outcome,
        ).fallbacks > 0,
{
}

/// What came of weights that were computed with one loading.
#[derive(Clone, Copy, Debug, PartialEq, Eq, Structural)]
pub enum Trial {
    /// They could not be computed.
    Failed,
    /// Their white noise gain is too low.
    Short,
    /// They meet the gain.
    Meets,
}

/// What the search does next.
#[derive(Clone, Copy, Debug, PartialEq, Eq, Structural)]
pub enum SearchMove {
    /// No weights are found.
    GiveUp,
    /// The weights just tried are taken.
    TakeThis,
    /// The best weights so far are taken.
    TakeBest,
    /// The loading is raised tenfold; where it was raised before, that is the new lower end.
    Raise,
    /// The middle of the interval is tried next.
    Halve,
}

#[derive(Clone, Copy, Debug, PartialEq, Eq, Structural)]
pub enum SearchPhase {
    Initial,
    Raising,
    Halving,
    Done,
}

/// The search for the smallest loading that meets the gain.
pub struct LoadingSearch {
    pub phase: SearchPhase,
    pub tries: u32,
    /// Some trial has met the gain.
    pub met: bool,
}

impl LoadingSearch {
    pub open spec fn well_formed(&self) -> bool {
        &&& self.phase is Raising ==> self.tries < RAISE_LIMIT && !self.met
        &&& self.phase is Halving ==> self.tries < BINARY_ITERS && self.met
        &&& self.phase is Initial ==> self.tries == 0 && !self.met
    }

    /// How many trials can still follow.
    pub open spec fn trials_left(&self) -> int {
        match self.phase {
            SearchPhase::Initial => 1 + RAISE_LIMIT + BINARY_ITERS,
            SearchPhase::Raising => RAISE_LIMIT - self.tries + BINARY_ITERS,
            SearchPhase::Halving => BINARY_ITERS - self.tries,
            SearchPhase::Done => 0,
        }
    }

    /// The next step: give up on a failure; raise until the gain is met or the limit is reached;
    /// then halve the interval a fixed number of times and take the best.
    pub open spec fn next_move(&self, trial: Trial, at_limit: bool) -> SearchMove {
        if trial is Failed || self.phase is Done {
            SearchMove::GiveUp
        } else {
            match self.phase {
                SearchPhase::Initial => if trial is Meets {
                    SearchMove::TakeThis
                } else {
                    SearchMove::Raise
                },
                SearchPhase::Raising => if trial is Meets {
                    SearchMove::Halve
                } else if at_limit || self.tries + 1 >= RAISE_LIMIT {
                    SearchMove::GiveUp
                } else {
                    SearchMove::Raise
                },
                SearchPhase::Halving => if self.tries + 1 >= BINARY_ITERS {
                    SearchMove::TakeBest
                } else {
                    SearchMove::Halve
                },
                SearchPhase::Done => SearchMove::GiveUp,
            }
        }
    }

    /// The state behind the result of a trial. The trials of a phase are counted; each phase begins
    /// its count anew.
    pub open spec fn after(&self, trial: Trial, at_limit: bool) -> LoadingSearch {
        if self.phase is Done {
            *self
        } else {
            let next = self.next_move(trial, at_limit);
            LoadingSearch {
                phase: match next {
                    SearchMove::Raise => SearchPhase::Raising,
                    SearchMove::Halve => SearchPhase::Halving,
                    _ => SearchPhase::Done,
                },
                tries: match next {
                    SearchMove::Raise => if self.phase is Raising {
                        (self.tries + 1) as u32
                    } else {
                        0
                    },
                    SearchMove::Halve => if self.phase is Halving {
                        (self.tries + 1) as u32
                    } else {
                        0
                    },
                    _ => self.tries,
                },
                met: self.met || trial is Meets,
            }
        }
    }

    pub fn new() -> (search: Self)
        ensures
            search.well_formed(),
            search.phase is Initial,
            !search.met,
    {
        LoadingSearch { phase: SearchPhase::Initial, tries: 0, met: false }
    }

    /// Takes in the result of a trial. `at_limit` says that the loading tried was the greatest.
    pub fn advance(&mut self, trial: Trial, at_limit: bool) -> (next: SearchMove)
        requires
            old(self).well_formed(),
        ensures
            final(self).well_formed(),
            next == old(self).next_move(trial, at_limit),
            *final(self) == old(self).after(trial, at_limit),
            next is TakeThis ==> trial is Meets,
            next is TakeBest ==> final(self).met,
            next is Raise || next is Halve ==> final(self).trials_left() < old(self).trials_left()
                && final(self).trials_left() > 0,
    {
        match self.phase {
            SearchPhase::Done => {
                return SearchMove::GiveUp;
            },
            _ => {},
        }
        match trial {
            Trial::Failed => {
                self.phase = SearchPhase::Done;
                return SearchMove::GiveUp;
            },
            Trial::Meets => {
                self.met = true;
            },
            Trial::Short => {},
        }
        match self.phase {
            SearchPhase::Initial => match trial {
                Trial::Meets => {
                    self.phase = SearchPhase::Done;
                    SearchMove::TakeThis
                },
                _ => {
                    self.phase = SearchPhase::Raising;
                    self.tries = 0;
                    SearchMove::Raise
                },
            },
            SearchPhase::Raising => match trial {
                Trial::Meets => {
                    self.phase = SearchPhase::Halving;
                    self.tries = 0;
                    SearchMove::Halve
                },
                _ => {
                    if at_limit || self.tries + 1 >= RAISE_LIMIT {
                        self.phase = SearchPhase::Done;
                        SearchMove::GiveUp
                    } else {
                        self.tries = self.tries + 1;
                        SearchMove::Raise
                    }
                },
            },
            SearchPhase::Halving => {
                if self.tries + 1 >= BINARY_ITERS {
                    self.phase = SearchPhase::Done;
                    SearchMove::TakeBest
                } else {
                    self.tries = self.tries + 1;
                    SearchMove::Halve
                }
            },
            SearchPhase::Done => SearchMove::GiveUp,
        }
    }
}

/// What the blend of superdirective and delay-and-sum weights does next.
#[derive(Clone, Copy, Debug, PartialEq, Eq, Structural)]
pub enum BlendMove {
    /// The blend just tried is taken.
    Take,
    /// Delay-and-sum weights are taken.
    DelaySum,
    /// The superdirective share is halved.
    HalveShare,
}

pub open spec fn blend_move(tries: int, trial: Trial, no_share: bool) -> BlendMove {
    if trial is Meets {
        BlendMove::Take
    } else if (trial is Short && no_share) || tries + 1 >= BLEND_LIMIT {
        BlendMove::DelaySum
    } else {
        BlendMove::HalveShare
    }
}

/// The next step after the `tries`-th trial of a blend; `no_share` says that its superdirective
/// share was already zero.
pub fn next_blend(tries: u32, trial: Trial, no_share: bool) -> (next: BlendMove)
    requires
        tries < BLEND_LIMIT,
    ensures
        next == blend_move(tries as int, trial, no_share),
        next is Take ==> trial is Meets,
        next is HalveShare ==> tries + 1 < BLEND_LIMIT,
{
    match trial {
        Trial::Meets => BlendMove::Take,
        Trial::Short => if no_share || tries + 1 >= BLEND_LIMIT {
            BlendMove::DelaySum
        } else {
            BlendMove::HalveShare
        },
        Trial::Failed => if tries + 1 >= BLEND_LIMIT {
            BlendMove::DelaySum
        } else {
            BlendMove::HalveShare
        },
    }
}

/// The table under construction: bins come in angle by angle.
pub struct LutBuilder<T> {
    pub weights: Vec<T>,
    pub das_fallback_bins: u64,
    pub min_wng: Option<Single>,
}

/// The finished table.
pub struct WeightLut<T> {
    pub weights: Vec<T>,
    pub das_fallback_bins: u64,
    pub min_generated_wng_db: Single,
}

/// The lower of a level and a new one, where the new one counts.
pub open spec fn lower_of(level: Option<Single>, new: Single) -> Option<Single> {
    if !new.finite() {
        level
    } else {
        match level {
            None => Some(new),
            Some(old_level) => if new.below(old_level) {
                Some(new)
            } else {
                Some(old_level)
            },
        }
    }
}

impl<T: Copy> LutBuilder<T> {
    pub open spec fn well_formed(&self) -> bool {
        &&& self.weights@.len() % MIC_COUNT as nat == 0
        &&& self.weights@.len() <= ANGLE_COUNT * FFT_BINS * MIC_COUNT
        &&& self.das_fallback_bins <= 2 * self.weights@.len()
        &&& self.min_wng matches Some(level) ==> level.finite()
    }

    /// How many bins have come in.
    pub open spec fn bins(&self) -> int {
        self.weights@.len() as int / MIC_COUNT as int
    }

    pub fn new() -> (builder: Self)
        ensures
            builder.well_formed(),
            builder.weights@.len() == 0,
            builder.das_fallback_bins == 0,
            builder.min_wng is None,
    {
        LutBuilder { weights: Vec::new(), das_fallback_bins: 0, min_wng: None }
    }

    /// Takes in the weights of the next bin. Their gain counts towards the lowest one, except
    /// that of the highest bin.
    pub fn add_bin(&mut self, decision: BinDecision, weights: [T; MIC_COUNT], wng_db: Single)
        requires
            old(self).well_formed(),
            old(self).weights@.len() < ANGLE_COUNT * FFT_BINS * MIC_COUNT,
            decision.fallbacks <= 2,
        ensures
            final(self).well_formed(),
            final(self).weights@ == old(self).weights@ + weights@,
            final(self).das_fallback_bins == old(self).das_fallback_bins + decision.fallbacks,
            final(self).min_wng == (if decision.weights is Zero {
                old(self).min_wng
            } else {
                lower_of(old(self).min_wng, wng_db)
            }),
    {
        let ghost before = self.weights@;
        self.weights.push(weights[0]);
        self.weights.push(weights[1]);
        self.weights.push(weights[2]);
        self.weights.push(weights[3]);
        assert(self.weights@ =~= before + weights@);
        self.das_fallback_bins = self.das_fallback_bins + decision.fallbacks;
        match decision.weights {
            BinPlan::Zero => {},
            _ => {
                if wng_db.is_finite() {
                    match self.min_wng {
                        None => {
                            self.min_wng = Some(wng_db);
                        },
                        Some(level) => {
                            if wng_db.lt(level) {
                                self.min_wng = Some(wng_db);
                            }
                        },
                    }
                }
            },
        }
    }

    /// The table, once all bins of all angles have come in.
    pub fn finish(self) -> (lut: Option<WeightLut<T>>)
        ensures
            lut is Some <==> self.weights@.len() == ANGLE_COUNT * FFT_BINS * MIC_COUNT,
            lut matches Some(table) ==> {
                &&& table.well_formed()
                &&& table.weights@ == self.weights@
                &&& table.das_fallback_bins == self.das_fallback_bins
                &&& table.min_generated_wng_db == match self.min_wng {
                    Some(level) => level,
                    None => single(0),
                }
            },
    {
        if self.weights.len() != ANGLE_COUNT * FFT_BINS * MIC_COUNT {
            return None;
        }
        let level = match self.min_wng {
            Some(level) => level,
            None => single(0),
        };
        Some(
            WeightLut {
                weights: self.weights,
                das_fallback_bins: self.das_fallback_bins,
                min_generated_wng_db: level,
            },
        )
    }
}

impl<T: Copy> WeightLut<T> {
    pub open spec fn well_formed(&self) -> bool {
        self.weights@.len() == ANGLE_COUNT * FFT_BINS * MIC_COUNT
    }

    /// The weights for a direction given in whole degrees: bin by bin, microphone by microphone.
    pub fn weights_for(&self, rounded_deg: i64) -> (weights: &[T])
        requires
            self.well_formed(),
        ensures
            weights@.len() == FFT_BINS * MIC_COUNT,
            forall|bin: int, mic: int|
                0 <= bin < FFT_BINS && 0 <= mic < MIC_COUNT ==> weights@[#[trigger] (bin * MIC_COUNT
                    + mic)] == self.weights@[lut_place(
                    rounded_deg as int % ANGLE_COUNT as int,
                    bin,
                    mic,
                )],
    {
        let start: usize = angle_index(rounded_deg) * FFT_BINS * MIC_COUNT;
        &self.weights[start..start + FFT_BINS * MIC_COUNT]
    }

    /// The four weights of one bin.
    pub fn bin_weights(&self, angle: usize, bin: usize) -> (weights: [T; MIC_COUNT])
        requires
            self.well_formed(),
            angle < ANGLE_COUNT,
            bin < FFT_BINS,
        ensures
            forall|mic: int|
                0 <= mic < MIC_COUNT ==> #[trigger] weights@[mic] == self.weights@[lut_place(
                    angle as int,
                    bin as int,
                    mic,
                )],
    {
        [
            self.weights[lut_index(angle, bin, 0)],
            self.weights[lut_index(angle, bin, 1)],
            self.weights[lut_index(angle, bin, 2)],
            self.weights[lut_index(angle, bin, 3)],
        ]
    }
}

/// Between ordered corner frequencies: outside up to the first and from the last on, rising up to
/// the second, full up to the third, and falling behind it.
pub proof fn law_zones_follow_the_corners(
    freq: Single,
    low_start: Single,
    low_full: Single,
    high_full: Single,
    high_end: Single,
)
    requires
        freq.finite(),
        low_start.finite(),
        low_full.finite(),
        high_full.finite(),
        high_end.finite(),
        low_start.units() <= low_full.units() <= high_full.units() <= high_end.units(),
    ensures
        ({
            let zone = mix_zone_of(freq, low_start, low_full, high_full, high_end);
            let f = freq.units();
            &&& f <= low_start.units() ==> zone is Outside
            &&& f >= high_end.units() ==> zone is Outside
            &&& low_start.units() < f < low_full.units() ==> zone is Rising
            &&& low_start.units() < f < high_end.units() && low_full.units() <= f
                <= high_full.units() ==> zone is Full
            &&& high_full.units() < f < high_end.units() ==> zone is Falling
        }),
{
    lemma_key_order_is_numeric(freq, low_start);
    lemma_key_order_is_numeric(freq, low_full);
    lemma_key_order_is_numeric(freq, high_full);
    lemma_key_order_is_numeric(freq, high_end);
    lemma_key_order_is_numeric(low_start, low_full);
    lemma_key_order_is_numeric(low_full, high_full);
    lemma_key_order_is_numeric(high_full, high_end);
}

/// The lowest of the 257 bins averages and the highest carries nothing, with either algorithm; all
/// others take superdirective weights exactly where these are asked for and have a share.
pub proof fn law_plans_of_the_bins(bin: int, algorithm: BeamformerAlgorithm, mix: Single)
    requires
        0 <= bin < 257,
        mix.finite(),
    ensures
        bin_plan_of(bin, algorithm, mix) is Zero <==> bin == 256,
        bin_plan_of(bin, algorithm, mix) is Average <==> bin == 0,
        0 < bin < 256 && algorithm is DelaySum ==> bin_plan_of(bin, algorithm, mix) is DelaySum,
        0 < bin < 256 && algorithm is RobustSuperdirective && mix.units() <= 0 ==> bin_plan_of(
            bin,
            algorithm,
            mix,
        ) is DelaySum,
        0 < bin < 256 && algorithm is RobustSuperdirective && mix.units() > 0 ==> bin_plan_of(
            bin,
            algorithm,
            mix,
        ) is Superdirective,
{
    lemma_key_order_is_numeric(mix, single(0));
}

/// A bin whose plan succeeded keeps it without a fallback; one fallback is counted where the
/// planned superdirective weights were not found, and one where the chosen weights do not pass.
pub proof fn law_good_bins_keep_their_plan(plan: BinPlan, outcome: BinOutcome)
    ensures
        plan is Zero || plan is Average ==> bin_decision_of(plan, outcome).weights == plan
            && bin_decision_of(plan, outcome).fallbacks == 0,
        plan is Superdirective && outcome.superdirective_found && outcome.passes ==> {
            &&& bin_decision_of(plan, outcome).weights is Superdirective
            &&& bin_decision_of(plan, outcome).fallbacks == 0
        },
        plan is DelaySum && outcome.passes ==> bin_decision_of(plan, outcome).fallbacks == 0,
        plan is DelaySum && !outcome.passes ==> bin_decision_of(plan, outcome).fallbacks == 1,
        plan is Superdirective && outcome.superdirective_found && !outcome.passes
            ==> bin_decision_of(plan, outcome).fallbacks == 1,
        plan is Superdirective && !outcome.superdirective_found && outcome.passes
            ==> bin_decision_of(plan, outcome).fallbacks == 1,
        plan is Superdirective && !outcome.superdirective_found && !outcome.passes
            ==> bin_decision_of(plan, outcome).fallbacks == 2,
{
}

/// The search behind trial upon trial, none of which was made with the greatest loading.
pub open spec fn after_trials(search: LoadingSearch, trials: Seq<Trial>) -> LoadingSearch
    decreases trials.len(),
{
    if trials.len() == 0 {
        search
    } else {
        after_trials(search, trials.drop_last()).after(trials.last(), false)
    }
}

/// A trial that meets the gain without any loading ends the search with it, and one that cannot be
/// computed ends the search with nothing, whenever it comes.
pub proof fn law_search_ends_at_once(search: LoadingSearch, at_limit: bool)
    requires
        search.well_formed(),
    ensures
        search.phase is Initial ==> {
            &&& search.next_move(Trial::Meets, at_limit) is TakeThis
            &&& search.after(Trial::Meets, at_limit).phase is Done
        },
        search.next_move(Trial::Failed, at_limit) is GiveUp,
        search.after(Trial::Failed, at_limit).phase is Done,
        search.phase is Done ==> search.next_move(Trial::Meets, at_limit) is GiveUp,
{
}

/// As long as no trial meets the gain, the loading is raised, sixty-four times at most and not
/// beyond the greatest; the first trial that meets it then begins the halving.
pub proof fn law_loading_is_raised_until_the_gain_is_met(search: LoadingSearch, trials: Seq<Trial>)
    requires
        search.well_formed(),
        search.phase is Initial,
        1 <= trials.len() <= 64,
        forall|i: int| 0 <= i < trials.len() ==> #[trigger] trials[i] is Short,
    ensures
        ({
            let before = after_trials(search, trials.drop_last());
            let now = after_trials(search, trials);
            &&& before.next_move(Trial::Short, false) is Raise
            &&& now.phase is Raising
            &&& now.tries == trials.len() - 1
            &&& now.next_move(Trial::Meets, false) is Halve
            &&& now.next_move(Trial::Meets, true) is Halve
            &&& now.next_move(Trial::Short, true) is GiveUp
            &&& now.next_move(Trial::Short, false) is Raise <==> trials.len() < 64
            &&& now.next_move(Trial::Short, false) is GiveUp <==> trials.len() == 64
        }),
    decreases trials.len(),
{
    let earlier = trials.drop_last();
    assert(trials.last() == trials[trials.len() - 1]);
    if earlier.len() > 0 {
        assert forall|i: int| 0 <= i < earlier.len() implies #[trigger] earlier[i] is Short by {
            assert(earlier[i] == trials[i]);
        }
        law_loading_is_raised_until_the_gain_is_met(search, earlier);
    }
}

/// Once the gain was met the interval is halved thirty-two times, whatever the trials say, and the
/// best weights are taken.
pub proof fn law_interval_is_halved_thirty_two_times(search: LoadingSearch, trials: Seq<Trial>)
    requires
        search.well_formed(),
        search.phase is Halving,
        search.tries == 0,
        trials.len() < 32,
        forall|i: int| 0 <= i < trials.len() ==> !(#[trigger] trials[i] is Failed),
    ensures
        ({
            let now = after_trials(search, trials);
            &&& now.phase is Halving
            &&& now.tries == trials.len()
            &&& forall|next: Trial, at_limit: bool| !(next is Failed) ==> {
                &&& #[trigger] now.next_move(next, at_limit) is Halve <==> trials.len() < 31
                &&& now.next_move(next, at_limit) is TakeBest <==> trials.len() == 31
            }
        }),
    decreases trials.len(),
{
    if trials.len() > 0 {
        let earlier = trials.drop_last();
        assert(trials.last() == trials[trials.len() - 1]);
        assert forall|i: int| 0 <= i < earlier.len() implies !(#[trigger] earlier[i] is Failed) by {
            assert(earlier[i] == trials[i]);
        }
        law_interval_is_halved_thirty_two_times(search, earlier);
    }
}

/// A blend that meets the gain is taken; otherwise the share is halved, until it is zero and still
/// not enough or thirty-three blends were tried: then the weights are those of delay-and-sum.
pub proof fn law_blend_halves_the_share(tries: int, trial: Trial, no_share: bool)
    requires
        0 <= tries < 33,
    ensures
        blend_move(tries, trial, no_share) is Take <==> trial is Meets,
        trial is Short && no_share ==> blend_move(tries, trial, no_share) is DelaySum,
        !(trial is Meets) && tries == 32 ==> blend_move(tries, trial, no_share) is DelaySum,
        trial is Short && !no_share && tries < 32 ==> blend_move(tries, trial, no_share)
            is HalveShare,
        trial is Failed && tries < 32 ==> blend_move(tries, trial, no_share) is HalveShare,
{
}

/// The lowest level so far after level upon level.
pub open spec fn lowest_of(levels: Seq<Single>) -> Option<Single>
    decreases levels.len(),
{
    if levels.len() == 0 {
        None
    } else {
        lower_of(lowest_of(levels.drop_last()), levels.last())
    }
}

/// The level that is reported is one of the finite levels that came in, and none of these is lower;
/// there is none only where none was finite.
pub proof fn law_lowest_level_is_reported(levels: Seq<Single>)
    ensures
        lowest_of(levels) matches Some(low) ==> {
            &&& low.finite()
            &&& exists|i: int| 0 <= i < levels.len() && #[trigger] levels[i] == low
            &&& forall|i: int|
                0 <= i < levels.len() && (#[trigger] levels[i]).finite() ==> low.units()
                    <= levels[i].units()
        },
        lowest_of(levels) is None ==> forall|i: int|
            0 <= i < levels.len() ==> !(#[trigger] levels[i]).finite(),
    decreases levels.len(),
{
    if levels.len() > 0 {
        let earlier = levels.drop_last();
        let new = levels.last();
        law_lowest_level_is_reported(earlier);
        assert(levels[levels.len() - 1] == new);
        assert forall|i: int| 0 <= i < earlier.len() implies #[trigger] levels[i] == earlier[i] by {}
        if let Some(low) = lowest_of(earlier) {
            lemma_key_order_is_numeric(new, low);
            let i = choose|i: int| 0 <= i < earlier.len() && #[trigger] earlier[i] == low;
            assert(levels[i] == low);
        }
        if let Some(low) = lowest_of(levels) {
            assert forall|i: int| 0 <= i < levels.len() && (#[trigger] levels[i]).finite() implies
                low.units() <= levels[i].units() by {
                if i < earlier.len() {
                    assert(earlier[i].finite());
                }
            }
        } else {
            assert forall|i: int| 0 <= i < levels.len() implies !(#[trigger] levels[i]).finite() by {
                if i < earlier.len() {
                    assert(!earlier[i].finite());
                }
            }
        }
    }
}

} // verus!

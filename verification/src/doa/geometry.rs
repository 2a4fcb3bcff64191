//! The array: four microphones on a circle, their pairs, and the frequency band of each pair.

use vstd::prelude::*;

use crate::doa::{ANGLE_COUNT, FFT_BINS, FRAME_SIZE, MIC_COUNT, SAMPLE_RATE};

verus! {

/// The plane coordinates of the microphones in millimetres.
pub const RESPEAKER_V2_MICS_MM: [[i32; 2]; MIC_COUNT] = [[-32, 0], [0, -32], [32, 0], [0, 32]];

/// The six pairs of microphones.
pub const MIC_PAIRS: [(usize, usize); 6] = [(0, 1), (0, 2), (0, 3), (1, 2), (1, 3), (2, 3)];

pub const PAIR_COUNT: usize = 6;

/// Below this frequency no pair votes.
pub const BAND_LOW_HZ: usize = 250;

/// From this frequency on, adjacent microphones do not vote.
pub const ADJACENT_HIGH_HZ: usize = 3500;

/// From this frequency on, opposite microphones do not vote.
pub const OPPOSITE_HIGH_HZ: usize = 2500;

/// The square of the distance between the microphones of a pair, in square millimetres.
pub open spec fn pair_length_squared(pair: int) -> int {
    let (i, j) = MIC_PAIRS@[pair];
    let dx = RESPEAKER_V2_MICS_MM@[i as int]@[0] - RESPEAKER_V2_MICS_MM@[j as int]@[0];
    let dy = RESPEAKER_V2_MICS_MM@[i as int]@[1] - RESPEAKER_V2_MICS_MM@[j as int]@[1];
    dx * dx + dy * dy
}

/// Whether the microphones of a pair face each other across the circle.
pub fn pair_is_opposite(pair: usize) -> (b: bool)
    ensures
        b == (pair == 1 || pair == 4),
{
    pair == 1 || pair == 4
}

/// The pairs named opposite are those a diameter of 64 mm apart; all others are adjacent, 32 mm
/// times the square root of two apart.
pub proof fn law_opposite_pairs_are_a_diameter_apart(pair: int)
    requires
        0 <= pair < PAIR_COUNT,
    ensures
        pair == 1 || pair == 4 ==> pair_length_squared(pair) == 64 * 64,
        !(pair == 1 || pair == 4) ==> pair_length_squared(pair) == 2 * 32 * 32,
{
    let m = RESPEAKER_V2_MICS_MM@;
    assert(m[0]@[0] == -32 && m[0]@[1] == 0);
    assert(m[1]@[0] == 0 && m[1]@[1] == -32);
    assert(m[2]@[0] == 32 && m[2]@[1] == 0);
    assert(m[3]@[0] == 0 && m[3]@[1] == 32);
    let (i, j) = MIC_PAIRS@[pair];
    let dx = m[i as int]@[0] - m[j as int]@[0];
    let dy = m[i as int]@[1] - m[j as int]@[1];
    if pair == 1 {
        assert(dx == -64 && dy == 0);
    } else if pair == 4 {
        assert(dx == 0 && dy == -64);
    } else {
        assert((dx == 32 || dx == -32) && (dy == 32 || dy == -32));
        assert(dx * dx == 1024 && dy * dy == 1024) by (nonlinear_arith)
            requires
                (dx == 32 || dx == -32) && (dy == 32 || dy == -32),
        ;
    }
}

/// The pairs are all combinations of two different microphones, each once.
pub proof fn law_pairs_are_all_combinations(i: int, j: int)
    requires
        0 <= i < j < MIC_COUNT,
    ensures
        exists|p: int|
            0 <= p < PAIR_COUNT && #[trigger] MIC_PAIRS@[p] == (i as usize, j as usize),
        forall|p: int, q: int|
            0 <= p < PAIR_COUNT && 0 <= q < PAIR_COUNT && #[trigger] MIC_PAIRS@[p]
                == #[trigger] MIC_PAIRS@[q] ==> p == q,
{
    let p = if i == 0 {
        j - 1
    } else if i == 1 {
        j + 1
    } else {
        5
    };
    assert(MIC_PAIRS@[p] == (i as usize, j as usize));
}

/// The upper edge of the band of a pair.
pub open spec fn band_high_hz(pair: int) -> int {
    if pair == 1 || pair == 4 {
        OPPOSITE_HIGH_HZ as int
    } else {
        ADJACENT_HIGH_HZ as int
    }
}

/// A pair votes at a transform bin whose frequency lies strictly inside the band of the pair. The
/// frequency of a bin is the sample rate times the bin over the frame size.
pub open spec fn band_active(pair: int, bin: int) -> bool {
    &&& BAND_LOW_HZ * FRAME_SIZE < bin * SAMPLE_RATE
    &&& bin * SAMPLE_RATE < band_high_hz(pair) * FRAME_SIZE
}

pub fn is_band_active(pair: usize, bin: usize) -> (b: bool)
    ensures
        b == band_active(pair as int, bin as int),
{
    if bin > FFT_BINS {
        return false;
    }
    let high: usize = if pair_is_opposite(pair) {
        OPPOSITE_HIGH_HZ
    } else {
        ADJACENT_HIGH_HZ
    };
    BAND_LOW_HZ * FRAME_SIZE < bin * SAMPLE_RATE as usize && bin * (SAMPLE_RATE as usize) < high
        * FRAME_SIZE
}

/// From this frequency on, every pair votes with full weight.
pub const BAND_LOW_FULL_HZ: usize = 400;

/// Up to this frequency, adjacent microphones vote with full weight.
pub const ADJACENT_FULL_HZ: usize = 3250;

/// Up to this frequency, opposite microphones vote with full weight.
pub const OPPOSITE_FULL_HZ: usize = 2250;

/// Where a bin stands in the band of a pair.
#[derive(Clone, Copy, Debug, PartialEq, Eq, Structural)]
pub enum BandZone {
    /// Outside the band: weight zero.
    Outside,
    /// On the lower edge: the weight rises from 250 Hz to 400 Hz.
    Rising,
    /// Full weight.
    Full,
    /// On the upper edge: the weight falls over the last 250 Hz of the band.
    Falling,
}

/// The highest frequency at which a pair votes with full weight.
pub open spec fn band_full_hz(pair: int) -> int {
    if pair == 1 || pair == 4 {
        OPPOSITE_FULL_HZ as int
    } else {
        ADJACENT_FULL_HZ as int
    }
}

/// The zone of a bin: its frequency is `bin * SAMPLE_RATE / FRAME_SIZE`.
pub open spec fn zone_of(pair: int, bin: int) -> BandZone {
    let scaled = bin * SAMPLE_RATE;
    if !band_active(pair, bin) {
        BandZone::Outside
    } else if scaled < BAND_LOW_FULL_HZ * FRAME_SIZE {
        BandZone::Rising
    } else if scaled <= band_full_hz(pair) * FRAME_SIZE {
        BandZone::Full
    } else {
        BandZone::Falling
    }
}

pub fn band_zone(pair: usize, bin: usize) -> (zone: BandZone)
    ensures
        zone == zone_of(pair as int, bin as int),
{
    if !is_band_active(pair, bin) {
        return BandZone::Outside;
    }
    let scaled: usize = bin * SAMPLE_RATE as usize;
    let full: usize = if pair_is_opposite(pair) {
        OPPOSITE_FULL_HZ
    } else {
        ADJACENT_FULL_HZ
    };
    if scaled < BAND_LOW_FULL_HZ * FRAME_SIZE {
        BandZone::Rising
    } else if scaled <= full * FRAME_SIZE {
        BandZone::Full
    } else {
        BandZone::Falling
    }
}

/// Bin by bin: every pair votes from bin 9 on, with full weight from bin 13 on; adjacent
/// microphones vote fully up to bin 104 and for the last time at bin 111, opposite ones fully up to
/// bin 72 and for the last time at bin 79.
pub proof fn law_bins_of_the_bands(pair: int, bin: int)
    requires
        0 <= pair < 6,
        0 <= bin,
    ensures
        pair == 1 || pair == 4 ==> {
            &&& band_active(pair, bin) <==> 9 <= bin <= 79
            &&& zone_of(pair, bin) is Rising <==> 9 <= bin <= 12
            &&& zone_of(pair, bin) is Full <==> 13 <= bin <= 72
            &&& zone_of(pair, bin) is Falling <==> 73 <= bin <= 79
            &&& zone_of(pair, bin) is Outside <==> bin <= 8 || bin >= 80
        },
        !(pair == 1 || pair == 4) ==> {
            &&& band_active(pair, bin) <==> 9 <= bin <= 111
            &&& zone_of(pair, bin) is Rising <==> 9 <= bin <= 12
            &&& zone_of(pair, bin) is Full <==> 13 <= bin <= 104
            &&& zone_of(pair, bin) is Falling <==> 105 <= bin <= 111
            &&& zone_of(pair, bin) is Outside <==> bin <= 8 || bin >= 112
        },
{
}

/// One vote: a pair of microphones at one transform bin.
#[derive(Clone, Copy, Debug, PartialEq, Eq, Structural)]
pub struct SteeringTerm {
    pub pair: usize,
    pub bin: usize,
}

/// The votes of all bins of one pair, up to `bins`.
pub open spec fn pair_terms(pair: nat, bins: nat) -> Seq<SteeringTerm>
    decreases bins,
{
    if bins == 0 {
        Seq::empty()
    } else {
        let bin = (bins - 1) as nat;
        let before = pair_terms(pair, bin);
        if band_active(pair as int, bin as int) {
            before.push(SteeringTerm { pair: pair as usize, bin: bin as usize })
        } else {
            before
        }
    }
}

/// The votes of the first `pairs` pairs, pair by pair and bin by bin.
pub open spec fn all_terms(pairs: nat) -> Seq<SteeringTerm>
    decreases pairs,
{
    if pairs == 0 {
        Seq::empty()
    } else {
        all_terms((pairs - 1) as nat) + pair_terms((pairs - 1) as nat, FFT_BINS as nat)
    }
}

/// All votes, in the order in which steering vectors are stored.
pub fn steering_terms() -> (terms: Vec<SteeringTerm>)
    ensures
        terms@ == all_terms(PAIR_COUNT as nat),
{
    let mut terms: Vec<SteeringTerm> = Vec::new();
    for pair in 0..PAIR_COUNT
        invariant
            terms@ == all_terms(pair as nat),
    {
        let ghost before = terms@;
        for bin in 0..FFT_BINS
            invariant
                terms@ == before + pair_terms(pair as nat, bin as nat),
        {
            if is_band_active(pair, bin) {
                terms.push(SteeringTerm { pair, bin });
                assert(terms@ =~= before + pair_terms(pair as nat, (bin + 1) as nat));
            }
        }
    }
    terms
}

proof fn lemma_pair_terms(pair: nat, bins: nat, t: SteeringTerm)
    requires
        pair < PAIR_COUNT,
        bins <= FFT_BINS,
    ensures
        pair_terms(pair, bins).contains(t) <==> t.pair == pair && t.bin < bins && band_active(
            t.pair as int,
            t.bin as int,
        ),
    decreases bins,
{
    if bins > 0 {
        let bin = (bins - 1) as nat;
        let before = pair_terms(pair, bin);
        lemma_pair_terms(pair, bin, t);
        if band_active(pair as int, bin as int) {
            let last = SteeringTerm { pair: pair as usize, bin: bin as usize };
            let after = before.push(last);
            if before.contains(t) {
                let k = choose|k: int| 0 <= k < before.len() && before[k] == t;
                assert(after[k] == t);
            }
            if t == last {
                assert(after[before.len() as int] == t);
            }
            if after.contains(t) {
                let k = choose|k: int| 0 <= k < after.len() && after[k] == t;
                if k < before.len() {
                    assert(before[k] == t);
                }
            }
        }
    }
}

/// A vote is in the list exactly when its pair exists and its bin lies in the band of the pair.
pub proof fn law_terms_are_the_active_bins(pairs: nat, t: SteeringTerm)
    requires
        pairs <= PAIR_COUNT,
    ensures
        all_terms(pairs).contains(t) <==> t.pair < pairs && t.bin < FFT_BINS && band_active(
            t.pair as int,
            t.bin as int,
        ),
    decreases pairs,
{
    if pairs > 0 {
        let p = (pairs - 1) as nat;
        law_terms_are_the_active_bins(p, t);
        lemma_pair_terms(p, FFT_BINS as nat, t);
        let a = all_terms(p);
        let b = pair_terms(p, FFT_BINS as nat);
        let s = a + b;
        if a.contains(t) {
            let k = choose|k: int| 0 <= k < a.len() && a[k] == t;
            assert(s[k] == t);
        }
        if b.contains(t) {
            let k = choose|k: int| 0 <= k < b.len() && b[k] == t;
            assert(s[a.len() + k] == t);
        }
        if s.contains(t) {
            let k = choose|k: int| 0 <= k < s.len() && s[k] == t;
            if k < a.len() {
                assert(a[k] == t);
            } else {
                assert(b[k - a.len()] == t);
            }
        }
    }
}

proof fn lemma_pair_terms_are_in_order(pair: nat, bins: nat, i: int, j: int)
    requires
        pair < PAIR_COUNT,
        bins <= FFT_BINS,
        0 <= i < j < pair_terms(pair, bins).len(),
    ensures
        pair_terms(pair, bins)[i].pair == pair,
        pair_terms(pair, bins)[j].pair == pair,
        pair_terms(pair, bins)[i].bin < pair_terms(pair, bins)[j].bin,
    decreases bins,
{
    let bin = (bins - 1) as nat;
    let earlier = pair_terms(pair, bin);
    let x = earlier[i];
    assert(earlier.contains(x));
    lemma_pair_terms(pair, bin, x);
    if j < earlier.len() {
        lemma_pair_terms_are_in_order(pair, bin, i, j);
    }
}

/// The votes stand pair by pair, and those of one pair by ascending bin.
pub proof fn law_terms_are_in_order(pairs: nat, i: int, j: int)
    requires
        pairs <= PAIR_COUNT,
        0 <= i < j < all_terms(pairs).len(),
    ensures
        all_terms(pairs)[i].pair < all_terms(pairs)[j].pair || (all_terms(pairs)[i].pair
            == all_terms(pairs)[j].pair && all_terms(pairs)[i].bin < all_terms(pairs)[j].bin),
    decreases pairs,
{
    let p = (pairs - 1) as nat;
    let a = all_terms(p);
    let b = pair_terms(p, FFT_BINS as nat);
    let x = all_terms(pairs)[i];
    let y = all_terms(pairs)[j];
    if j < a.len() {
        law_terms_are_in_order(p, i, j);
    } else if i < a.len() {
        assert(a.contains(x));
        law_terms_are_the_active_bins(p, x);
        assert(b[j - a.len()] == y);
        assert(b.contains(y));
        lemma_pair_terms(p, FFT_BINS as nat, y);
    } else {
        lemma_pair_terms_are_in_order(p, FFT_BINS as nat, i - a.len(), j - a.len());
    }
}

/// Where the steering value of a term at an angle is stored.
pub open spec fn steer_index(angle: int, term_count: int, term: int) -> int {
    angle * term_count + term
}

/// Different angles and terms are stored at different places: the table has no overlaps.
pub proof fn law_steering_table_has_no_overlaps(
    a: int,
    s: int,
    b: int,
    t: int,
    term_count: int,
)
    requires
        0 <= s < term_count,
        0 <= t < term_count,
        steer_index(a, term_count, s) == steer_index(b, term_count, t),
    ensures
        a == b,
        s == t,
{
    assert(a == b && s == t) by (nonlinear_arith)
        requires
            0 <= s < term_count,
            0 <= t < term_count,
            a * term_count + s == b * term_count + t,
    ;
}

/// The values of an angle stand next to each other in the order of the votes, and the angles one
/// behind the other from the first.
pub proof fn law_steering_values_stand_angle_by_angle(angle: int, term_count: int, term: int)
    ensures
        steer_index(0, term_count, 0) == 0,
        steer_index(angle, term_count, term + 1) == steer_index(angle, term_count, term) + 1,
        steer_index(angle + 1, term_count, term) == steer_index(angle, term_count, term)
            + term_count,
{
    assert((angle + 1) * term_count == angle * term_count + term_count) by (nonlinear_arith);
    assert(0 * term_count == 0);
}

/// The steering values of all angles: for each angle, one value per vote.
pub struct SteeringLut<T> {
    pub terms: Vec<SteeringTerm>,
    pub steer: Vec<T>,
}

impl<T> SteeringLut<T> {
    pub open spec fn well_formed(&self) -> bool {
        &&& self.terms@ == all_terms(PAIR_COUNT as nat)
        &&& self.steer@.len() == ANGLE_COUNT * self.terms@.len()
    }

    /// A table with the given values, angle by angle.
    pub fn from_values(steer: Vec<T>) -> (table: Option<Self>)
        ensures
            table is Some <==> steer@.len() == ANGLE_COUNT * all_terms(PAIR_COUNT as nat).len(),
            table matches Some(t) ==> t.well_formed() && t.steer@ == steer@,
    {
        let terms = steering_terms();
        if steer.len() % ANGLE_COUNT == 0 && steer.len() / ANGLE_COUNT == terms.len() {
            Some(SteeringLut { terms, steer })
        } else {
            None
        }
    }

    pub fn terms(&self) -> (terms: &[SteeringTerm])
        ensures
            terms@ == self.terms@,
    {
        self.terms.as_slice()
    }

    pub fn term_count(&self) -> (n: usize)
        ensures
            n == self.terms@.len(),
    {
        self.terms.len()
    }

    /// The steering values of one angle, one per vote.
    pub fn steer_slice(&self, angle: usize) -> (values: &[T])
        requires
            self.well_formed(),
            angle < ANGLE_COUNT,
        ensures
            values@.len() == self.terms@.len(),
            forall|t: int|
                0 <= t < values@.len() ==> #[trigger] values@[t] == self.steer@[steer_index(
                    angle as int,
                    self.terms@.len() as int,
                    t,
                )],
    {
        let count: usize = self.terms.len();
        let total: usize = self.steer.len();
        assert(angle * count + count <= total) by (nonlinear_arith)
            requires
                angle < ANGLE_COUNT,
                total == ANGLE_COUNT * count,
        ;
        let start: usize = angle * count;
        &self.steer[start..start + count]
    }
}

} // verus!

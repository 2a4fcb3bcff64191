//! Reading the scan: the main peak, the runner-up and the median of the scores by angle.

use vstd::prelude::*;

use crate::doa::ANGLE_COUNT;
use crate::single::{lemma_key_order_is_numeric, Single};

verus! {

/// The runner-up lies more than this many degrees from the main peak.
pub const PEAK_EXCLUSION_DEG: usize = 20;

/// One frame of the scan, before any change of coordinates.
#[derive(Clone, Copy, Debug, PartialEq, Eq, Structural)]
pub struct Observation {
    pub raw_internal_deg: Single,
    pub confidence: Single,
    pub peak_score: Single,
    pub second_peak_score: Single,
    pub peak_gap_ratio: Single,
    pub prominence: Single,
    pub mean_msc: Single,
    pub rms_dbfs: Single,
}

/// The distance of two whole degrees around the circle.
pub open spec fn circle_distance(a: int, b: int) -> int {
    let d = if a >= b {
        a - b
    } else {
        b - a
    };
    if d <= ANGLE_COUNT - d {
        d
    } else {
        ANGLE_COUNT - d
    }
}

fn circle_distance_of(a: usize, b: usize) -> (d: usize)
    requires
        a < ANGLE_COUNT,
        b < ANGLE_COUNT,
    ensures
        d == circle_distance(a as int, b as int),
{
    let d: usize = if a >= b {
        a - b
    } else {
        b - a
    };
    if d <= ANGLE_COUNT - d {
        d
    } else {
        ANGLE_COUNT - d
    }
}

/// The scores of a scan are usable: one per degree, all of them finite.
pub open spec fn scan_valid(scores: Seq<Single>) -> bool {
    scores.len() == ANGLE_COUNT && forall|a: int| 0 <= a < scores.len() ==> (#[trigger] scores[a]).finite()
}

/// `best` is the first of the angles that `eligible` admits with the greatest score among them.
pub open spec fn is_first_greatest(
    scores: Seq<Single>,
    eligible: spec_fn(int) -> bool,
    best: int,
) -> bool {
    &&& 0 <= best < scores.len()
    &&& eligible(best)
    &&& forall|a: int|
        0 <= a < scores.len() && eligible(a) ==> (#[trigger] scores[a]).key() <= scores[best].key()
    &&& forall|a: int|
        0 <= a < best && eligible(a) ==> (#[trigger] scores[a]).key() < scores[best].key()
}

/// Any angle.
pub open spec fn any_angle() -> spec_fn(int) -> bool {
    |a: int| true
}

/// The angles beyond the exclusion around a peak.
pub open spec fn beyond(peak: int) -> spec_fn(int) -> bool {
    |a: int| circle_distance(a, peak) > PEAK_EXCLUSION_DEG
}

/// The two peaks of a scan, with the neighbours of the main one.
#[derive(Clone, Copy, Debug, PartialEq, Eq, Structural)]
pub struct Peaks {
    pub peak_index: usize,
    pub before_peak: usize,
    pub after_peak: usize,
    pub second_index: usize,
}

/// Finds the peaks; there are none where a score is not finite.
pub fn find_peaks(scores: &[Single]) -> (peaks: Option<Peaks>)
    requires
        scores@.len() == ANGLE_COUNT,
    ensures
        peaks is Some <==> scan_valid(scores@),
        peaks matches Some(p) ==> {
            &&& is_first_greatest(scores@, any_angle(), p.peak_index as int)
            &&& is_first_greatest(scores@, beyond(p.peak_index as int), p.second_index as int)
            &&& p.before_peak == (p.peak_index + ANGLE_COUNT - 1) % ANGLE_COUNT as int
            &&& p.after_peak == (p.peak_index + 1) % ANGLE_COUNT as int
        },
{
    for a in 0..ANGLE_COUNT
        invariant
            scores@.len() == ANGLE_COUNT,
            forall|k: int| 0 <= k < a ==> (#[trigger] scores@[k]).finite(),
    {
        if !scores[a].is_finite() {
            assert(!scores@[a as int].finite());
            return None;
        }
    }
    let mut peak: usize = 0;
    for a in 1..ANGLE_COUNT
        invariant
            scores@.len() == ANGLE_COUNT,
            scan_valid(scores@),
            peak < a,
            a <= ANGLE_COUNT,
            forall|k: int| 0 <= k < a ==> (#[trigger] scores@[k]).key() <= scores@[peak as int].key(),
            forall|k: int| 0 <= k < peak ==> (#[trigger] scores@[k]).key() < scores@[peak as int].key(),
    {
        if scores[peak].lt(scores[a]) {
            peak = a;
        }
    }
    let mut second: usize = if peak + 180 < ANGLE_COUNT {
        peak + 180
    } else {
        peak - 180
    };
    let ghost start = second as int;
    let mut found = false;
    for a in 0..ANGLE_COUNT
        invariant
            scores@.len() == ANGLE_COUNT,
            scan_valid(scores@),
            peak < ANGLE_COUNT,
            second < ANGLE_COUNT,
            start < ANGLE_COUNT,
            beyond(peak as int)(start),
            beyond(peak as int)(second as int),
            found ==> second < a,
            !found ==> second == start && a <= start,
            found ==> forall|k: int|
                0 <= k < a && beyond(peak as int)(k) ==> (#[trigger] scores@[k]).key()
                    <= scores@[second as int].key(),
            found ==> forall|k: int|
                0 <= k < second && beyond(peak as int)(k) ==> (#[trigger] scores@[k]).key()
                    < scores@[second as int].key(),
            !found ==> forall|k: int| 0 <= k < a ==> !(#[trigger] beyond(peak as int)(k)),
    {
        if circle_distance_of(a, peak) > PEAK_EXCLUSION_DEG {
            if !found || scores[second].lt(scores[a]) {
                second = a;
                found = true;
            }
        }
    }
    Some(
        Peaks {
            peak_index: peak,
            before_peak: (peak + ANGLE_COUNT - 1) % ANGLE_COUNT,
            after_peak: (peak + 1) % ANGLE_COUNT,
            second_index: second,
        },
    )
}

/// The position of a number in the total order, in which negative zero comes before zero.
pub open spec fn total_key(x: Single) -> int {
    if x.negative() {
        -x.magnitude() - 1
    } else {
        x.magnitude()
    }
}

fn total_key_of(x: Single) -> (k: i64)
    ensures
        k == total_key(x),
{
    let m: i64 = (x.bits % crate::single::SIGN_BIT) as i64;
    if x.bits >= crate::single::SIGN_BIT {
        -m - 1
    } else {
        m
    }
}

/// Ascending in the total order.
pub open spec fn ascending(s: Seq<Single>) -> bool {
    forall|i: int, j: int|
        0 <= i <= j < s.len() ==> total_key(#[trigger] s[i]) <= total_key(#[trigger] s[j])
}

/// The same numbers in ascending order.
pub fn sorted(values: &[Single]) -> (s: Vec<Single>)
    ensures
        ascending(s@),
        s@.to_multiset() == values@.to_multiset(),
        s@.len() == values@.len(),
{
    let mut s: Vec<Single> = Vec::new();
    assert(s@ =~= values@.take(0));
    for i in 0..values.len()
        invariant
            ascending(s@),
            s@.len() == i,
            s@.to_multiset() == values@.take(i as int).to_multiset(),
    {
        let x = values[i];
        let mut at: usize = s.len();
        while at > 0 && total_key_of(s[at - 1]) > total_key_of(x)
            invariant
                at <= s@.len(),
                ascending(s@),
                forall|k: int| at <= k < s@.len() ==> total_key(#[trigger] s@[k]) > total_key(x),
            decreases at,
        {
            at = at - 1;
        }
        let ghost before = s@;
        s.insert(at, x);
        proof {
            broadcast use vstd::seq_lib::group_to_multiset_ensures;

            assert(s@ =~= before.insert(at as int, x));
            vstd::seq_lib::to_multiset_insert(before, at as int, x);
            assert(values@.take(i + 1) =~= values@.take(i as int).push(x));
            vstd::seq_lib::to_multiset_build(values@.take(i as int), x);
            assert forall|a: int, b: int| 0 <= a <= b < s@.len() implies total_key(#[trigger] s@[a])
                <= total_key(#[trigger] s@[b]) by {
                if b < at {
                    assert(s@[a] == before[a] && s@[b] == before[b]);
                } else if b == at {
                    if a < at {
                        assert(s@[a] == before[a]);
                        assert(at > 0);
                        assert(total_key(before[at - 1]) <= total_key(x));
                        assert(total_key(before[a]) <= total_key(before[at - 1]));
                    }
                } else {
                    assert(s@[b] == before[b - 1]);
                    if a < at {
                        assert(s@[a] == before[a]);
                    } else if a > at {
                        assert(s@[a] == before[a - 1]);
                    }
                }
            }
        }
    }
    assert(values@.take(values@.len() as int) =~= values@);
    s
}

/// `m` is the upper median: the middle one of the numbers in ascending order.
pub open spec fn is_median(values: Seq<Single>, m: Single) -> bool {
    exists|s: Seq<Single>|
        #[trigger] ascending(s) && s.to_multiset() == values.to_multiset() && s.len()
            == values.len() && m == s[s.len() as int / 2]
}

/// The upper median of the scores, or of their distances from their median.
pub fn median(values: &[Single]) -> (m: Single)
    requires
        values@.len() > 0,
    ensures
        is_median(values@, m),
{
    let s = sorted(values);
    s[s.len() / 2]
}

/// The main peak has the greatest score of all angles, and of several with that score it is the
/// first.
pub proof fn law_main_peak_has_the_greatest_score(scores: Seq<Single>, peak: int, a: int)
    requires
        scan_valid(scores),
        is_first_greatest(scores, any_angle(), peak),
        0 <= a < 360,
    ensures
        0 <= peak < 360,
        scores[a].units() <= scores[peak].units(),
        a < peak ==> scores[a].units() < scores[peak].units(),
{
    lemma_key_order_is_numeric(scores[a], scores[peak]);
    assert(any_angle()(a));
}

/// The runner-up lies more than twenty degrees from the main peak, whichever way round the circle,
/// and has the greatest score of all angles that do.
pub proof fn law_runner_up_lies_away_from_the_peak(
    scores: Seq<Single>,
    peak: int,
    second: int,
    a: int,
)
    requires
        scan_valid(scores),
        0 <= peak < 360,
        is_first_greatest(scores, beyond(peak), second),
        0 <= a < 360,
        20 < a - peak < 340 || 20 < peak - a < 340,
    ensures
        20 < second - peak < 340 || 20 < peak - second < 340,
        scores[a].units() <= scores[second].units(),
        a < second ==> scores[a].units() < scores[second].units(),
{
    lemma_key_order_is_numeric(scores[a], scores[second]);
    assert(beyond(peak)(a));
    assert(beyond(peak)(second));
}

/// Numbers are sorted by their size.
pub proof fn law_sorting_is_numeric(s: Seq<Single>, i: int, j: int)
    requires
        ascending(s),
        0 <= i <= j < s.len(),
        !s[i].nan(),
        !s[j].nan(),
    ensures
        s[i].units() <= s[j].units(),
{
    lemma_key_order_is_numeric(s[i], s[j]);
}

proof fn lemma_few_match(s: Seq<Single>, f: spec_fn(Single) -> bool, low: int, high: int)
    requires
        low <= high,
        forall|i: int| 0 <= i < s.len() && f(#[trigger] s[i]) ==> low <= i < high,
    ensures
        s.to_multiset().filter(f).len() <= high - low,
    decreases s.len(),
{
    broadcast use vstd::multiset::group_multiset_axioms;
    broadcast use vstd::seq_lib::group_to_multiset_ensures;

    if s.len() == 0 {
        assert(s.to_multiset() =~= vstd::multiset::Multiset::<Single>::empty());
        assert(s.to_multiset().filter(f) =~= vstd::multiset::Multiset::<Single>::empty());
    } else {
        let rest = s.drop_last();
        let x = s.last();
        assert(s =~= rest.push(x));
        vstd::seq_lib::to_multiset_build(rest, x);
        assert forall|i: int| 0 <= i < rest.len() && f(#[trigger] rest[i]) implies low <= i < (if f(
            x,
        ) {
            s.len() - 1
        } else {
            high
        }) by {
            assert(rest[i] == s[i]);
        }
        if f(x) {
            assert(f(s[s.len() - 1]));
            lemma_few_match(rest, f, low, s.len() - 1);
            assert(s.to_multiset().filter(f) =~= rest.to_multiset().filter(f).insert(x));
        } else {
            lemma_few_match(rest, f, low, high);
            assert(s.to_multiset().filter(f) =~= rest.to_multiset().filter(f));
        }
    }
}

/// The median is one of the numbers: no more than half of them come before it, and fewer than half
/// behind it.
pub proof fn law_median_lies_in_the_middle(values: Seq<Single>, m: Single)
    requires
        values.len() > 0,
        is_median(values, m),
    ensures
        values.contains(m),
        2 * values.to_multiset().filter(|x: Single| total_key(x) < total_key(m)).len()
            <= values.len(),
        2 * values.to_multiset().filter(|x: Single| total_key(x) > total_key(m)).len()
            < values.len(),
{
    broadcast use vstd::seq_lib::group_to_multiset_ensures;

    let s = choose|s: Seq<Single>|
        #[trigger] ascending(s) && s.to_multiset() == values.to_multiset() && s.len()
            == values.len() && m == s[s.len() as int / 2];
    let middle = s.len() as int / 2;
    assert(s.contains(m));
    assert(values.to_multiset().count(m) > 0);
    lemma_few_match(s, |x: Single| total_key(x) < total_key(m), 0, middle);
    lemma_few_match(s, |x: Single| total_key(x) > total_key(m), middle + 1, s.len() as int);
}

} // verus!

//! What is shown of the results: how often the console prints one, and the names of the states.

use vstd::prelude::*;
use vstd::string::*;

use crate::doa::tracker::TrackStatus;

verus! {

/// At most one console line per this many samples: 100 ms at 16 kHz.
pub const CONSOLE_INTERVAL_SAMPLES: u64 = 1600;

/// The name of a state.
pub open spec fn status_name(s: TrackStatus) -> Seq<char> {
    match s {
        TrackStatus::Searching => "searching"@,
        TrackStatus::Tracking => "tracking"@,
        TrackStatus::Coasting => "coasting"@,
    }
}

pub fn status_str(s: TrackStatus) -> (name: &'static str)
    ensures
        name@ == status_name(s),
{
    match s {
        TrackStatus::Searching => "searching",
        TrackStatus::Tracking => "tracking",
        TrackStatus::Coasting => "coasting",
    }
}

/// The first line of the table of results.
pub fn csv_header() -> (line: &'static str)
    ensures
        line@
            == "time_ms,raw_deg,tracked_deg,confidence,status,observation_used,peak_score,second_peak_score,peak_gap_ratio,prominence,mean_msc,rms_dbfs"@,
{
    "time_ms,raw_deg,tracked_deg,confidence,status,observation_used,peak_score,second_peak_score,peak_gap_ratio,prominence,mean_msc,rms_dbfs"
}

/// Decides which results the console prints.
pub struct ConsoleLimiter {
    pub last_printed: Option<u64>,
}

impl ConsoleLimiter {
    pub fn new() -> (limiter: Self)
        ensures
            limiter.last_printed is None,
    {
        ConsoleLimiter { last_printed: None }
    }

    /// Whether the result at this position is printed: the first one is, and every one that lies
    /// at least the interval behind the last one printed. Positions do not go back.
    pub fn due(&mut self, position: u64) -> (due: bool)
        requires
            old(self).last_printed matches Some(last) ==> last <= position,
        ensures
            due == match old(self).last_printed {
                None => true,
                Some(last) => position - last >= CONSOLE_INTERVAL_SAMPLES,
            },
            final(self).last_printed == (if due {
                Some(position)
            } else {
                old(self).last_printed
            }),
            paced(old(self).last_printed, position, due, final(self).last_printed),
    {
        let due = match self.last_printed {
            None => true,
            Some(last) => position - last >= CONSOLE_INTERVAL_SAMPLES,
        };
        if due {
            self.last_printed = Some(position);
        }
        due
    }
}

/// A result is printed or not, given the last one printed before.
pub open spec fn paced(last: Option<u64>, position: u64, printed: bool, now: Option<u64>) -> bool {
    &&& last is None ==> printed
    &&& last matches Some(earlier) ==> (printed <==> position >= earlier + 1600)
    &&& now == (if printed {
        Some(position)
    } else {
        last
    })
}

/// Over any run of results, the first is printed, no two that are printed lie less than 1600 samples
/// apart, and one that is not printed lies less than that behind one that was.
pub proof fn law_lines_are_at_least_100_ms_apart(
    lasts: Seq<Option<u64>>,
    positions: Seq<u64>,
    printed: Seq<bool>,
    i: int,
    j: int,
)
    requires
        positions.len() == printed.len(),
        lasts.len() == printed.len() + 1,
        lasts[0] is None,
        forall|k: int|
            0 <= k < printed.len() ==> paced(
                lasts[k],
                positions[k],
                #[trigger] printed[k],
                lasts[k + 1],
            ),
        0 <= i < j < printed.len(),
        printed[i],
    ensures
        printed[0],
        printed[j] ==> positions[j] >= positions[i] + 1600,
        lasts[j] is Some,
        lasts[j]->0 >= positions[i],
        !printed[j] ==> positions[j] < lasts[j]->0 + 1600,
    decreases j,
{
    assert(paced(lasts[0], positions[0], printed[0], lasts[1]));
    assert(paced(lasts[i], positions[i], printed[i], lasts[i + 1]));
    assert(paced(lasts[j], positions[j], printed[j], lasts[j + 1]));
    if i < j - 1 {
        law_lines_are_at_least_100_ms_apart(lasts, positions, printed, i, j - 1);
        assert(paced(lasts[j - 1], positions[j - 1], printed[j - 1], lasts[j - 1 + 1]));
    }
}

/// The name of each state.
pub proof fn law_names_of_the_states(status: TrackStatus)
    ensures
        status is Searching ==> status_name(status) == "searching"@,
        status is Tracking ==> status_name(status) == "tracking"@,
        status is Coasting ==> status_name(status) == "coasting"@,
{
}

} // verus!

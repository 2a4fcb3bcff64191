//! One recording: what is checked before it, how captured blocks are split, what each event of the
//! recording loop does, and what comes of the session.

use vstd::prelude::*;
use vstd::string::*;

use crate::app_config::{
    law_name_characters_stay_in_the_directory, name_problem, prefix_message, validate_prefix,
    AppConfig, RecordingConfig, APP_CONFIG_VERSION, MAX_PREFIX_LEN,
};
use crate::audio::{CaptureBlock, RESPEAKER_CHANNELS};
use crate::beamformer::BeamformerStats;
use crate::events::{ErrorSource, PipelineSnapshot, ServiceError};
use crate::pipeline::{keep_first, make_output_path, output_path, PipelineConfig, PipelineConfigError};
use crate::pipeline_worker::PipelineWorkerStats;
use crate::recordings::{
    session_id_message, session_files, file_views, valid_session_id, validate_session_id, FileStat,
    SessionManifest, SessionResultStatus,
};
use crate::text::{
    ascii_lowered, begins_with, chars_of, contains_chars, contains_str, contains_text, decimal,
    lemma_decimal_digits, lemma_decimal_is_injective, lemma_name_bytes, name_char, occurs_at,
    push_decimal, same_text, to_ascii_lower,
};

verus! {

/// The number that the digits from one position up to another stand for.
pub open spec fn digits_between(text: Seq<char>, from: int, to: int) -> int
    decreases to - from,
{
    if to <= from {
        0
    } else {
        10 * digits_between(text, from, to - 1) + (text[to - 1] as int - '0' as int)
    }
}

/// How many days a month has.
pub open spec fn days_in(year: int, month: int) -> int {
    if month == 2 {
        if year % 4 == 0 && (year % 100 != 0 || year % 400 == 0) {
            29
        } else {
            28
        }
    } else if month == 4 || month == 6 || month == 9 || month == 11 {
        30
    } else {
        31
    }
}

/// Where the fields of a written time begin. The year ends at `year_end`; every other field has
/// two digits.
pub struct TimeFields {
    pub year_end: int,
    pub month: int,
    pub day: int,
    pub hour: int,
    pub minute: int,
    pub second: int,
}

/// The fields hold a day of the calendar, not before the end of 1969, and a time of that day. A
/// year that takes more than four digits has a sign in front.
pub open spec fn is_moment(text: Seq<char>, at: TimeFields) -> bool {
    let signed = at.year_end > 4;
    let year = digits_between(
        text,
        if signed {
            1
        } else {
            0
        },
        at.year_end,
    );
    let month = digits_between(text, at.month, at.month + 2);
    &&& 1969 <= year
    &&& signed <==> year > 9999
    &&& 1 <= month <= 12
    &&& 1 <= digits_between(text, at.day, at.day + 2) <= days_in(year, month)
    &&& 0 <= digits_between(text, at.hour, at.hour + 2) <= 23
    &&& 0 <= digits_between(text, at.minute, at.minute + 2) <= 59
    &&& 0 <= digits_between(text, at.second, at.second + 2) <= 59
}

/// A time in digits: year, month, day, hour, minute and second, with `_` between day and hour
/// where it is separated. The year has four digits, or a sign and more of them; every other field
/// has two.
pub open spec fn is_stamp(stamp: Seq<char>, separated: bool) -> bool {
    let shortest: int = if separated {
        15
    } else {
        14
    };
    &&& stamp.len() >= shortest
    &&& forall|i: int|
        0 <= i < stamp.len() ==> if separated && i == stamp.len() - 7 {
            #[trigger] stamp[i] == '_'
        } else if i == 0 && stamp.len() > shortest {
            stamp[i] == '+'
        } else {
            '0' <= stamp[i] <= '9'
        }
    &&& is_moment(stamp, stamp_fields(stamp.len() as int, separated))
}

/// Where the fields of a time in digits begin.
pub open spec fn stamp_fields(len: int, separated: bool) -> TimeFields {
    let date_end = if separated {
        len - 7
    } else {
        len - 6
    };
    TimeFields {
        year_end: date_end - 4,
        month: date_end - 4,
        day: date_end - 2,
        hour: len - 6,
        minute: len - 4,
        second: len - 2,
    }
}

/// The local time, from `chrono::Local::now`, written by `DateTime::format` in one of the two
/// patterns of this library. `%Y` writes a year up to 9999 in four digits and a later one with a
/// sign in front; the other fields are written in two digits each, and together they are a day of
/// the calendar and a time of that day, without leap seconds. Which time it is depends on the clock
/// and on the zone of the machine, and nothing more is said of it. The call needs a clock that is
/// not before 1970.
#[verifier::external_body]
fn local_stamp(pattern: &str) -> (stamp: String)
    requires
        pattern@ == "%Y%m%d_%H%M%S"@ || pattern@ == "%Y%m%d%H%M%S"@,
    ensures
        is_stamp(stamp@, pattern@ == "%Y%m%d_%H%M%S"@),
{
    chrono::Local::now().format(pattern).to_string()
}

/// A time as manifests show it: `YYYY-MM-DDTHH:MM:SS`, the fraction of the second in three, six or
/// nine digits where there is one, and the offset of the zone as `+HH:MM` or `-HH:MM`. The year has
/// four digits, or a sign and more of them. An offset is rounded to whole minutes and is at most a
/// day.
pub open spec fn is_time(time: Seq<char>) -> bool {
    exists|year: int| #[trigger] is_time_after_year(time, year)
}

/// A time whose year takes up the given number of characters.
pub open spec fn is_time_after_year(time: Seq<char>, year: int) -> bool {
    let offset = time.len() - 6;
    let fraction = offset - (year + 15);
    &&& year == 4 || year >= 6
    &&& fraction == 0 || fraction == 4 || fraction == 7 || fraction == 10
    &&& forall|i: int|
        0 <= i < time.len() ==> if i == 0 && year > 4 {
            #[trigger] time[i] == '+'
        } else if i == year || i == year + 3 {
            time[i] == '-'
        } else if i == year + 6 {
            time[i] == 'T'
        } else if i == year + 9 || i == year + 12 || i == offset + 3 {
            time[i] == ':'
        } else if i == offset {
            time[i] == '+' || time[i] == '-'
        } else if i == year + 15 {
            time[i] == '.'
        } else {
            '0' <= time[i] <= '9'
        }
    &&& is_moment(
        time,
        TimeFields {
            year_end: year,
            month: year + 1,
            day: year + 4,
            hour: year + 7,
            minute: year + 10,
            second: year + 13,
        },
    )
    &&& digits_between(time, offset + 4, offset + 6) <= 59
    &&& 60 * digits_between(time, offset + 1, offset + 3) + digits_between(
        time,
        offset + 4,
        offset + 6,
    ) <= 24 * 60
}

/// The local time, from `chrono::Local::now`, as `DateTime::to_rfc3339` writes it: a day of the
/// calendar, a time of that day without leap seconds, and the offset of the zone. Which time it is
/// depends on the clock and on the zone of the machine, and nothing more is said of it. The call
/// needs a clock that is not before 1970.
#[verifier::external_body]
fn local_rfc3339() -> (time: String)
    ensures
        is_time(time@),
{
    chrono::Local::now().to_rfc3339()
}

/// The local time as manifests and announcements show it.
pub fn local_time() -> (time: String)
    ensures
        is_time(time@),
{
    local_rfc3339()
}

/// The prefix of a recording that was given none: the local time as `YYYYMMDD_HHMMSS`. Up to the
/// year 9999 it is a valid prefix.
pub fn default_prefix() -> (prefix: String)
    ensures
        is_stamp(prefix@, true),
        prefix@.len() == 15 ==> name_problem(prefix@, MAX_PREFIX_LEN) is None,
{
    let prefix = local_stamp("%Y%m%d_%H%M%S");
    proof {
        if prefix@.len() == 15 {
            assert forall|i: int| 0 <= i < prefix@.len() implies name_char(
                #[trigger] prefix@[i],
            ) by {}
            lemma_name_bytes(prefix@);
            law_name_characters_stay_in_the_directory(prefix@);
        }
    }
    prefix
}

/// The identifier of the session with a number that starts at a time.
pub open spec fn session_id_text(stamp: Seq<char>, number: nat) -> Seq<char> {
    "session-"@ + stamp + "-"@ + decimal(number)
}

pub fn session_id_of(stamp: &str, number: u64) -> (id: String)
    ensures
        id@ == session_id_text(stamp@, number as nat),
{
    let mut id = "session-".to_owned();
    id.append(stamp);
    id.append("-");
    push_decimal(&mut id, number);
    id
}

/// The identifier of a session that starts now.
pub fn new_session_id(number: u64) -> (id: String)
    ensures
        exists|stamp: Seq<char>| #[trigger]
            is_stamp(stamp, false) && id@ == session_id_text(stamp, number as nat),
{
    let stamp = local_stamp("%Y%m%d%H%M%S");
    proof {
        reveal_strlit("%Y%m%d%H%M%S");
        reveal_strlit("%Y%m%d_%H%M%S");
        assert("%Y%m%d%H%M%S"@.len() != "%Y%m%d_%H%M%S"@.len());
        assert(is_stamp(stamp@, false));
    }
    session_id_of(stamp.as_str(), number)
}

/// Up to the year 9999 the identifier of a session that starts now is valid.
pub proof fn law_session_ids_are_valid(stamp: Seq<char>, number: u64)
    requires
        is_stamp(stamp, false),
        stamp.len() == 14,
    ensures
        valid_session_id(session_id_text(stamp, number as nat)),
{
    reveal_strlit("session-");
    reveal_strlit("-");
    lemma_decimal_digits(number);
    let id = session_id_text(stamp, number as nat);
    let digits = decimal(number as nat);
    assert forall|i: int| 0 <= i < id.len() implies name_char(#[trigger] id[i]) by {
        if i < 8 {
            assert(id[i] == "session-"@[i]);
        } else if i < 22 {
            assert(id[i] == stamp[i - 8]);
        } else if i > 22 {
            assert(id[i] == digits[i - 23]);
        }
    }
    lemma_name_bytes(id);
}

/// Identifiers of sessions with different numbers differ, whenever they start; so a session is
/// told by its identifier.
pub proof fn law_session_ids_differ(a: Seq<char>, m: nat, b: Seq<char>, n: nat)
    requires
        is_stamp(a, false),
        is_stamp(b, false),
        session_id_text(a, m) == session_id_text(b, n),
    ensures
        m == n,
        a == b,
{
    reveal_strlit("session-");
    reveal_strlit("-");
    let s = session_id_text(a, m);
    let t = session_id_text(b, n);
    assert(s[8 + a.len() as int] == '-');
    assert(t[8 + b.len() as int] == '-');
    if a.len() < b.len() {
        assert(t[8 + a.len() as int] == b[a.len() as int]);
    }
    if b.len() < a.len() {
        assert(s[8 + b.len() as int] == a[b.len() as int]);
    }
    assert forall|i: int| 0 <= i < a.len() implies a[i] == b[i] by {
        assert(s[8 + i] == a[i]);
        assert(t[8 + i] == b[i]);
    }
    assert(a =~= b);
    assert(s.skip(9 + a.len() as int) =~= decimal(m));
    assert(t.skip(9 + b.len() as int) =~= decimal(n));
    lemma_decimal_is_injective(m, n);
}

#[derive(Debug)]
pub struct RecordingRequest {
    pub recording: RecordingConfig,
    pub pipeline: Option<PipelineConfig>,
    pub session_id: String,
}

#[derive(Debug)]
pub struct RecordingSummary {
    pub session_id: String,
    pub prefix: String,
    pub out_dir: String,
    pub captured_frames: u64,
    pub pipeline_stats: Option<PipelineWorkerStats>,
    pub bf_stats: Option<BeamformerStats>,
}

/// Why a recording is not begun.
#[derive(Debug)]
pub enum RequestError {
    Recording(String),
    Pipeline(PipelineConfigError),
    SessionId(String),
    Prefix(String),
}

/// A recording that may begin.
#[derive(Debug)]
pub struct PreparedRecording {
    pub prefix: String,
    pub out_dir: String,
    /// What the manifest says of the configuration.
    pub config: AppConfig,
}

/// The prefix that a recording uses.
pub open spec fn used_prefix(recording: RecordingConfig, fallback: Seq<char>) -> Seq<char> {
    match recording.prefix {
        Some(prefix) => prefix@,
        None => fallback,
    }
}

/// Checks a request, and settles the prefix: `fallback` where the request has none.
pub fn prepare_recording(request: &RecordingRequest, fallback: String) -> (result: Result<
    PreparedRecording,
    RequestError,
>)
    ensures
        match result {
            Ok(prepared) => {
                let prefix = used_prefix(request.recording, fallback@);
                &&& request.recording.valid()
                &&& request.pipeline matches Some(pipeline) ==> pipeline.valid()
                &&& valid_session_id(request.session_id@)
                &&& name_problem(prefix, MAX_PREFIX_LEN) is None
                &&& prepared.prefix@ == prefix
                &&& prepared.out_dir@ == request.recording.out_dir@
                &&& prepared.config.version == APP_CONFIG_VERSION
                &&& prepared.config.recording == request.recording
                &&& prepared.config.pipeline_enabled == request.pipeline is Some
                &&& match request.pipeline {
                    Some(pipeline) => prepared.config.pipeline.version == pipeline.version
                        && prepared.config.pipeline.modules@ == pipeline.modules@,
                    None => prepared.config.pipeline.modules@.len() == 0,
                }
                &&& prepared.config.valid()
            },
            Err(RequestError::Recording(message)) => {
                &&& !request.recording.valid()
                &&& message@ == request.recording.problem()
            },
            Err(RequestError::Pipeline(e)) => {
                &&& request.recording.valid()
                &&& request.pipeline matches Some(pipeline) && pipeline.refused_with(e)
            },
            Err(RequestError::SessionId(message)) => {
                &&& request.recording.valid()
                &&& request.pipeline matches Some(pipeline) ==> pipeline.valid()
                &&& !valid_session_id(request.session_id@)
                &&& message@ == session_id_message(request.session_id@)
            },
            Err(RequestError::Prefix(message)) => {
                let problem = name_problem(
                    used_prefix(request.recording, fallback@),
                    MAX_PREFIX_LEN,
                );
                &&& request.recording.valid()
                &&& request.pipeline matches Some(pipeline) ==> pipeline.valid()
                &&& valid_session_id(request.session_id@)
                &&& problem is Some
                &&& message@ == prefix_message(problem->0)
            },
        },
{
    if let Err(message) = request.recording.validate() {
        return Err(RequestError::Recording(message));
    }
    if let Some(pipeline) = &request.pipeline {
        if let Err(e) = pipeline.validate() {
            return Err(RequestError::Pipeline(e));
        }
    }
    if let Err(message) = validate_session_id(request.session_id.as_str()) {
        return Err(RequestError::SessionId(message));
    }
    let prefix = match &request.recording.prefix {
        Some(prefix) => prefix.clone(),
        None => fallback,
    };
    if let Err(message) = validate_prefix(prefix.as_str()) {
        return Err(RequestError::Prefix(message));
    }
    let config = AppConfig {
        version: APP_CONFIG_VERSION,
        recording: request.recording.clone(),
        pipeline_enabled: request.pipeline.is_some(),
        pipeline: match &request.pipeline {
            Some(pipeline) => pipeline.clone(),
            None => PipelineConfig::empty(),
        },
    };
    Ok(PreparedRecording { prefix, out_dir: request.recording.out_dir.clone(), config })
}

/// The paths of the three raw files.
#[derive(Debug)]
pub struct SplitOutputs {
    pub algo: String,
    pub mic: String,
    pub reference: String,
}

impl SplitOutputs {
    pub fn new(out_dir: &str, prefix: &str) -> (out: Self)
        ensures
            out.algo@ == output_path(out_dir@, prefix@, "_respeaker_algo.wav"@),
            out.mic@ == output_path(out_dir@, prefix@, "_respeaker_mic.wav"@),
            out.reference@ == output_path(out_dir@, prefix@, "_respeaker_ref.wav"@),
    {
        SplitOutputs {
            algo: make_output_path(out_dir, prefix, "_respeaker_algo.wav"),
            mic: make_output_path(out_dir, prefix, "_respeaker_mic.wav"),
            reference: make_output_path(out_dir, prefix, "_respeaker_ref.wav"),
        }
    }
}

/// One channel of interleaved frames of six.
pub open spec fn channel(samples: Seq<i16>, c: int) -> Seq<i16> {
    Seq::new((samples.len() / 6) as nat, |i: int| samples[6 * i + c])
}

/// The four microphone channels, still interleaved.
pub open spec fn microphones(samples: Seq<i16>) -> Seq<i16> {
    Seq::new((4 * (samples.len() / 6)) as nat, |i: int| samples[6 * (i / 4) + 1 + i % 4])
}

/// What is said of a block that is no whole number of frames.
pub open spec fn split_message(samples: nat) -> Seq<char> {
    "采样块长度 "@ + decimal(samples) + " 不是 6 的整数倍"@
}

/// Splits interleaved frames into the processed channel, the four microphones and the reference.
/// A block that is no whole number of frames leaves the buffers as they are.
pub fn split_6ch_into(
    samples: &[i16],
    algo: &mut Vec<i16>,
    mic: &mut Vec<i16>,
    reference: &mut Vec<i16>,
) -> (result: Result<(), String>)
    ensures
        result is Ok <==> samples@.len() % 6 == 0,
        match result {
            Ok(()) => {
                &&& final(algo)@ == channel(samples@, 0)
                &&& final(mic)@ == microphones(samples@)
                &&& final(reference)@ == channel(samples@, 5)
            },
            Err(message) => {
                &&& message@ == split_message(samples@.len())
                &&& final(algo)@ == old(algo)@
                &&& final(mic)@ == old(mic)@
                &&& final(reference)@ == old(reference)@
            },
        },
{
    let length: usize = samples.len();
    if length % RESPEAKER_CHANNELS != 0 {
        let mut message = "采样块长度 ".to_owned();
        push_decimal(&mut message, length as u64);
        message.append(" 不是 6 的整数倍");
        return Err(message);
    }
    algo.clear();
    mic.clear();
    reference.clear();
    let frames: usize = length / RESPEAKER_CHANNELS;
    for i in 0..frames
        invariant
            length == samples@.len(),
            frames == length / 6,
            length % 6 == 0,
            algo@ == channel(samples@, 0).take(i as int),
            mic@ == microphones(samples@).take(4 * i),
            reference@ == channel(samples@, 5).take(i as int),
    {
        let at: usize = i * RESPEAKER_CHANNELS;
        algo.push(samples[at]);
        mic.push(samples[at + 1]);
        mic.push(samples[at + 2]);
        mic.push(samples[at + 3]);
        mic.push(samples[at + 4]);
        reference.push(samples[at + 5]);
        proof {
            assert(algo@ =~= channel(samples@, 0).take(i + 1));
            assert(reference@ =~= channel(samples@, 5).take(i + 1));
            assert(mic@ =~= microphones(samples@).take(4 * (i + 1)));
        }
    }
    proof {
        assert(channel(samples@, 0).take(frames as int) =~= channel(samples@, 0));
        assert(channel(samples@, 5).take(frames as int) =~= channel(samples@, 5));
        assert(microphones(samples@).take(4 * frames) =~= microphones(samples@));
    }
    Ok(())
}

/// Every sample of a whole number of frames ends up in exactly one of the three files, in its
/// place.
pub proof fn law_split_keeps_every_sample(samples: Seq<i16>, frame: int, c: int)
    requires
        samples.len() % 6 == 0,
        0 <= frame < samples.len() / 6,
        0 <= c < 6,
    ensures
        samples[6 * frame + c] == if c == 0 {
            channel(samples, 0)[frame]
        } else if c == 5 {
            channel(samples, 5)[frame]
        } else {
            microphones(samples)[4 * frame + c - 1]
        },
        channel(samples, 0).len() + microphones(samples).len() + channel(samples, 5).len()
            == samples.len(),
{
    if 1 <= c < 5 {
        assert((4 * frame + c - 1) / 4 == frame);
        assert((4 * frame + c - 1) % 4 == c - 1);
    }
}

/// What an error is taken for, going by its text.
pub open spec fn error_source_of(error: Seq<char>) -> ErrorSource {
    let lower = ascii_lowered(error);
    if contains_text(lower, "pipeline"@) || contains_text(lower, "algorithm worker"@) {
        ErrorSource::Pipeline
    } else if contains_text(lower, "wav"@) || contains_text(error, "写入"@) || contains_text(
        error,
        "完成"@,
    ) {
        ErrorSource::RawWav
    } else {
        ErrorSource::Capture
    }
}

pub fn classify_error(error: &str) -> (source: ErrorSource)
    ensures
        source == error_source_of(error@),
{
    let chars = chars_of(error);
    let lower = to_ascii_lower(chars.as_slice());
    let pipeline = chars_of("pipeline");
    let worker = chars_of("algorithm worker");
    let wav = chars_of("wav");
    if contains_chars(lower.as_slice(), pipeline.as_slice()) || contains_chars(
        lower.as_slice(),
        worker.as_slice(),
    ) {
        ErrorSource::Pipeline
    } else if contains_chars(lower.as_slice(), wav.as_slice()) || contains_str(error, "写入")
        || contains_str(error, "完成") {
        ErrorSource::RawWav
    } else {
        ErrorSource::Capture
    }
}

/// What an optional text holds.
pub open spec fn held(text: Option<String>) -> Option<Seq<char>> {
    match text {
        Some(t) => Some(t@),
        None => None,
    }
}

/// The errors so far with one more: the first stays in front.
pub open spec fn appended(first: Option<Seq<char>>, error: Seq<char>) -> Option<Seq<char>> {
    match first {
        Some(existing) => Some(existing + "; "@ + error),
        None => Some(error),
    }
}

/// What was there first is still there, and in front.
pub open spec fn stays_in_front(first: Option<Seq<char>>, later: Option<Seq<char>>) -> bool {
    first == later || match (first, later) {
        (Some(a), Some(b)) => begins_with(b, a),
        (None, _) => true,
        (Some(_), None) => false,
    }
}

proof fn lemma_stays_in_front(
    a: Option<Seq<char>>,
    b: Option<Seq<char>>,
    c: Option<Seq<char>>,
)
    requires
        stays_in_front(a, b),
        stays_in_front(b, c),
    ensures
        stays_in_front(a, c),
{
    if a is Some && b is Some && c is Some && a != b && b != c {
        let n = a->0.len() as int;
        assert(c->0.take(b->0.len() as int).take(n) =~= c->0.take(n));
    }
}

/// What was there is still there, wherever it stands now.
pub open spec fn stays_told(earlier: Option<Seq<char>>, later: Option<Seq<char>>) -> bool {
    earlier matches Some(a) ==> later matches Some(b) && contains_text(b, a)
}

proof fn lemma_in_front_is_told(a: Option<Seq<char>>, b: Option<Seq<char>>)
    requires
        stays_in_front(a, b),
    ensures
        stays_told(a, b),
{
    if let (Some(x), Some(y)) = (a, b) {
        assert(y.subrange(0, x.len() as int) =~= x);
        assert(occurs_at(y, x, 0));
    }
}

proof fn lemma_stays_told(a: Option<Seq<char>>, b: Option<Seq<char>>, c: Option<Seq<char>>)
    requires
        stays_told(a, b),
        stays_told(b, c),
    ensures
        stays_told(a, c),
{
    if let (Some(x), Some(y), Some(z)) = (a, b, c) {
        let i = choose|i: int| occurs_at(y, x, i);
        let j = choose|j: int| occurs_at(z, y, j);
        assert(z.subrange(j, j + y.len()).subrange(i, i + x.len()) =~= z.subrange(
            i + j,
            i + j + x.len(),
        ));
        assert(occurs_at(z, x, i + j));
    }
}

/// An error with others behind it.
pub open spec fn led_by(error: Seq<char>, others: Option<Seq<char>>) -> Seq<char> {
    match others {
        Some(rest) => error + "; "@ + rest,
        None => error,
    }
}

proof fn lemma_led_by(error: Seq<char>, a: Option<Seq<char>>, b: Option<Seq<char>>)
    requires
        stays_in_front(a, b),
    ensures
        stays_in_front(Some(led_by(error, a)), Some(led_by(error, b))),
        stays_told(a, Some(led_by(error, a))),
{
    if let Some(y) = b {
        let whole = led_by(error, b);
        match a {
            Some(x) => {
                assert(y.take(x.len() as int) =~= x);
                assert(whole.take(led_by(error, a).len() as int) =~= led_by(error, a));
            },
            None => {
                assert(whole.take(error.len() as int) =~= error);
            },
        }
    }
    if let Some(x) = a {
        let whole = led_by(error, a);
        let at = whole.len() - x.len();
        assert(whole.subrange(at, at + x.len()) =~= x);
        assert(occurs_at(whole, x, at));
    }
}

pub fn append_err(first: &mut Option<String>, result: Result<(), String>)
    ensures
        stays_in_front(held(*old(first)), held(*final(first))),
        held(*final(first)) == match result {
            Ok(()) => held(*old(first)),
            Err(e) => appended(held(*old(first)), e@),
        },
{
    if let Err(e) = result {
        let mut existing: Option<String> = None;
        std::mem::swap(&mut existing, first);
        match existing {
            Some(text) => {
                let mut all = text;
                all.append("; ");
                all.append(e.as_str());
                assert(all@.take(text@.len() as int) =~= text@);
                *first = Some(all);
            },
            None => {
                *first = Some(e);
            },
        }
    }
}

/// The error that stands, where one is reported after others.
pub open spec fn standing(first: Option<Seq<char>>, error: Seq<char>) -> Option<Seq<char>> {
    match first {
        Some(_) => first,
        None => Some(error),
    }
}

/// What becomes of the processing modules while the raw recording goes on.
#[derive(Debug)]
pub enum PipelineDispatchState {
    Disabled,
    Active,
    Failed { first_error: String },
}

/// What is told of the processing modules when they fail while recording.
#[derive(Debug)]
pub struct PipelineReport {
    pub error: ServiceError,
    pub status: PipelineSnapshot,
}

/// A status that shows the processing modules as degraded by an error.
pub open spec fn degraded_status(status: PipelineSnapshot, error: Seq<char>) -> bool {
    &&& status.enabled
    &&& status.degraded
    &&& held(status.error) == Some(error)
    &&& status.doa_count is None
    &&& status.bf_stats is None
}

fn degraded_by(error: &str) -> (status: PipelineSnapshot)
    ensures
        degraded_status(status, error@),
{
    PipelineSnapshot {
        enabled: true,
        degraded: true,
        error: Some(error.to_owned()),
        doa_count: None,
        bf_stats: None,
    }
}

/// An error of the processing modules.
pub open spec fn pipeline_error(error: ServiceError, code: Seq<char>, message: Seq<char>) -> bool {
    &&& error.source == ErrorSource::Pipeline
    &&& error.code@ == code
    &&& error.message@ == message
    &&& error.field is None
}

/// What is to be done at the start of a turn of the loop.
#[derive(Clone, Copy, Debug, PartialEq, Eq, Structural)]
pub struct TurnAction {
    pub set_stop: bool,
    pub notify_stopping: bool,
}

/// What comes of the processing modules at the end.
#[derive(Debug)]
pub struct FinishReport {
    pub stats: Option<PipelineWorkerStats>,
    pub error: Option<ServiceError>,
    pub status: Option<PipelineSnapshot>,
}

/// What comes of the loop.
#[derive(Debug)]
pub struct LoopResult {
    pub captured_frames: u64,
    pub pipeline_stats: Option<PipelineWorkerStats>,
    pub error: Option<String>,
    pub error_source: ErrorSource,
}

/// The loop that writes captured blocks until the capture ends.
#[derive(Debug)]
pub struct RecordingLoop {
    /// Captured blocks are still written, but the capture was told to stop.
    pub draining: bool,
    pub frames: u64,
    pub first_error: Option<String>,
    pub dispatch: PipelineDispatchState,
    /// Nobody was told yet that the recording is stopping.
    pub stopping_pending: bool,
}

/// What the loop says of a write that failed.
pub open spec fn write_message(path: Seq<char>, error: Seq<char>) -> Seq<char> {
    "写入 "@ + path + " 失败: "@ + error
}

pub fn write_failed(path: &str, error: &str) -> (message: String)
    ensures
        message@ == write_message(path@, error@),
{
    let mut message = "写入 ".to_owned();
    message.append(path);
    message.append(" 失败: ");
    message.append(error);
    message
}

/// What the loop says of a file that could not be completed.
pub open spec fn complete_message(path: Seq<char>, error: Seq<char>) -> Seq<char> {
    "完成 "@ + path + " 失败: "@ + error
}

fn complete_failed(path: &str, result: Result<(), String>) -> (mapped: Result<(), String>)
    ensures
        result is Ok <==> mapped is Ok,
        mapped matches Err(message) ==> message@ == complete_message(path@, result->Err_0@),
{
    match result {
        Ok(()) => Ok(()),
        Err(error) => {
            let mut message = "完成 ".to_owned();
            message.append(path);
            message.append(" 失败: ");
            message.append(error.as_str());
            Err(message)
        },
    }
}

/// The errors after completing one more file.
pub open spec fn after_completing(
    first: Option<Seq<char>>,
    path: Seq<char>,
    result: Result<(), String>,
) -> Option<Seq<char>> {
    match result {
        Ok(()) => first,
        Err(e) => appended(first, complete_message(path, e@)),
    }
}

/// A captured block taken apart.
#[derive(Debug)]
pub struct SplitBlock {
    pub algo: Vec<i16>,
    pub mic: Vec<i16>,
    pub reference: Vec<i16>,
}

/// Takes a captured block apart for the three files.
pub fn split_block(block: &CaptureBlock) -> (result: Result<SplitBlock, String>)
    requires
        block.frames * RESPEAKER_CHANNELS <= usize::MAX,
    ensures
        result is Ok <==> block.well_formed(),
        match result {
            Ok(split) => {
                &&& split.algo@ == channel(block.samples@, 0)
                &&& split.mic@ == microphones(block.samples@)
                &&& split.reference@ == channel(block.samples@, 5)
            },
            Err(message) => message@ == crate::audio::length_mismatch_message(
                block.samples@.len(),
                block.frames as nat,
            ),
        },
{
    if let Err(message) = block.validate() {
        return Err(message);
    }
    let mut algo: Vec<i16> = Vec::new();
    let mut mic: Vec<i16> = Vec::new();
    let mut reference: Vec<i16> = Vec::new();
    match split_6ch_into(&block.samples, &mut algo, &mut mic, &mut reference) {
        Ok(()) => Ok(SplitBlock { algo, mic, reference }),
        Err(message) => Err(message),
    }
}

impl RecordingLoop {
    /// The errors in the order in which they are reported: the one that made the processing
    /// modules fail goes before all others, which follow in the order in which they came.
    pub open spec fn reported(&self) -> Option<Seq<char>> {
        match self.dispatch {
            PipelineDispatchState::Failed { first_error } => Some(
                led_by(first_error@, held(self.first_error)),
            ),
            _ => held(self.first_error),
        }
    }

    /// What the loop has done stays done: it keeps stopping once it stops, the frames that were
    /// written stay written, modules that failed stay off, no error is lost, and what is reported
    /// first stays first, but for the error that makes the modules fail.
    pub open spec fn goes_on_to(&self, after: RecordingLoop) -> bool {
        &&& self.draining ==> after.draining
        &&& self.frames <= after.frames
        &&& after.dispatch is Active ==> self.dispatch is Active
        &&& stays_told(self.reported(), after.reported())
        &&& !(self.dispatch is Active && after.dispatch is Failed) ==> stays_in_front(
            self.reported(),
            after.reported(),
        )
    }

    proof fn lemma_goes_on(self, after: RecordingLoop)
        requires
            self.draining ==> after.draining,
            self.frames <= after.frames,
            self.dispatch == after.dispatch,
            stays_in_front(held(self.first_error), held(after.first_error)),
        ensures
            self.goes_on_to(after),
    {
        if let PipelineDispatchState::Failed { first_error } = self.dispatch {
            lemma_led_by(first_error@, held(self.first_error), held(after.first_error));
        }
        lemma_in_front_is_told(self.reported(), after.reported());
    }

    /// The loop after a block was handed to the processing modules: where that failed they get no
    /// more blocks, and all else stays.
    pub open spec fn after_push(self, result: Result<(), String>) -> RecordingLoop {
        RecordingLoop {
            dispatch: match (self.dispatch, result) {
                (PipelineDispatchState::Active, Err(e)) => PipelineDispatchState::Failed {
                    first_error: e,
                },
                (dispatch, _) => dispatch,
            },
            ..self
        }
    }

    /// The errors once the processing modules have ended: those reported so far, and that of their
    /// end behind them where it is another one than made them fail.
    pub open spec fn error_after_modules(
        self,
        finished: Result<PipelineWorkerStats, String>,
    ) -> Option<Seq<char>> {
        match (self.dispatch, finished) {
            (PipelineDispatchState::Failed { first_error }, Err(e)) => if e@ == first_error@ {
                self.reported()
            } else {
                appended(self.reported(), e@)
            },
            (PipelineDispatchState::Active, Err(e)) => appended(self.reported(), e@),
            _ => self.reported(),
        }
    }

    /// The stopping of the recording is announced only while it was not announced yet.
    pub open spec fn announces(&self, after: RecordingLoop, notify: bool) -> bool {
        &&& notify ==> self.stopping_pending
        &&& after.stopping_pending == (self.stopping_pending && !notify)
    }

    pub fn new(pipeline: bool) -> (state: Self)
        ensures
            !state.draining,
            state.frames == 0,
            state.first_error is None,
            state.stopping_pending,
            state.dispatch == (if pipeline {
                PipelineDispatchState::Active
            } else {
                PipelineDispatchState::Disabled
            }),
    {
        RecordingLoop {
            draining: false,
            frames: 0,
            first_error: None,
            dispatch: if pipeline {
                PipelineDispatchState::Active
            } else {
                PipelineDispatchState::Disabled
            },
            stopping_pending: true,
        }
    }

    /// Whether the stopping of the recording is to be announced; it is so only once.
    fn notify_stopping(&mut self) -> (notify: bool)
        ensures
            notify == old(self).stopping_pending,
            *final(self) == (RecordingLoop { stopping_pending: false, ..*old(self) }),
    {
        let notify = self.stopping_pending;
        self.stopping_pending = false;
        notify
    }

    /// Begins a turn: `stop_requested` says whether the capture was told to stop, and
    /// `deadline_passed` whether the recording has reached its length.
    pub fn begin_turn(&mut self, stop_requested: bool, deadline_passed: bool) -> (action: TurnAction)
        ensures
            old(self).announces(*final(self), action.notify_stopping),
            old(self).goes_on_to(*final(self)),
            loop_step(
                *old(self),
                LoopEvent::Turn { stop_requested, deadline_passed, action },
                *final(self),
            ),
            final(self).draining == (old(self).draining || stop_requested || deadline_passed),
            action.set_stop == (!old(self).draining && deadline_passed),
            action.notify_stopping == (action.set_stop && old(self).stopping_pending),
            final(self).stopping_pending == (old(self).stopping_pending
                && !action.notify_stopping),
            final(self).frames == old(self).frames,
            final(self).first_error == old(self).first_error,
            final(self).dispatch == old(self).dispatch,
    {
        let mut action = TurnAction { set_stop: false, notify_stopping: false };
        if !self.draining {
            if stop_requested {
                self.draining = true;
            }
            if deadline_passed {
                action.set_stop = true;
                self.draining = true;
                action.notify_stopping = self.notify_stopping();
            }
        }
        proof {
            old(self).lemma_goes_on(*self);
        }
        action
    }

    pub fn pipeline_active(&self) -> (active: bool)
        ensures
            active == self.dispatch is Active,
    {
        match self.dispatch {
            PipelineDispatchState::Active => true,
            _ => false,
        }
    }

    /// Takes in what came of handing a block to the processing modules. Where that failed they get
    /// no more blocks, and the report says so. The raw recording goes on.
    pub fn pushed(&mut self, result: Result<(), String>) -> (report: Option<PipelineReport>)
        ensures
            old(self).announces(*final(self), false),
            old(self).goes_on_to(*final(self)),
            loop_step(*old(self), LoopEvent::Pushed, *final(self)),
            *final(self) == old(self).after_push(result),
            match result {
                Err(e) if old(self).dispatch is Active => report matches Some(r) && pipeline_error(
                    r.error,
                    "pipeline_degraded"@,
                    e@,
                ) && degraded_status(r.status, e@),
                _ => report is None,
            },
    {
        if !self.pipeline_active() {
            proof {
                old(self).lemma_goes_on(*self);
            }
            return None;
        }
        match result {
            Ok(()) => {
                proof {
                    old(self).lemma_goes_on(*self);
                }
                None
            },
            Err(e) => {
                proof {
                    lemma_led_by(e@, held(self.first_error), held(self.first_error));
                }
                let report = PipelineReport {
                    error: ServiceError::new(
                        ErrorSource::Pipeline,
                        "pipeline_degraded",
                        e.clone(),
                    ),
                    status: degraded_by(e.as_str()),
                };
                self.dispatch = PipelineDispatchState::Failed { first_error: e };
                Some(report)
            },
        }
    }

    /// Takes in what came of writing a block of `frames` frames. A write that failed ends the
    /// recording.
    pub fn block_written(&mut self, result: Result<(), String>, frames: usize) -> (action:
        TurnAction)
        requires
            old(self).frames + frames <= u64::MAX,
        ensures
            old(self).announces(*final(self), action.notify_stopping),
            old(self).goes_on_to(*final(self)),
            loop_step(
                *old(self),
                LoopEvent::Written { failure: failure_of(result), frames: frames as nat, action },
                *final(self),
            ),
            match result {
                Ok(()) => {
                    &&& action == (TurnAction { set_stop: false, notify_stopping: false })
                    &&& final(self).frames == old(self).frames + frames
                    &&& final(self).draining == old(self).draining
                    &&& final(self).first_error == old(self).first_error
                    &&& final(self).stopping_pending == old(self).stopping_pending
                },
                Err(e) => {
                    &&& action.set_stop
                    &&& action.notify_stopping == old(self).stopping_pending
                    &&& final(self).frames == old(self).frames
                    &&& final(self).draining
                    &&& held(final(self).first_error) == standing(
                        held(old(self).first_error),
                        e@,
                    )
                    &&& !final(self).stopping_pending
                },
            },
            final(self).dispatch == old(self).dispatch,
    {
        match result {
            Ok(()) => {
                self.frames = self.frames + frames as u64;
                proof {
                    old(self).lemma_goes_on(*self);
                }
                TurnAction { set_stop: false, notify_stopping: false }
            },
            Err(e) => {
                keep_first(&mut self.first_error, Err(e));
                self.draining = true;
                let notify_stopping = self.notify_stopping();
                proof {
                    old(self).lemma_goes_on(*self);
                }
                TurnAction { set_stop: true, notify_stopping }
            },
        }
    }

    /// The capture has ended: `joined` is what it says of its end. Says whether the stopping of
    /// the recording is to be announced.
    pub fn disconnected(&mut self, joined: Result<(), String>) -> (notify: bool)
        ensures
            old(self).announces(*final(self), notify),
            old(self).goes_on_to(*final(self)),
            loop_step(
                *old(self),
                LoopEvent::CaptureEnded { failure: failure_of(joined), notify },
                *final(self),
            ),
            held(final(self).first_error) == match joined {
                Ok(()) => held(old(self).first_error),
                Err(e) => appended(held(old(self).first_error), e@),
            },
            notify == (old(self).stopping_pending && final(self).first_error is Some),
            final(self).stopping_pending == (old(self).stopping_pending && !notify),
            final(self).draining == old(self).draining,
            final(self).frames == old(self).frames,
            final(self).dispatch == old(self).dispatch,
    {
        append_err(&mut self.first_error, joined);
        let mut notify = false;
        if self.first_error.is_some() {
            notify = self.notify_stopping();
        }
        proof {
            old(self).lemma_goes_on(*self);
        }
        notify
    }

    /// Takes in what came of completing the three raw files.
    pub fn finalize_raw_wav_writers(
        &mut self,
        out: &SplitOutputs,
        algo: Result<(), String>,
        mic: Result<(), String>,
        reference: Result<(), String>,
    )
        ensures
            old(self).announces(*final(self), false),
            old(self).goes_on_to(*final(self)),
            loop_step(*old(self), LoopEvent::FilesCompleted, *final(self)),
            held(final(self).first_error) == after_completing(
                after_completing(
                    after_completing(held(old(self).first_error), out.algo@, algo),
                    out.mic@,
                    mic,
                ),
                out.reference@,
                reference,
            ),
            final(self).stopping_pending == old(self).stopping_pending,
            final(self).draining == old(self).draining,
            final(self).frames == old(self).frames,
            final(self).dispatch == old(self).dispatch,
    {
        let ghost before = held(self.first_error);
        append_err(&mut self.first_error, complete_failed(out.algo.as_str(), algo));
        let ghost with_algo = held(self.first_error);
        append_err(&mut self.first_error, complete_failed(out.mic.as_str(), mic));
        let ghost with_mic = held(self.first_error);
        append_err(&mut self.first_error, complete_failed(out.reference.as_str(), reference));
        proof {
            lemma_stays_in_front(before, with_algo, with_mic);
            lemma_stays_in_front(before, with_mic, held(self.first_error));
            old(self).lemma_goes_on(*self);
        }
    }

    /// Takes in what came of the processing modules at their end. The error that made them fail
    /// is told only once, and goes before all others.
    pub fn finish_pipeline(&mut self, finished: Result<PipelineWorkerStats, String>) -> (report:
        FinishReport)
        ensures
            old(self).announces(*final(self), false),
            old(self).goes_on_to(*final(self)),
            loop_step(*old(self), LoopEvent::ModulesEnded, *final(self)),
            final(self).dispatch is Disabled,
            final(self).stopping_pending == old(self).stopping_pending,
            final(self).draining == old(self).draining,
            final(self).frames == old(self).frames,
            report.stats == match (old(self).dispatch, finished) {
                (PipelineDispatchState::Disabled, _) => None,
                (_, Ok(stats)) => Some(stats),
                (_, Err(_)) => None,
            },
            held(final(self).first_error) == old(self).error_after_modules(finished),
            match (old(self).dispatch, finished) {
                (PipelineDispatchState::Disabled, _) => {
                    &&& report.error is None
                    &&& report.status is None
                },
                (PipelineDispatchState::Active, Ok(_)) => {
                    &&& report.error is None
                    &&& report.status is None
                },
                (PipelineDispatchState::Active, Err(e)) => {
                    &&& report.error matches Some(error) && pipeline_error(
                        error,
                        "pipeline_failed"@,
                        e@,
                    )
                    &&& report.status is None
                },
                (PipelineDispatchState::Failed { first_error }, Ok(_)) => {
                    &&& report.error is None
                    &&& report.status is None
                },
                (PipelineDispatchState::Failed { first_error }, Err(e)) => if e@ == first_error@ {
                    report.error is None && report.status is None
                } else {
                    &&& report.error matches Some(error) && pipeline_error(
                        error,
                        "pipeline_failed"@,
                        e@,
                    )
                    &&& report.status matches Some(status) && degraded_status(
                        status,
                        first_error@,
                    )
                },
            },
    {
        let mut state = PipelineDispatchState::Disabled;
        std::mem::swap(&mut state, &mut self.dispatch);
        let report = match state {
            PipelineDispatchState::Disabled => FinishReport {
                stats: None,
                error: None,
                status: None,
            },
            PipelineDispatchState::Active => match finished {
                Ok(stats) => FinishReport { stats: Some(stats), error: None, status: None },
                Err(e) => {
                    append_err(&mut self.first_error, Err(e.clone()));
                    FinishReport {
                        stats: None,
                        error: Some(
                            ServiceError::new(ErrorSource::Pipeline, "pipeline_failed", e),
                        ),
                        status: None,
                    }
                },
            },
            PipelineDispatchState::Failed { first_error } => {
                let mut others: Option<String> = None;
                std::mem::swap(&mut others, &mut self.first_error);
                let mut all = first_error.clone();
                if let Some(rest) = others {
                    all.append("; ");
                    all.append(rest.as_str());
                }
                self.first_error = Some(all);
                match finished {
                    Ok(stats) => FinishReport { stats: Some(stats), error: None, status: None },
                    Err(e) => {
                        if same_text(e.as_str(), first_error.as_str()) {
                            FinishReport { stats: None, error: None, status: None }
                        } else {
                            append_err(&mut self.first_error, Err(e.clone()));
                            FinishReport {
                                stats: None,
                                error: Some(
                                    ServiceError::new(ErrorSource::Pipeline, "pipeline_failed", e),
                                ),
                                status: Some(degraded_by(first_error.as_str())),
                            }
                        }
                    },
                }
            },
        };
        proof {
            lemma_in_front_is_told(old(self).reported(), held(self.first_error));
        }
        report
    }

    /// Ends the loop: `stopped` is what the capture says when it is stopped once more. Says also
    /// whether the stopping of the recording is to be announced.
    pub fn conclude(
        &mut self,
        stopped: Result<(), String>,
        pipeline_stats: Option<PipelineWorkerStats>,
    ) -> (concluded: (LoopResult, bool))
        ensures
            old(self).announces(*final(self), concluded.1),
            held(concluded.0.error) == match stopped {
                Ok(()) => held(old(self).first_error),
                Err(e) => appended(held(old(self).first_error), e@),
            },
            concluded.0.captured_frames == old(self).frames,
            concluded.0.pipeline_stats == pipeline_stats,
            concluded.0.error_source == match concluded.0.error {
                Some(error) => error_source_of(error@),
                None => ErrorSource::Capture,
            },
            concluded.1 == (old(self).stopping_pending && concluded.0.error is Some && (
            concluded.0.error_source == ErrorSource::Capture || concluded.0.error_source
                == ErrorSource::RawWav)),
            final(self).stopping_pending == (old(self).stopping_pending && !concluded.1),
    {
        append_err(&mut self.first_error, stopped);
        let mut error: Option<String> = None;
        std::mem::swap(&mut error, &mut self.first_error);
        let mut notify = false;
        let mut source = ErrorSource::Capture;
        if let Some(text) = &error {
            source = classify_error(text.as_str());
            if source == ErrorSource::Capture || source == ErrorSource::RawWav {
                notify = self.notify_stopping();
            }
        }
        (
            LoopResult {
                captured_frames: self.frames,
                pipeline_stats,
                error,
                error_source: source,
            },
            notify,
        )
    }
}

/// Progress is told at most this often, in milliseconds.
pub const PROGRESS_INTERVAL_MS: u64 = 200;

/// Whether progress is due, this long after it was last told.
pub fn progress_due(elapsed_ms: u64) -> (due: bool)
    ensures
        due == (elapsed_ms >= PROGRESS_INTERVAL_MS),
{
    elapsed_ms >= PROGRESS_INTERVAL_MS
}

/// The length of a recording in seconds, where it has one.
pub fn time_limit(recording: &RecordingConfig) -> (limit: Option<u64>)
    ensures
        limit == (if recording.duration_seconds > 0 {
            Some(recording.duration_seconds)
        } else {
            None
        }),
{
    if recording.duration_seconds > 0 {
        Some(recording.duration_seconds)
    } else {
        None
    }
}

/// Where the start of a recording failed.
#[derive(Clone, Copy, Debug, PartialEq, Eq, Structural)]
pub enum StartupStage {
    Device,
    RawFiles,
    Pipeline,
    Capture,
    Manifest,
}

/// What had been started before, and is to be ended again.
#[derive(Clone, Copy, Debug, PartialEq, Eq, Structural)]
pub struct Cleanup {
    pub stop_capture: bool,
    pub complete_files: bool,
    pub finish_pipeline: bool,
}

/// The part of the service that a stage belongs to.
pub open spec fn stage_source(stage: StartupStage) -> ErrorSource {
    match stage {
        StartupStage::Device => ErrorSource::Device,
        StartupStage::RawFiles => ErrorSource::RawWav,
        StartupStage::Pipeline => ErrorSource::Pipeline,
        StartupStage::Capture => ErrorSource::Capture,
        StartupStage::Manifest => ErrorSource::RawWav,
    }
}

pub fn startup_source(stage: StartupStage) -> (source: ErrorSource)
    ensures
        source == stage_source(stage),
{
    match stage {
        StartupStage::Device => ErrorSource::Device,
        StartupStage::RawFiles => ErrorSource::RawWav,
        StartupStage::Pipeline => ErrorSource::Pipeline,
        StartupStage::Capture => ErrorSource::Capture,
        StartupStage::Manifest => ErrorSource::RawWav,
    }
}

/// The stages come in order; what a stage that succeeded has opened, a later failure closes.
pub fn startup_cleanup(stage: StartupStage) -> (cleanup: Cleanup)
    ensures
        cleanup.complete_files == !(stage is Device || stage is RawFiles),
        cleanup.finish_pipeline == (stage is Capture || stage is Manifest),
        cleanup.stop_capture == stage is Manifest,
        closes(stage, cleanup),
{
    match stage {
        StartupStage::Device | StartupStage::RawFiles => Cleanup {
            stop_capture: false,
            complete_files: false,
            finish_pipeline: false,
        },
        StartupStage::Pipeline => Cleanup {
            stop_capture: false,
            complete_files: true,
            finish_pipeline: false,
        },
        StartupStage::Capture => Cleanup {
            stop_capture: false,
            complete_files: true,
            finish_pipeline: true,
        },
        StartupStage::Manifest => Cleanup {
            stop_capture: true,
            complete_files: true,
            finish_pipeline: true,
        },
    }
}

/// The manifest of a recording that is under way.
pub fn mark_recording(manifest: &mut SessionManifest, stats: &[FileStat; 6])
    ensures
        file_views(final(manifest).files@) == session_files(old(manifest).prefix@, stats@),
        *final(manifest) == (SessionManifest {
            status: SessionResultStatus::Recording,
            files: final(manifest).files,
            ..*old(manifest)
        }),
{
    manifest.status = SessionResultStatus::Recording;
    manifest.refresh_files(stats);
}

/// An error with a source and a code.
pub open spec fn service_error(
    error: ServiceError,
    source: ErrorSource,
    code: Seq<char>,
    message: Seq<char>,
) -> bool {
    &&& error.source == source
    &&& error.code@ == code
    &&& error.message@ == message
    &&& error.field is None
}

/// The manifest of a recording that could not start, and the error to report.
pub fn startup_failure(
    manifest: &mut SessionManifest,
    stage: StartupStage,
    error: &str,
    finished_at: String,
    stats: &[FileStat; 6],
) -> (report: ServiceError)
    ensures
        service_error(report, stage_source(stage), "startup_failed"@, error@),
        final(manifest).error matches Some(e) && service_error(
            e,
            stage_source(stage),
            "startup_failed"@,
            error@,
        ),
        file_views(final(manifest).files@) == session_files(old(manifest).prefix@, stats@),
        *final(manifest) == (SessionManifest {
            status: SessionResultStatus::Failed,
            error: final(manifest).error,
            finished_at: Some(finished_at),
            files: final(manifest).files,
            ..*old(manifest)
        }),
{
    let source = startup_source(stage);
    manifest.status = SessionResultStatus::Failed;
    manifest.error = Some(ServiceError::new(source, "startup_failed", error.to_owned()));
    manifest.finished_at = Some(finished_at);
    manifest.refresh_files(stats);
    ServiceError::new(source, "startup_failed", error.to_owned())
}

/// The counts of the beamformer among those of the processing modules.
pub open spec fn beamformer_counts(stats: Option<PipelineWorkerStats>) -> Option<BeamformerStats> {
    match stats {
        Some(s) => s.bf_stats,
        None => None,
    }
}

/// The manifest of a recording that has ended.
pub fn finish_manifest(
    manifest: &mut SessionManifest,
    result: &LoopResult,
    finished_at: String,
    stats: &[FileStat; 6],
)
    ensures
        match result.error {
            Some(error) => {
                &&& final(manifest).status == SessionResultStatus::Failed
                &&& final(manifest).error matches Some(e) && service_error(
                    e,
                    result.error_source,
                    "recording_failed"@,
                    error@,
                )
            },
            None => {
                &&& final(manifest).status == SessionResultStatus::Success
                &&& final(manifest).error is None
            },
        },
        file_views(final(manifest).files@) == session_files(old(manifest).prefix@, stats@),
        *final(manifest) == (SessionManifest {
            status: final(manifest).status,
            error: final(manifest).error,
            captured_frames: result.captured_frames,
            pipeline_stats: result.pipeline_stats,
            bf_stats: beamformer_counts(result.pipeline_stats),
            finished_at: Some(finished_at),
            files: final(manifest).files,
            ..*old(manifest)
        }),
{
    manifest.captured_frames = result.captured_frames;
    manifest.pipeline_stats = result.pipeline_stats;
    manifest.bf_stats = match result.pipeline_stats {
        Some(s) => s.bf_stats,
        None => None,
    };
    match &result.error {
        Some(error) => {
            manifest.status = SessionResultStatus::Failed;
            manifest.error = Some(
                ServiceError::new(result.error_source, "recording_failed", error.clone()),
            );
        },
        None => {
            manifest.status = SessionResultStatus::Success;
            manifest.error = None;
        },
    }
    manifest.finished_at = Some(finished_at);
    manifest.refresh_files(stats);
}

/// What a recording returns: its own error before that of saving its manifest.
pub fn recording_result(
    manifest: &SessionManifest,
    out_dir: &str,
    error: Option<String>,
    save_error: Option<String>,
) -> (result: Result<RecordingSummary, String>)
    ensures
        match (error, save_error) {
            (Some(e), _) => result == Err::<RecordingSummary, String>(e),
            (None, Some(e)) => result == Err::<RecordingSummary, String>(e),
            (None, None) => result matches Ok(summary) && {
                &&& summary.session_id == manifest.session_id
                &&& summary.prefix == manifest.prefix
                &&& summary.out_dir@ == out_dir@
                &&& summary.captured_frames == manifest.captured_frames
                &&& summary.pipeline_stats == manifest.pipeline_stats
                &&& summary.bf_stats == manifest.bf_stats
            },
        },
{
    match (error, save_error) {
        (Some(e), _) => Err(e),
        (None, Some(e)) => Err(e),
        (None, None) => Ok(
            RecordingSummary {
                session_id: manifest.session_id.clone(),
                prefix: manifest.prefix.clone(),
                out_dir: out_dir.to_owned(),
                captured_frames: manifest.captured_frames,
                pipeline_stats: manifest.pipeline_stats,
                bf_stats: manifest.bf_stats,
            },
        ),
    }
}

proof fn lemma_appended_in_front(first: Option<Seq<char>>, error: Seq<char>)
    ensures
        stays_in_front(first, appended(first, error)),
{
    if let Some(text) = first {
        assert((text + "; "@ + error).take(text.len() as int) =~= text);
    }
}

/// The loop after block upon block was handed to the processing modules.
pub open spec fn after_pushes(
    recording: RecordingLoop,
    results: Seq<Result<(), String>>,
) -> RecordingLoop
    decreases results.len(),
{
    if results.len() == 0 {
        recording
    } else {
        after_pushes(recording, results.drop_last()).after_push(results.last())
    }
}

/// A failure of the processing modules spares the raw recording: the loop goes on as before, the
/// modules get no more blocks, and when the recording ends their first error is reported before
/// any other.
pub proof fn law_failed_modules_spare_the_recording(
    recording: RecordingLoop,
    error: String,
    pushed_later: Seq<Result<(), String>>,
    finished: Result<PipelineWorkerStats, String>,
)
    requires
        recording.dispatch is Active,
    ensures
        ({
            let failed = recording.after_push(Err(error));
            &&& failed.draining == recording.draining
            &&& failed.frames == recording.frames
            &&& failed.first_error == recording.first_error
            &&& failed.stopping_pending == recording.stopping_pending
            &&& after_pushes(failed, pushed_later) == failed
            &&& stays_in_front(
                Some(led_by(error@, held(recording.first_error))),
                after_pushes(failed, pushed_later).error_after_modules(finished),
            )
            &&& stays_in_front(
                Some(error@),
                after_pushes(failed, pushed_later).error_after_modules(finished),
            )
        }),
    decreases pushed_later.len(),
{
    let shown = Some(led_by(error@, held(recording.first_error)));
    lemma_led_by(error@, None, held(recording.first_error));
    if let Err(e) = finished {
        lemma_appended_in_front(shown, e@);
        lemma_stays_in_front(Some(error@), shown, appended(shown, e@));
    }
    if pushed_later.len() > 0 {
        law_failed_modules_spare_the_recording(
            recording,
            error,
            pushed_later.drop_last(),
            finished,
        );
    }
}

/// Whatever happens in a recording, the loop never goes back: it keeps stopping, it loses no
/// frame, and it loses no error. Once the processing modules get no more blocks, what is reported
/// first stays first.
pub proof fn law_loop_never_goes_back(states: Seq<RecordingLoop>, i: int, j: int)
    requires
        0 <= i <= j < states.len(),
        forall|k: int|
            0 <= k < states.len() - 1 ==> (#[trigger] states[k]).goes_on_to(states[k + 1]),
    ensures
        states[i].draining ==> states[j].draining,
        states[i].frames <= states[j].frames,
        states[j].dispatch is Active ==> states[i].dispatch is Active,
        stays_told(states[i].reported(), states[j].reported()),
        !(states[i].dispatch is Active) ==> stays_in_front(
            states[i].reported(),
            states[j].reported(),
        ),
    decreases j - i,
{
    if i < j {
        law_loop_never_goes_back(states, i, j - 1);
        assert(states[j - 1].goes_on_to(states[j - 1 + 1]));
        lemma_stays_told(states[i].reported(), states[j - 1].reported(), states[j].reported());
        if !(states[i].dispatch is Active) {
            lemma_stays_in_front(
                states[i].reported(),
                states[j - 1].reported(),
                states[j].reported(),
            );
        }
    } else {
        lemma_in_front_is_told(states[i].reported(), states[i].reported());
    }
}

/// The stopping of a recording is announced at most once.
pub proof fn law_stopping_is_announced_once(
    states: Seq<RecordingLoop>,
    notices: Seq<bool>,
    i: int,
    j: int,
)
    requires
        states.len() == notices.len() + 1,
        forall|k: int|
            0 <= k < notices.len() ==> (#[trigger] states[k]).announces(states[k + 1], notices[k]),
        0 <= i < j < notices.len(),
        notices[i],
    ensures
        !notices[j],
{
    assert(states[i].announces(states[i + 1], notices[i]));
    lemma_announced_stays(states, notices, i + 1, j);
    assert(states[j].announces(states[j + 1], notices[j]));
}

proof fn lemma_announced_stays(states: Seq<RecordingLoop>, notices: Seq<bool>, i: int, j: int)
    requires
        states.len() == notices.len() + 1,
        forall|k: int|
            0 <= k < notices.len() ==> (#[trigger] states[k]).announces(states[k + 1], notices[k]),
        0 <= i <= j < states.len(),
        !states[i].stopping_pending,
    ensures
        !states[j].stopping_pending,
    decreases j - i,
{
    if i < j {
        lemma_announced_stays(states, notices, i, j - 1);
        assert(states[j - 1].announces(states[j - 1 + 1], notices[j - 1]));
    }
}

/// A prefix that was asked for is used, and the fallback only where none was.
pub proof fn law_requested_prefix_is_used(recording: RecordingConfig, fallback: Seq<char>)
    ensures
        recording.prefix matches Some(prefix) ==> used_prefix(recording, fallback) == prefix@,
        recording.prefix is None ==> used_prefix(recording, fallback) == fallback,
{
}

proof fn lemma_occurs_between(a: Seq<char>, needle: Seq<char>, b: Seq<char>)
    ensures
        contains_text(a + needle + b, needle),
{
    let s = a + needle + b;
    let i = a.len() as int;
    assert(s.subrange(i, i + needle.len()) =~= needle);
    assert(occurs_at(s, needle, i));
}

/// An error that speaks of the pipeline or of the algorithm worker anywhere, in small or capital
/// letters, is one of the modules; of the others, one that speaks of WAV, of writing or of
/// completing is one of the files; all that are left are of the capture.
pub proof fn law_errors_are_told_apart_by_their_text(
    error: Seq<char>,
    a: Seq<char>,
    b: Seq<char>,
)
    ensures
        ascii_lowered(error) == a + "pipeline"@ + b ==> error_source_of(error) is Pipeline,
        ascii_lowered(error) == a + "algorithm worker"@ + b ==> error_source_of(error) is Pipeline,
        !contains_text(ascii_lowered(error), "pipeline"@) && !contains_text(
            ascii_lowered(error),
            "algorithm worker"@,
        ) ==> {
            &&& ascii_lowered(error) == a + "wav"@ + b ==> error_source_of(error) is RawWav
            &&& error == a + "写入"@ + b ==> error_source_of(error) is RawWav
            &&& error == a + "完成"@ + b ==> error_source_of(error) is RawWav
            &&& !contains_text(ascii_lowered(error), "wav"@) && !contains_text(error, "写入"@)
                && !contains_text(error, "完成"@) ==> error_source_of(error) is Capture
        },
{
    lemma_occurs_between(a, "pipeline"@, b);
    lemma_occurs_between(a, "algorithm worker"@, b);
    lemma_occurs_between(a, "wav"@, b);
    lemma_occurs_between(a, "写入"@, b);
    lemma_occurs_between(a, "完成"@, b);
}

/// An error that comes behind others is told behind them, and one that comes first stands alone;
/// where only one is kept it is the first.
pub proof fn law_errors_follow_each_other(first: Option<Seq<char>>, error: Seq<char>)
    ensures
        first matches Some(text) ==> appended(first, error) == Some(text + "; "@ + error),
        first is None ==> appended(first, error) == Some(error),
        stays_in_front(first, appended(first, error)),
        stays_told(Some(error), appended(first, error)),
        first is Some ==> standing(first, error) == first,
        first is None ==> standing(first, error) == Some(error),
{
    lemma_appended_in_front(first, error);
    let whole = appended(first, error)->0;
    let at = whole.len() - error.len();
    assert(whole.subrange(at, at + error.len()) =~= error);
    assert(occurs_at(whole, error, at));
}

/// Completing a file changes what is reported only where it fails, and then tells the file and the
/// reason behind all that was reported before.
pub proof fn law_failed_completions_are_told(
    first: Option<Seq<char>>,
    path: Seq<char>,
    error: String,
)
    ensures
        after_completing(first, path, Ok(())) == first,
        stays_in_front(first, after_completing(first, path, Err(error))),
        stays_told(Some(path), after_completing(first, path, Err(error))),
        stays_told(Some(error@), after_completing(first, path, Err(error))),
{
    let message = complete_message(path, error@);
    law_errors_follow_each_other(first, message);
    lemma_completion_tells(path, error@);
    lemma_stays_told(Some(path), Some(message), appended(first, message));
    lemma_stays_told(Some(error@), Some(message), appended(first, message));
}

proof fn lemma_completion_tells(path: Seq<char>, error: Seq<char>)
    ensures
        contains_text(complete_message(path, error), path),
        contains_text(complete_message(path, error), error),
{
    let head = "完成 "@;
    let middle = " 失败: "@;
    let message = complete_message(path, error);
    let i = head.len() as int;
    assert(message.subrange(i, i + path.len()) =~= path);
    assert(occurs_at(message, path, i));
    let j = i + path.len() + middle.len();
    assert(message.subrange(j, j + error.len()) =~= error);
    assert(occurs_at(message, error, j));
}

/// At the end every error of the modules is told: with modules that ran to their end nothing is
/// added; the error of their end is told behind all others, but not a second time where it is the
/// one that made them fail.
pub proof fn law_errors_of_the_modules_are_told(
    recording: RecordingLoop,
    finished: Result<PipelineWorkerStats, String>,
)
    ensures
        finished is Ok || recording.dispatch is Disabled ==> recording.error_after_modules(finished)
            == recording.reported(),
        finished matches Err(e) ==> {
            &&& recording.dispatch is Active ==> recording.error_after_modules(finished) == (
            match held(recording.first_error) {
                Some(text) => Some(text + "; "@ + e@),
                None => Some(e@),
            })
            &&& recording.dispatch matches PipelineDispatchState::Failed { first_error } ==> {
                &&& e@ == first_error@ ==> recording.error_after_modules(finished)
                    == recording.reported()
                &&& e@ != first_error@ ==> recording.error_after_modules(finished) == Some(
                    recording.reported()->0 + "; "@ + e@,
                )
            }
        },
        recording.dispatch matches PipelineDispatchState::Failed { first_error }
            ==> recording.reported() == (match held(recording.first_error) {
            Some(text) => Some(first_error@ + "; "@ + text),
            None => Some(first_error@),
        }),
        !(recording.dispatch is Failed) ==> recording.reported() == held(recording.first_error),
{
}

/// Modules that fail while they run get no more blocks; while they succeed, and where there are
/// none, nothing changes.
pub proof fn law_only_failures_switch_the_modules_off(
    recording: RecordingLoop,
    result: Result<(), String>,
)
    ensures
        result is Ok ==> recording.after_push(result) == recording,
        !(recording.dispatch is Active) ==> recording.after_push(result) == recording,
        recording.dispatch is Active && result is Err ==> recording.after_push(result).dispatch
            == (PipelineDispatchState::Failed { first_error: result->Err_0 }),
{
}

/// A start that fails is blamed on the part of the service that its stage belongs to.
pub proof fn law_failed_starts_are_blamed_on_their_stage(stage: StartupStage)
    ensures
        stage_source(stage) is Device <==> stage is Device,
        stage_source(stage) is Pipeline <==> stage is Pipeline,
        stage_source(stage) is Capture <==> stage is Capture,
        stage_source(stage) is RawWav <==> stage is RawFiles || stage is Manifest,
{
}

/// The text of a failure.
pub open spec fn failure_of(result: Result<(), String>) -> Option<Seq<char>> {
    match result {
        Ok(()) => None,
        Err(e) => Some(e@),
    }
}

/// What happens in the loop of a recording, and what the loop then asks for.
pub enum LoopEvent {
    Turn { stop_requested: bool, deadline_passed: bool, action: TurnAction },
    Pushed,
    Written { failure: Option<Seq<char>>, frames: nat, action: TurnAction },
    CaptureEnded { failure: Option<Seq<char>>, notify: bool },
    FilesCompleted,
    ModulesEnded,
}

impl LoopEvent {
    /// How many frames were written.
    pub open spec fn frames_written(self) -> nat {
        match self {
            LoopEvent::Written { failure, frames, .. } => if failure is None {
                frames
            } else {
                0
            },
            _ => 0,
        }
    }

    /// The capture is told to stop.
    pub open spec fn tells_capture(self) -> bool {
        match self {
            LoopEvent::Turn { action, .. } => action.set_stop,
            LoopEvent::Written { action, .. } => action.set_stop,
            _ => false,
        }
    }

    /// The stopping of the recording is announced.
    pub open spec fn announces_stopping(self) -> bool {
        match self {
            LoopEvent::Turn { action, .. } => action.notify_stopping,
            LoopEvent::Written { action, .. } => action.notify_stopping,
            LoopEvent::CaptureEnded { notify, .. } => notify,
            _ => false,
        }
    }
}

/// One step of the loop.
pub open spec fn loop_step(before: RecordingLoop, event: LoopEvent, after: RecordingLoop) -> bool {
    &&& before.goes_on_to(after)
    &&& before.announces(after, event.announces_stopping())
    &&& after.draining == (before.draining || match event {
        LoopEvent::Turn { stop_requested, deadline_passed, .. } => stop_requested
            || deadline_passed,
        LoopEvent::Written { failure, .. } => failure is Some,
        _ => false,
    })
    &&& after.frames == before.frames + event.frames_written()
    &&& match event {
        LoopEvent::Turn { deadline_passed, action, .. } => {
            &&& action.set_stop == (deadline_passed && !before.draining)
            &&& action.set_stop ==> !after.stopping_pending
            &&& !action.set_stop ==> !action.notify_stopping
        },
        LoopEvent::Written { failure: Some(e), action, .. } => {
            &&& action.set_stop
            &&& !after.stopping_pending
            &&& before.first_error is None ==> held(after.first_error) == Some(e)
        },
        LoopEvent::Written { failure: None, action, .. } => !action.set_stop
            && !action.notify_stopping,
        LoopEvent::CaptureEnded { failure: Some(e), .. } => {
            &&& !after.stopping_pending
            &&& held(after.first_error) == appended(held(before.first_error), e)
        },
        _ => true,
    }
}

/// How many frames some events have written.
pub open spec fn frames_of(events: Seq<LoopEvent>) -> nat
    decreases events.len(),
{
    if events.len() == 0 {
        0
    } else {
        frames_of(events.drop_last()) + events.last().frames_written()
    }
}

/// The states of a loop follow one another by its events, from a loop that has just begun.
pub open spec fn is_run(states: Seq<RecordingLoop>, events: Seq<LoopEvent>) -> bool {
    &&& states.len() == events.len() + 1
    &&& !states[0].draining && states[0].frames == 0 && states[0].first_error is None
    &&& states[0].stopping_pending
    &&& forall|k: int|
        0 <= k < events.len() ==> loop_step(states[k], #[trigger] events[k], states[k + 1])
}

/// Over a whole recording, the frames that are reported are those of all blocks that could be
/// written; and the recording stops if and only if it was asked to, its time is over, or a block
/// could not be written.
pub proof fn law_recordings_stop_for_a_reason(
    states: Seq<RecordingLoop>,
    events: Seq<LoopEvent>,
    n: int,
)
    requires
        is_run(states, events),
        0 <= n <= events.len(),
    ensures
        states[n].frames == frames_of(events.take(n)),
        states[n].draining <==> exists|k: int| 0 <= k < n && #[trigger] is_reason(events[k]),
    decreases n,
{
    if n > 0 {
        law_recordings_stop_for_a_reason(states, events, n - 1);
        assert(loop_step(states[n - 1], events[n - 1], states[n - 1 + 1]));
        assert(events.take(n).drop_last() =~= events.take(n - 1));
        assert(events.take(n).last() == events[n - 1]);
        if states[n - 1].draining {
            let k = choose|k: int| 0 <= k < n - 1 && #[trigger] is_reason(events[k]);
            assert(is_reason(events[k]));
        }
        if is_reason(events[n - 1]) {
            assert(0 <= n - 1 < n && is_reason(events[n - 1]));
        }
    } else {
        assert(events.take(0) =~= Seq::<LoopEvent>::empty());
    }
}

/// A reason to stop: somebody asked for it, the time is over, or a block could not be written.
pub open spec fn is_reason(event: LoopEvent) -> bool {
    match event {
        LoopEvent::Turn { stop_requested, deadline_passed, .. } => stop_requested
            || deadline_passed,
        LoopEvent::Written { failure, .. } => failure is Some,
        _ => false,
    }
}

/// The capture is told to stop when the time of a recording that was not stopping is over and when a
/// block could not be written, and never otherwise; and where it was told, or has ended with a
/// failure, the stopping has been announced.
pub proof fn law_stopping_is_told_and_announced(
    states: Seq<RecordingLoop>,
    events: Seq<LoopEvent>,
    k: int,
    n: int,
)
    requires
        is_run(states, events),
        0 <= k < n <= events.len(),
    ensures
        events[k].tells_capture() <==> match events[k] {
            LoopEvent::Turn { deadline_passed, .. } => deadline_passed && !states[k].draining,
            LoopEvent::Written { failure, .. } => failure is Some,
            _ => false,
        },
        events[k].tells_capture() || (events[k] matches LoopEvent::CaptureEnded { failure, .. }
            && failure is Some) ==> !states[n].stopping_pending,
        !states[n].stopping_pending <==> exists|i: int|
            0 <= i < n && (#[trigger] events[i]).announces_stopping(),
    decreases n,
{
    assert(loop_step(states[k], events[k], states[k + 1]));
    assert(loop_step(states[n - 1], events[n - 1], states[n - 1 + 1]));
    if n > 1 {
        if k < n - 1 {
            law_stopping_is_told_and_announced(states, events, k, n - 1);
        } else {
            law_stopping_is_told_and_announced(states, events, 0, n - 1);
        }
        if !states[n - 1].stopping_pending {
            let i = choose|i: int| 0 <= i < n - 1 && (#[trigger] events[i]).announces_stopping();
            assert(events[i].announces_stopping());
        }
    }
    if events[n - 1].announces_stopping() {
        assert(0 <= n - 1 < n);
    }
    if exists|i: int| 0 <= i < n && (#[trigger] events[i]).announces_stopping() {
        let i = choose|i: int| 0 <= i < n && (#[trigger] events[i]).announces_stopping();
        if i < n - 1 {
            assert(events[i].announces_stopping());
        }
    }
}

/// The failure of the first block that could not be written, and that of the end of the capture, are
/// reported at the end, whatever happens afterwards.
pub proof fn law_failures_are_reported(
    states: Seq<RecordingLoop>,
    events: Seq<LoopEvent>,
    k: int,
    n: int,
)
    requires
        is_run(states, events),
        0 <= k < n <= events.len(),
    ensures
        events[k] matches LoopEvent::CaptureEnded { failure: Some(e), .. } ==> stays_told(
            Some(e),
            states[n].reported(),
        ),
        events[k] matches LoopEvent::Written { failure: Some(e), .. } ==> states[k].first_error
            is None ==> stays_told(Some(e), states[n].reported()),
{
    assert(loop_step(states[k], events[k], states[k + 1]));
    assert forall|i: int| 0 <= i < states.len() - 1 implies (#[trigger] states[i]).goes_on_to(
        states[i + 1],
    ) by {
        assert(loop_step(states[i], events[i], states[i + 1]));
    }
    law_loop_never_goes_back(states, k + 1, n);
    let now = states[k + 1];
    if let Some(text) = held(now.first_error) {
        if let PipelineDispatchState::Failed { first_error } = now.dispatch {
            lemma_led_by(first_error@, Some(text), Some(text));
        } else {
            lemma_in_front_is_told(Some(text), Some(text));
        }
        lemma_stays_told(Some(text), now.reported(), states[n].reported());
        if let LoopEvent::CaptureEnded { failure: Some(e), .. } = events[k] {
            law_errors_follow_each_other(held(states[k].first_error), e);
            lemma_stays_told(Some(e), Some(text), states[n].reported());
        }
    }
}

/// What is reported of modules that fail: an error of the pipeline with its text and no field, and a
/// status that shows them as switched on and degraded by it.
pub proof fn law_reports_of_failed_modules(
    report: PipelineReport,
    code: Seq<char>,
    message: Seq<char>,
)
    requires
        pipeline_error(report.error, code, message),
        degraded_status(report.status, message),
    ensures
        report.error.source is Pipeline,
        report.error.code@ == code,
        report.error.message@ == message,
        report.error.field is None,
        report.status.enabled,
        report.status.degraded,
        report.status.error is Some && report.status.error->0@ == message,
        service_error(report.error, ErrorSource::Pipeline, code, message),
{
}

/// The counts of the beamformer are those of the modules, where there are any.
pub proof fn law_counts_of_the_beamformer(stats: Option<PipelineWorkerStats>)
    ensures
        stats matches Some(s) ==> beamformer_counts(stats) == s.bf_stats,
        stats is None ==> beamformer_counts(stats) is None,
{
}

/// The place of a stage in the order in which a recording starts.
pub open spec fn stage_place(stage: StartupStage) -> int {
    match stage {
        StartupStage::Device => 0,
        StartupStage::RawFiles => 1,
        StartupStage::Pipeline => 2,
        StartupStage::Capture => 3,
        StartupStage::Manifest => 4,
    }
}

/// What is closed when a stage fails: the files once they were opened, the modules once they were
/// started, the capture once it was.
pub open spec fn closes(stage: StartupStage, cleanup: Cleanup) -> bool {
    &&& cleanup.complete_files <==> stage_place(stage) > stage_place(StartupStage::RawFiles)
    &&& cleanup.finish_pipeline <==> stage_place(stage) > stage_place(StartupStage::Pipeline)
    &&& cleanup.stop_capture <==> stage_place(stage) > stage_place(StartupStage::Capture)
}

/// What a failure closes, every later failure closes too; the first stages leave nothing to close,
/// and the last one everything.
pub proof fn law_later_failures_close_more(
    stage: StartupStage,
    cleanup: Cleanup,
    later: StartupStage,
    more: Cleanup,
)
    requires
        closes(stage, cleanup),
        closes(later, more),
        stage_place(stage) <= stage_place(later),
    ensures
        cleanup.complete_files ==> more.complete_files,
        cleanup.finish_pipeline ==> more.finish_pipeline,
        cleanup.stop_capture ==> more.stop_capture,
        stage is Device || stage is RawFiles ==> !cleanup.complete_files && !cleanup.finish_pipeline
            && !cleanup.stop_capture,
        stage is Manifest ==> cleanup.complete_files && cleanup.finish_pipeline
            && cleanup.stop_capture,
        stage is Pipeline ==> cleanup.complete_files && !cleanup.finish_pipeline,
        stage is Capture ==> cleanup.finish_pipeline && !cleanup.stop_capture,
{
}

} // verus!

//! What the web service answers: statuses, ranges of files, how a file is sent, and how many
//! clients may listen.

use vstd::prelude::*;
use vstd::string::*;

use crate::app_config::AppConfigError;
use crate::events::{ServicePhase, ServiceSnapshot};
use crate::pipeline::PipelineConfigError;
use crate::recordings::{
    entry_views, first_with_id, take_entry, RecordingEntry, SessionFile,
};
use crate::text::{
    begins_with, chars_of, contains_str, contains_text, decimal, has_head, law_decimal_reads_back,
    part_of, push_decimal, same_text, strip_head,
};

verus! {

pub const DEFAULT_MAX_CLIENTS: usize = 8;

pub const STATUS_OK: u16 = 200;

pub const STATUS_PARTIAL_CONTENT: u16 = 206;

pub const STATUS_NOT_FOUND: u16 = 404;

pub const STATUS_CONFLICT: u16 = 409;

pub const STATUS_UNPROCESSABLE: u16 = 422;

pub const STATUS_INTERNAL_ERROR: u16 = 500;

/// A file is read in pieces of at most this many bytes.
pub const CHUNK_BYTES: u64 = 65_536;

/// The address that the service listens on: this machine only.
pub fn default_bind() -> (address: &'static str)
    ensures
        address@ == "127.0.0.1:8765"@,
{
    "127.0.0.1:8765"
}

/// The status that answers an error, going by its text.
pub open spec fn error_status(error: Seq<char>) -> u16 {
    if begins_with(error, "conflict:"@) || contains_text(error, "目标文件已存在"@) || contains_text(
        error,
        "目标已存在"@,
    ) {
        STATUS_CONFLICT
    } else if contains_text(error, "不存在"@) || contains_text(error, "文件不属于"@) {
        STATUS_NOT_FOUND
    } else if contains_text(error, "配置"@) || contains_text(error, "profile"@) || contains_text(
        error,
        "prefix"@,
    ) {
        STATUS_UNPROCESSABLE
    } else {
        STATUS_INTERNAL_ERROR
    }
}

/// The text of an error without the marks in front of it.
pub open spec fn unmarked(error: Seq<char>) -> Seq<char>
    decreases error.len(),
{
    if begins_with(error, "conflict:"@) && "conflict:"@.len() > 0 {
        unmarked(error.skip("conflict:"@.len() as int))
    } else {
        error
    }
}

/// The answer to a request that failed. Where a field of a configuration is at fault it is named.
#[derive(Debug)]
pub struct ErrorAnswer {
    pub status: u16,
    pub code: String,
    pub message: String,
    pub field: Option<String>,
}

fn without_marks(error: String) -> (message: String)
    ensures
        message@ == unmarked(error@),
    decreases error@.len(),
{
    proof {
        reveal_strlit("conflict:");
    }
    match strip_head(error.as_str(), "conflict:") {
        Some(rest) => {
            assert(rest@ =~= error@.skip("conflict:"@.len() as int));
            without_marks(rest)
        },
        None => error,
    }
}

pub fn map_error(error: String) -> (answer: ErrorAnswer)
    ensures
        answer.status == error_status(error@),
        answer.code@ == "request_failed"@,
        answer.message@ == unmarked(error@),
        answer.field is None,
{
    let text = error.as_str();
    let status: u16 = if strip_head(text, "conflict:").is_some() || contains_str(
        text,
        "目标文件已存在",
    ) || contains_str(text, "目标已存在") {
        STATUS_CONFLICT
    } else if contains_str(text, "不存在") || contains_str(text, "文件不属于") {
        STATUS_NOT_FOUND
    } else if contains_str(text, "配置") || contains_str(text, "profile") || contains_str(
        text,
        "prefix",
    ) {
        STATUS_UNPROCESSABLE
    } else {
        STATUS_INTERNAL_ERROR
    };
    ErrorAnswer {
        status,
        code: "request_failed".to_owned(),
        message: without_marks(error),
        field: None,
    }
}

/// The status that a configuration is refused with: that of a conflict where a module depends on
/// one that is not there, and that of an unprocessable request otherwise.
pub open spec fn config_status(error: AppConfigError) -> u16 {
    if error == AppConfigError::Pipeline(PipelineConfigError::DirectionNeedsDoa) {
        STATUS_CONFLICT
    } else {
        STATUS_UNPROCESSABLE
    }
}

/// The answer to a configuration that is well written but refused.
pub fn config_answer(
    error: &AppConfigError,
    message: String,
    field: Option<String>,
) -> (answer: ErrorAnswer)
    ensures
        answer == (ErrorAnswer {
            status: config_status(*error),
            code: answer.code,
            message,
            field,
        }),
        answer.code@ == "invalid_config"@,
{
    let status: u16 = match error {
        AppConfigError::Pipeline(PipelineConfigError::DirectionNeedsDoa) => STATUS_CONFLICT,
        _ => STATUS_UNPROCESSABLE,
    };
    ErrorAnswer { status, code: "invalid_config".to_owned(), message, field }
}

/// Text marked as a conflict is answered as one, whatever it says.
pub proof fn law_conflicts_are_answered_as_such(text: Seq<char>)
    ensures
        error_status("conflict:"@ + text) == STATUS_CONFLICT,
        unmarked("conflict:"@ + text) == unmarked(text),
{
    reveal_strlit("conflict:");
    let marked = "conflict:"@ + text;
    assert(marked.take("conflict:"@.len() as int) =~= "conflict:"@);
    assert(marked.skip("conflict:"@.len() as int) =~= text);
}

pub open spec fn is_digit(c: char) -> bool {
    '0' <= c && c <= '9'
}

/// The number that digits stand for.
pub open spec fn digits_value(s: Seq<char>) -> nat
    decreases s.len(),
{
    if s.len() == 0 {
        0
    } else {
        10 * digits_value(s.drop_last()) + (s.last() as nat - '0' as nat) as nat
    }
}

pub open spec fn all_digits(s: Seq<char>) -> bool {
    forall|i: int| 0 <= i < s.len() ==> is_digit(#[trigger] s[i])
}

/// The digits of a number, behind a plus sign where there is one.
pub open spec fn unsigned_part(s: Seq<char>) -> Seq<char> {
    if s.len() > 0 && s[0] == '+' {
        s.skip(1)
    } else {
        s
    }
}

/// The number that a text stands for: digits, at least one, after an optional plus sign, of a
/// value that 64 bits can hold.
pub open spec fn parsed(s: Seq<char>) -> Option<u64> {
    let d = unsigned_part(s);
    if d.len() > 0 && all_digits(d) && digits_value(d) <= u64::MAX {
        Some(digits_value(d) as u64)
    } else {
        None
    }
}

proof fn lemma_value_grows(s: Seq<char>, n: int)
    requires
        0 <= n <= s.len(),
        all_digits(s),
    ensures
        digits_value(s.take(n)) <= digits_value(s),
    decreases s.len(),
{
    if n < s.len() {
        assert(s.drop_last().take(n) =~= s.take(n));
        assert forall|i: int| 0 <= i < s.drop_last().len() implies is_digit(
            #[trigger] s.drop_last()[i],
        ) by {
            assert(s.drop_last()[i] == s[i]);
        }
        lemma_value_grows(s.drop_last(), n);
        assert(is_digit(s[s.len() - 1]));
    } else {
        assert(s.take(n) =~= s);
    }
}

fn digit_value(c: char) -> (d: u64)
    requires
        is_digit(c),
    ensures
        d == c as nat - '0' as nat,
        d < 10,
{
    (c as u32 - '0' as u32) as u64
}

pub fn parse_number(s: &[char]) -> (n: Option<u64>)
    ensures
        n == parsed(s@),
{
    let signed = s.len() > 0 && s[0] == '+';
    let from: usize = if signed {
        1
    } else {
        0
    };
    let ghost d = unsigned_part(s@);
    assert(d =~= s@.skip(from as int));
    if s.len() == from {
        return None;
    }
    let mut value: u64 = 0;
    for i in from..s.len()
        invariant
            from <= s@.len(),
            d == s@.skip(from as int),
            d == unsigned_part(s@),
            d.len() > 0,
            forall|k: int| 0 <= k < i - from ==> is_digit(#[trigger] d[k]),
            value == digits_value(d.take(i - from)),
    {
        let c = s[i];
        proof {
            assert(d[i - from] == c);
            assert(d.take(i - from + 1).drop_last() =~= d.take(i - from));
            assert(d.take(i - from + 1).last() == c);
        }
        if !(c >= '0' && c <= '9') {
            assert(!is_digit(d[i - from]));
            return None;
        }
        let digit: u64 = digit_value(c);
        assert(digits_value(d.take(i - from + 1)) == 10 * value + digit);
        if value > (u64::MAX - digit) / 10 {
            proof {
                assert(10 * value + digit > u64::MAX);
                if all_digits(d) {
                    lemma_value_grows(d, i - from + 1);
                }
            }
            return None;
        }
        value = value * 10 + digit;
    }
    assert(d.take(d.len() as int) =~= d);
    Some(value)
}

/// A part of a file, or all of it. `end` is the last byte.
#[derive(Clone, Copy, Debug, PartialEq, Eq, Structural)]
pub struct FileRange {
    pub status: u16,
    pub start: u64,
    pub end: u64,
    pub total: u64,
}

/// Where the first dash is, from a place on.
pub open spec fn first_dash(s: Seq<char>, from: nat) -> Option<nat>
    decreases s.len() - from,
{
    if from >= s.len() {
        None
    } else if s[from as int] == '-' {
        Some(from)
    } else {
        first_dash(s, from + 1)
    }
}

/// The part of a file between two positions of which either may be missing.
pub open spec fn part_between(total: u64, first: Seq<char>, last: Seq<char>) -> Option<(u64, u64)> {
    if first.len() == 0 {
        match parsed(last) {
            Some(n) => if n == 0 {
                None
            } else {
                Some(
                    (
                        if n >= total {
                            0
                        } else {
                            (total - n) as u64
                        },
                        (total - 1) as u64,
                    ),
                )
            },
            None => None,
        }
    } else {
        match parsed(first) {
            Some(start) => if start >= total {
                None
            } else if last.len() == 0 {
                Some((start, (total - 1) as u64))
            } else {
                match parsed(last) {
                    Some(end) => Some(
                        (
                            start,
                            if end < total {
                                end
                            } else {
                                (total - 1) as u64
                            },
                        ),
                    ),
                    None => None,
                }
            },
            None => None,
        }
    }
}

/// The part of a file of `total` bytes that a range header asks for; `None` where it asks for
/// none. Without a header it is the whole file.
pub open spec fn asked_range(total: u64, range: Option<Seq<char>>) -> Option<FileRange> {
    match range {
        None => Some(
            FileRange {
                status: STATUS_OK,
                start: 0,
                end: if total == 0 {
                    0
                } else {
                    (total - 1) as u64
                },
                total,
            },
        ),
        Some(value) => {
            let rest = value.skip(6);
            if !begins_with(value, "bytes="@) || rest.contains(',') || total == 0 {
                None
            } else {
                match first_dash(rest, 0) {
                    None => None,
                    Some(at) => match part_between(
                        total,
                        rest.take(at as int),
                        rest.skip(at as int + 1),
                    ) {
                        Some((start, end)) => if end < start {
                            None
                        } else {
                            Some(FileRange { status: STATUS_PARTIAL_CONTENT, start, end, total })
                        },
                        None => None,
                    },
                }
            }
        },
    }
}

impl FileRange {
    /// The part lies in the file. An empty file has only the empty part.
    pub open spec fn well_formed(&self) -> bool {
        if self.total == 0 {
            self.start == 0 && self.end == 0 && self.status == STATUS_OK
        } else {
            self.start <= self.end < self.total
        }
    }
}

fn find_dash(s: &[char]) -> (found: Option<usize>)
    ensures
        match found {
            Some(at) => at < s@.len() && first_dash(s@, 0) == Some(at as nat),
            None => first_dash(s@, 0) is None,
        },
{
    for i in 0..s.len()
        invariant
            first_dash(s@, 0) == first_dash(s@, i as nat),
    {
        if s[i] == '-' {
            return Some(i);
        }
    }
    None
}

fn range_part(total: u64, first: &[char], last: &[char]) -> (part: Option<(u64, u64)>)
    requires
        total > 0,
    ensures
        part == part_between(total, first@, last@),
{
    if first.len() == 0 {
        match parse_number(last) {
            Some(n) => {
                if n == 0 {
                    None
                } else {
                    Some((total.saturating_sub(n), total - 1))
                }
            },
            None => None,
        }
    } else {
        match parse_number(first) {
            Some(start) => {
                if start >= total {
                    None
                } else if last.len() == 0 {
                    Some((start, total - 1))
                } else {
                    match parse_number(last) {
                        Some(end) => Some(
                            (
                                start,
                                if end < total {
                                    end
                                } else {
                                    total - 1
                                },
                            ),
                        ),
                        None => None,
                    }
                }
            },
            None => None,
        }
    }
}

pub fn parse_range(total: u64, range: Option<&str>) -> (result: Result<FileRange, ()>)
    ensures
        match result {
            Ok(r) => {
                &&& asked_range(
                    total,
                    match range {
                        Some(value) => Some(value@),
                        None => None,
                    },
                ) == Some(r)
                &&& r.well_formed()
                &&& r.total == total
            },
            Err(()) => asked_range(
                total,
                match range {
                    Some(value) => Some(value@),
                    None => None,
                },
            ) is None,
        },
{
    let value = match range {
        None => {
            return Ok(
                FileRange { status: STATUS_OK, start: 0, end: total.saturating_sub(1), total },
            );
        },
        Some(value) => chars_of(value),
    };
    let head = chars_of("bytes=");
    proof {
        reveal_strlit("bytes=");
        assert("bytes="@.len() == 6);
    }
    if !has_head(value.as_slice(), head.as_slice()) || total == 0 {
        return Err(());
    }
    let rest = part_of(value.as_slice(), 6, value.len());
    assert(rest@ =~= value@.skip(6));
    if crate::text::contains_char(rest.as_slice(), ',') {
        return Err(());
    }
    match find_dash(rest.as_slice()) {
        None => Err(()),
        Some(at) => {
            let first = part_of(rest.as_slice(), 0, at);
            let last = part_of(rest.as_slice(), at + 1, rest.len());
            proof {
                assert(first@ =~= rest@.take(at as int));
                assert(last@ =~= rest@.skip(at as int + 1));
            }
            match range_part(total, first.as_slice(), last.as_slice()) {
                Some((start, end)) => {
                    if end < start {
                        Err(())
                    } else {
                        Ok(FileRange { status: STATUS_PARTIAL_CONTENT, start, end, total })
                    }
                },
                None => Err(()),
            }
        },
    }
}

/// How many bytes of a part there are.
pub open spec fn part_length(r: FileRange) -> nat {
    if r.total == 0 {
        0
    } else {
        (r.end - r.start + 1) as nat
    }
}

pub fn content_length(r: &FileRange) -> (length: u64)
    requires
        r.well_formed(),
    ensures
        length == part_length(*r),
        length <= r.total,
{
    if r.total == 0 {
        0
    } else {
        r.end - r.start + 1
    }
}

/// What the header says of a part that is sent; nothing where the whole file is.
pub fn content_range(r: &FileRange) -> (text: Option<String>)
    ensures
        text is Some <==> r.status == STATUS_PARTIAL_CONTENT,
        text matches Some(t) ==> t@ == "bytes "@ + decimal(r.start as nat) + "-"@ + decimal(
            r.end as nat,
        ) + "/"@ + decimal(r.total as nat),
{
    if r.status != STATUS_PARTIAL_CONTENT {
        return None;
    }
    let mut text = "bytes ".to_owned();
    push_decimal(&mut text, r.start);
    text.append("-");
    push_decimal(&mut text, r.end);
    text.append("/");
    push_decimal(&mut text, r.total);
    Some(text)
}

/// What a file of a kind is sent as.
pub fn content_type(kind: &str) -> (name: &'static str)
    ensures
        name@ == if kind@ == "doa_csv"@ {
            "text/csv; charset=utf-8"@
        } else if kind@ == "manifest"@ {
            "application/json; charset=utf-8"@
        } else {
            "audio/wav"@
        },
{
    if same_text(kind, "doa_csv") {
        "text/csv; charset=utf-8"
    } else if same_text(kind, "manifest") {
        "application/json; charset=utf-8"
    } else {
        "audio/wav"
    }
}

/// The sending of a part of a file, piece by piece.
#[derive(Clone, Copy, Debug, PartialEq, Eq, Structural)]
pub struct FileStream {
    pub remaining: u64,
}

impl FileStream {
    pub fn new(r: &FileRange) -> (stream: Self)
        requires
            r.well_formed(),
        ensures
            stream.remaining == part_length(*r),
    {
        FileStream { remaining: content_length(r) }
    }

    /// How many bytes to read next; nothing once all were sent.
    pub fn next_size(&self) -> (size: Option<u64>)
        ensures
            size == (if self.remaining == 0 {
                None
            } else if self.remaining < CHUNK_BYTES {
                Some(self.remaining)
            } else {
                Some(CHUNK_BYTES)
            }),
            is_next_piece(self.remaining, size),
    {
        if self.remaining == 0 {
            None
        } else if self.remaining < CHUNK_BYTES {
            Some(self.remaining)
        } else {
            Some(CHUNK_BYTES)
        }
    }

    /// Takes in how many bytes were read: at most as many as were asked for. A file that ends
    /// too early is an error, and ends the sending, as does an error of reading.
    pub fn read(&mut self, count: Result<u64, String>) -> (result: Result<(), String>)
        requires
            count matches Ok(n) ==> n <= old(self).remaining,
        ensures
            match count {
                Ok(n) => if n == 0 {
                    &&& result matches Err(message) && message@ == "文件提前结束"@
                    &&& final(self).remaining == 0
                } else {
                    &&& result is Ok
                    &&& final(self).remaining == old(self).remaining - n
                },
                Err(e) => {
                    &&& result == Err::<(), String>(e)
                    &&& final(self).remaining == 0
                },
            },
    {
        match count {
            Ok(n) => {
                if n == 0 {
                    self.remaining = 0;
                    Err("文件提前结束".to_owned())
                } else {
                    self.remaining = self.remaining - n;
                    Ok(())
                }
            },
            Err(e) => {
                self.remaining = 0;
                Err(e)
            },
        }
    }
}

/// What was read of a file, over several pieces.
pub open spec fn sum_of(counts: Seq<u64>) -> nat
    decreases counts.len(),
{
    if counts.len() == 0 {
        0
    } else {
        sum_of(counts.drop_last()) + counts.last() as nat
    }
}

/// A sending that ends without an error has sent as many bytes as it announced.
pub proof fn law_pieces_make_up_the_part(
    r: FileRange,
    states: Seq<FileStream>,
    counts: Seq<u64>,
)
    requires
        states.len() == counts.len() + 1,
        states[0].remaining == part_length(r),
        forall|k: int|
            0 <= k < counts.len() ==> (#[trigger] counts[k]) > 0 && states[k + 1].remaining
                == states[k].remaining - counts[k],
        states.last().remaining == 0,
    ensures
        sum_of(counts) == part_length(r),
{
    lemma_sum_is_what_is_gone(states, counts);
}

proof fn lemma_sum_is_what_is_gone(states: Seq<FileStream>, counts: Seq<u64>)
    requires
        states.len() == counts.len() + 1,
        forall|k: int|
            0 <= k < counts.len() ==> (#[trigger] counts[k]) > 0 && states[k + 1].remaining
                == states[k].remaining - counts[k],
    ensures
        sum_of(counts) == states[0].remaining - states.last().remaining,
    decreases counts.len(),
{
    if counts.len() > 0 {
        let fewer = counts.drop_last();
        let earlier = states.drop_last();
        assert forall|k: int| 0 <= k < fewer.len() implies (#[trigger] fewer[k]) > 0 && earlier[k
            + 1].remaining == earlier[k].remaining - fewer[k] by {
            assert(fewer[k] == counts[k]);
        }
        lemma_sum_is_what_is_gone(earlier, fewer);
        let last = counts.len() - 1;
        assert(counts[last] > 0 && states[last + 1].remaining == states[last].remaining
            - counts[last]);
    }
}

/// How many clients listen, and how many may.
#[derive(Clone, Copy, Debug, PartialEq, Eq, Structural)]
pub struct ClientCount {
    pub active: usize,
    pub max: usize,
}

impl ClientCount {
    pub open spec fn well_formed(&self) -> bool {
        self.active <= self.max
    }

    /// At least one client must be allowed.
    pub fn new(max: usize) -> (result: Result<ClientCount, String>)
        ensures
            result is Ok <==> max > 0,
            match result {
                Ok(count) => count == (ClientCount { active: 0, max }) && count.well_formed(),
                Err(message) => message@ == "Web 最大客户端数必须大于 0"@,
            },
    {
        if max == 0 {
            return Err("Web 最大客户端数必须大于 0".to_owned());
        }
        Ok(ClientCount { active: 0, max })
    }

    /// A client comes: it is let in while there are fewer than may be.
    pub fn try_acquire_client(&mut self) -> (acquired: bool)
        requires
            old(self).well_formed(),
        ensures
            final(self).well_formed(),
            acquired == (old(self).active < old(self).max),
            *final(self) == (ClientCount {
                active: if acquired {
                    (old(self).active + 1) as usize
                } else {
                    old(self).active
                },
                max: old(self).max,
            }),
            client_came(*old(self), acquired, *final(self)),
    {
        if self.active >= self.max {
            return false;
        }
        self.active = self.active + 1;
        true
    }

    /// A client that was let in goes.
    pub fn release(&mut self)
        requires
            old(self).well_formed(),
            old(self).active > 0,
        ensures
            final(self).well_formed(),
            *final(self) == (ClientCount {
                active: (old(self).active - 1) as usize,
                max: old(self).max,
            }),
            client_went(*old(self), *final(self)),
    {
        self.active = self.active - 1;
    }
}

/// The session that is under way.
pub fn active_session_id(snapshot: &ServiceSnapshot) -> (id: Option<String>)
    ensures
        match id {
            Some(i) => snapshot.phase.session() == Some(i@),
            None => snapshot.phase.session() is None,
        },
{
    match &snapshot.phase {
        ServicePhase::Starting { session_id } => Some(session_id.clone()),
        ServicePhase::Recording { session_id } => Some(session_id.clone()),
        ServicePhase::Stopping { session_id } => Some(session_id.clone()),
        ServicePhase::Idle => None,
    }
}

/// A session that is under way is not moved to the trash.
pub fn check_trashable(snapshot: &ServiceSnapshot, id: &str) -> (result: Result<(), ErrorAnswer>)
    ensures
        result is Err <==> snapshot.phase.session() == Some(id@),
        result matches Err(answer) ==> {
            &&& answer.status == STATUS_CONFLICT
            &&& answer.code@ == "session_active"@
            &&& answer.message@ == "当前 session 正在录音或收尾，不能移入回收站"@
            &&& answer.field is None
        },
{
    if crate::controller::session_matches(&snapshot.phase, id) {
        return Err(
            ErrorAnswer {
                status: STATUS_CONFLICT,
                code: "session_active".to_owned(),
                message: "当前 session 正在录音或收尾，不能移入回收站".to_owned(),
                field: None,
            },
        );
    }
    Ok(())
}

/// Finds a session to be shown.
pub fn find_recording(entries: Vec<RecordingEntry>, id: &str) -> (result: Result<
    RecordingEntry,
    String,
>)
    ensures
        match result {
            Ok(entry) => exists|at: int| #[trigger]
                first_with_id(entry_views(entries@), id@, at) && entries@[at] == entry,
            Err(message) => {
                &&& forall|k: int|
                    0 <= k < entries@.len() ==> (#[trigger] entry_views(entries@)[k]).id != id@
                &&& message@ == "session 不存在"@
            },
        },
{
    match take_entry(entries, id) {
        Some(entry) => Ok(entry),
        None => Err("session 不存在".to_owned()),
    }
}

/// The file is one of the kind that is there.
pub open spec fn is_there(file: SessionFile, kind: Seq<char>) -> bool {
    file.kind@ == kind && file.exists
}

/// Only files that the session has are handed out.
pub fn check_owned(entry: &RecordingEntry, kind: &str) -> (result: Result<(), String>)
    ensures
        result is Ok <==> exists|i: int|
            0 <= i < entry.files@.len() && is_there(#[trigger] entry.files@[i], kind@),
        result matches Err(message) ==> message@ == "文件不属于该 session"@,
{
    for i in 0..entry.files.len()
        invariant
            forall|k: int| 0 <= k < i ==> !is_there(#[trigger] entry.files@[k], kind@),
    {
        if entry.files[i].exists && same_text(entry.files[i].kind.as_str(), kind) {
            assert(is_there(entry.files@[i as int], kind@));
            return Ok(());
        }
    }
    Err("文件不属于该 session".to_owned())
}

/// The text that a JSON object holds under a key: what `serde_json::from_str`, `Value::get` and
/// `Value::as_str` make of it, and `None` where it is no JSON, no object, has no such key or no
/// text there.
pub uninterp spec fn json_text(json: Seq<char>, key: Seq<char>) -> Option<Seq<char>>;

/// Reads a text out of a JSON object with `serde_json::from_str`, `Value::get` and
/// `Value::as_str`. The grammar of JSON is not stated here.
#[verifier::external_body]
fn json_text_field(json: &str, key: &str) -> (text: Option<String>)
    ensures
        text is Some <==> json_text(json@, key@) is Some,
        text matches Some(t) ==> json_text(json@, key@) == Some(t@),
{
    let value: serde_json::Value = serde_json::from_str(json).ok()?;
    value.get(key)?.as_str().map(str::to_string)
}

/// The name of an event whose envelope has a type, or has none.
pub open spec fn kind_name(field: Option<Seq<char>>) -> Seq<char> {
    match field {
        Some(kind) => kind,
        None => "message"@,
    }
}

pub fn event_name(field: Option<String>) -> (name: String)
    ensures
        name@ == kind_name(crate::recorder::held(field)),
{
    match field {
        Some(kind) => kind,
        None => "message".to_owned(),
    }
}

/// The name under which an envelope is sent to clients: its type.
pub fn event_kind(json: &str) -> (name: String)
    ensures
        name@ == kind_name(json_text(json@, "type"@)),
{
    event_name(json_text_field(json, "type"))
}

/// The text `part` occurs in `error` with something before and behind it.
pub open spec fn speaks_of(error: Seq<char>, part: Seq<char>) -> bool {
    exists|a: Seq<char>, b: Seq<char>| error == #[trigger] (a + part + b)
}

proof fn lemma_speaks_of(error: Seq<char>, part: Seq<char>)
    ensures
        speaks_of(error, part) <==> contains_text(error, part),
{
    if contains_text(error, part) {
        let i = choose|i: int| crate::text::occurs_at(error, part, i);
        let a = error.take(i);
        let b = error.skip(i + part.len());
        assert(error =~= a + part + b);
    }
    if speaks_of(error, part) {
        let (a, b) = choose|a: Seq<char>, b: Seq<char>| error == #[trigger] (a + part + b);
        let i = a.len() as int;
        assert(error.subrange(i, i + part.len()) =~= part);
        assert(crate::text::occurs_at(error, part, i));
    }
}

/// An error is answered by what it speaks of: one that speaks of a target that is there already is a
/// conflict; of the others, one that speaks of something missing is answered as not found, and of
/// the rest, one that speaks of a configuration, a profile or a prefix as unprocessable; anything
/// else is a fault of the service.
pub proof fn law_statuses_follow_the_text(error: Seq<char>)
    ensures
        speaks_of(error, "目标文件已存在"@) || speaks_of(error, "目标已存在"@) ==> error_status(error)
            == 409,
        !begins_with(error, "conflict:"@) && !speaks_of(error, "目标文件已存在"@) && !speaks_of(
            error,
            "目标已存在"@,
        ) ==> {
            &&& speaks_of(error, "不存在"@) || speaks_of(error, "文件不属于"@) ==> error_status(error)
                == 404
            &&& !speaks_of(error, "不存在"@) && !speaks_of(error, "文件不属于"@) ==> {
                &&& speaks_of(error, "配置"@) || speaks_of(error, "profile"@) || speaks_of(
                    error,
                    "prefix"@,
                ) ==> error_status(error) == 422
                &&& !speaks_of(error, "配置"@) && !speaks_of(error, "profile"@) && !speaks_of(
                    error,
                    "prefix"@,
                ) ==> error_status(error) == 500
            }
        },
{
    lemma_speaks_of(error, "目标文件已存在"@);
    lemma_speaks_of(error, "目标已存在"@);
    lemma_speaks_of(error, "不存在"@);
    lemma_speaks_of(error, "文件不属于"@);
    lemma_speaks_of(error, "配置"@);
    lemma_speaks_of(error, "profile"@);
    lemma_speaks_of(error, "prefix"@);
}

/// The message of an answer bears no mark, and a text without one is the message as it is.
pub proof fn law_messages_bear_no_mark(error: Seq<char>)
    ensures
        !begins_with(unmarked(error), "conflict:"@),
        !begins_with(error, "conflict:"@) ==> unmarked(error) == error,
    decreases error.len(),
{
    reveal_strlit("conflict:");
    if begins_with(error, "conflict:"@) {
        law_messages_bear_no_mark(error.skip("conflict:"@.len() as int));
    }
}

/// A configuration is refused as a conflict exactly when a beamformer lacks its estimator.
pub proof fn law_refused_configurations_are_unprocessable(error: AppConfigError)
    ensures
        (error matches AppConfigError::Pipeline(e) && e is DirectionNeedsDoa) ==> config_status(
            error,
        ) == 409,
        !(error matches AppConfigError::Pipeline(e) && e is DirectionNeedsDoa) ==> config_status(
            error,
        ) == 422,
{
}

proof fn lemma_digits_read(n: nat)
    ensures
        digits_value(decimal(n)) == n,
        all_digits(decimal(n)),
        decimal(n).len() > 0,
        decimal(n)[0] != '+',
    decreases n,
{
    law_decimal_reads_back(n);
    reveal_with_fuel(digits_value, 2);
    assert(forall|i: int| 0 <= i < decimal(n).len() ==> is_digit(#[trigger] decimal(n)[i]));
    if n < 10 {
        assert(decimal(n).drop_last() =~= Seq::<char>::empty());
    } else {
        lemma_digits_read(n / 10);
        assert(decimal(n).drop_last() =~= decimal(n / 10));
    }
}

/// A number in its decimal notation is read as that number, with or without a plus sign in front, as
/// far as 64 bits hold it; and what is read of a text is the number that its digits stand for.
pub proof fn law_numbers_are_read_as_written(n: nat, s: Seq<char>)
    ensures
        n <= u64::MAX ==> parsed(decimal(n)) == Some(n as u64),
        n <= u64::MAX ==> parsed(seq!['+'] + decimal(n)) == Some(n as u64),
        n > u64::MAX ==> parsed(decimal(n)) is None,
        s.len() == 0 ==> parsed(s) is None,
        (exists|i: int| 0 < i < s.len() && !('0' <= #[trigger] s[i] <= '9')) ==> parsed(s) is None,
        s.len() > 0 && !('0' <= s[0] <= '9') && s[0] != '+' ==> parsed(s) is None,
{
    lemma_digits_read(n);
    let signed = seq!['+'] + decimal(n);
    assert(signed.skip(1) =~= decimal(n));
    assert(signed[0] == '+');
    if exists|i: int| 0 < i < s.len() && !('0' <= #[trigger] s[i] <= '9') {
        let i = choose|i: int| 0 < i < s.len() && !('0' <= #[trigger] s[i] <= '9');
        let d = unsigned_part(s);
        if s[0] == '+' {
            assert(d[i - 1] == s[i]);
            assert(!is_digit(d[i - 1]));
        } else {
            assert(!is_digit(d[i]));
        }
    }
    if s.len() > 0 && !('0' <= s[0] <= '9') && s[0] != '+' {
        assert(!is_digit(unsigned_part(s)[0]));
    }
}

proof fn lemma_first_dash_behind_digits(s: Seq<char>, at: nat, from: nat)
    requires
        from <= at < s.len(),
        s[at as int] == '-',
        forall|i: int| from <= i < at ==> #[trigger] s[i] != '-',
    ensures
        first_dash(s, from) == Some(at),
    decreases at - from,
{
    if from < at {
        assert(s[from as int] != '-');
        lemma_first_dash_behind_digits(s, at, from + 1);
    }
}

proof fn lemma_header(first: Seq<char>, last: Seq<char>)
    requires
        forall|i: int| 0 <= i < first.len() ==> '0' <= #[trigger] first[i] <= '9',
        forall|i: int| 0 <= i < last.len() ==> '0' <= #[trigger] last[i] <= '9',
    ensures
        ({
            let value = "bytes="@ + first + "-"@ + last;
            let rest = value.skip(6);
            &&& begins_with(value, "bytes="@)
            &&& !rest.contains(',')
            &&& first_dash(rest, 0) == Some(first.len())
            &&& rest.take(first.len() as int) == first
            &&& rest.skip(first.len() as int + 1) == last
        }),
{
    reveal_strlit("bytes=");
    reveal_strlit("-");
    let value = "bytes="@ + first + "-"@ + last;
    let rest = value.skip(6);
    assert(value.take(6) =~= "bytes="@);
    assert(rest =~= first + seq!['-'] + last);
    assert forall|i: int| 0 <= i < rest.len() implies rest[i] != ',' by {
        if i < first.len() {
            assert(rest[i] == first[i]);
        } else if i > first.len() {
            assert(rest[i] == last[i - first.len() - 1]);
        }
    }
    assert forall|i: int| 0 <= i < first.len() implies #[trigger] rest[i] != '-' by {
        assert(rest[i] == first[i]);
    }
    lemma_first_dash_behind_digits(rest, first.len(), 0);
    assert(rest.take(first.len() as int) =~= first);
    assert(rest.skip(first.len() as int + 1) =~= last);
}

/// A range from one byte to another gives just these bytes of a file, up to its last one; nothing
/// where it begins behind the file or ends before it begins.
pub proof fn law_range_between_two_bytes(total: u64, first: u64, last: u64)
    requires
        total > 0,
    ensures
        ({
            let value = "bytes="@ + decimal(first as nat) + "-"@ + decimal(last as nat);
            let asked = asked_range(total, Some(value));
            &&& first < total && first <= last < total ==> asked == Some(
                (FileRange { status: 206, start: first, end: last, total }),
            )
            &&& first < total && last >= total ==> asked == Some(
                (FileRange { status: 206, start: first, end: (total - 1) as u64, total }),
            )
            &&& first >= total || last < first ==> asked is None
        }),
{
    law_decimal_reads_back(first as nat);
    law_decimal_reads_back(last as nat);
    lemma_header(decimal(first as nat), decimal(last as nat));
    law_numbers_are_read_as_written(first as nat, Seq::empty());
    law_numbers_are_read_as_written(last as nat, Seq::empty());
}

/// A range without an end gives all bytes from the first one on; nothing where it begins behind the
/// file.
pub proof fn law_range_from_a_byte_on(total: u64, first: u64)
    requires
        total > 0,
    ensures
        ({
            let asked = asked_range(total, Some("bytes="@ + decimal(first as nat) + "-"@));
            &&& first < total ==> asked == Some(
                (FileRange { status: 206, start: first, end: (total - 1) as u64, total }),
            )
            &&& first >= total ==> asked is None
        }),
{
    law_decimal_reads_back(first as nat);
    lemma_header(decimal(first as nat), Seq::empty());
    law_numbers_are_read_as_written(first as nat, Seq::empty());
    assert("bytes="@ + decimal(first as nat) + "-"@ + Seq::<char>::empty() =~= "bytes="@ + decimal(
        first as nat,
    ) + "-"@);
}

/// A range without a beginning gives as many bytes from the end as it names, or the whole file where
/// it is shorter; nothing where it names none.
pub proof fn law_range_of_the_last_bytes(total: u64, count: u64)
    requires
        total > 0,
    ensures
        ({
            let asked = asked_range(total, Some("bytes=-"@ + decimal(count as nat)));
            &&& 0 < count <= total ==> asked == Some(
                (FileRange {
                    status: 206,
                    start: (total - count) as u64,
                    end: (total - 1) as u64,
                    total,
                }),
            )
            &&& count > total ==> asked == Some(
                (FileRange { status: 206, start: 0, end: (total - 1) as u64, total }),
            )
            &&& count == 0 ==> asked is None
        }),
{
    reveal_strlit("bytes=-");
    reveal_strlit("bytes=");
    reveal_strlit("-");
    law_decimal_reads_back(count as nat);
    lemma_header(Seq::empty(), decimal(count as nat));
    law_numbers_are_read_as_written(count as nat, Seq::empty());
    assert("bytes="@ + Seq::<char>::empty() + "-"@ + decimal(count as nat) =~= "bytes=-"@ + decimal(
        count as nat,
    ));
}

/// Without a range the whole file is sent; a range in other units, of several parts, without a dash
/// or of an empty file is refused.
pub proof fn law_other_ranges(total: u64, value: Seq<char>)
    ensures
        total > 0 ==> asked_range(total, None) == Some(
            (FileRange { status: 200, start: 0, end: (total - 1) as u64, total }),
        ),
        asked_range(0, None) == Some((FileRange { status: 200, start: 0, end: 0, total: 0 })),
        asked_range(0, Some(value)) is None,
        !begins_with(value, "bytes="@) ==> asked_range(total, Some(value)) is None,
        value.skip(6).contains(',') ==> asked_range(total, Some(value)) is None,
        (forall|i: int| 0 <= i < value.skip(6).len() ==> #[trigger] value.skip(6)[i] != '-')
            ==> asked_range(total, Some(value)) is None,
{
    let rest = value.skip(6);
    if forall|i: int| 0 <= i < rest.len() ==> #[trigger] rest[i] != '-' {
        lemma_no_dash(rest, 0);
    }
}

proof fn lemma_no_dash(s: Seq<char>, from: nat)
    requires
        forall|i: int| 0 <= i < s.len() ==> #[trigger] s[i] != '-',
    ensures
        first_dash(s, from) is None,
    decreases s.len() - from,
{
    if from < s.len() {
        assert(s[from as int] != '-');
        lemma_no_dash(s, from + 1);
    }
}

/// An envelope is sent under its type, and under `message` only where it has none.
pub proof fn law_events_are_named_after_their_type(field: Option<Seq<char>>)
    ensures
        field matches Some(kind) ==> kind_name(field) == kind,
        field is None ==> kind_name(field) == "message"@,
{
}

/// The piece to be read next of so many bytes.
pub open spec fn is_next_piece(remaining: u64, size: Option<u64>) -> bool {
    match size {
        None => remaining == 0,
        Some(n) => remaining > 0 && n == (if remaining < 65536 {
            remaining
        } else {
            65536
        }),
    }
}

/// Where every read gives what was asked for, all of a part is sent in whole pieces of 65536 bytes
/// and what is left of it at the end: as long as something is left there is a next piece, which is
/// never more than what is left, and only the last one is smaller.
pub proof fn law_pieces_are_as_large_as_possible(remaining: u64, size: Option<u64>)
    requires
        is_next_piece(remaining, size),
    ensures
        size is Some <==> remaining > 0,
        size matches Some(n) ==> {
            &&& 0 < n <= remaining
            &&& n <= 65536
            &&& n < 65536 ==> n == remaining
        },
{
}

/// A file is handed out only as the kind that it is, and only where it is there.
pub proof fn law_owned_files_are_there(file: SessionFile, kind: Seq<char>)
    ensures
        is_there(file, kind) <==> file.exists && file.kind@ == kind,
{
}

/// A client came and was let in or not.
pub open spec fn client_came(before: ClientCount, let_in: bool, after: ClientCount) -> bool {
    &&& after.max == before.max
    &&& let_in <==> before.active < before.max
    &&& after.active == before.active + (if let_in {
        1int
    } else {
        0
    })
}

/// A client went that had been let in.
pub open spec fn client_went(before: ClientCount, after: ClientCount) -> bool {
    &&& after.max == before.max
    &&& after.active == before.active - 1
}

/// Never more clients listen than may; one that finds the service full is turned away, and as soon
/// as one goes another is let in.
pub proof fn law_clients_are_limited(
    before: ClientCount,
    let_in: bool,
    after: ClientCount,
    left: ClientCount,
    next_let_in: bool,
    last: ClientCount,
)
    requires
        before.well_formed(),
        before.max > 0,
        client_came(before, let_in, after),
        client_went(after, left),
        client_came(left, next_let_in, last),
    ensures
        after.active <= before.max,
        before.active == before.max ==> !let_in && after == before,
        before.active < before.max ==> let_in && after.active == before.active + 1,
        next_let_in,
        last == after,
{
}

} // verus!

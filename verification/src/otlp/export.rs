//! Sending records: which are taken, how they are put together, and what becomes of them.
use crate::header::visible_text;
use crate::proxy::files::{http_date, parse_date};
use crate::text;
use opentelemetry_proto::tonic::collector::logs::v1::ExportLogsServiceResponse;
use prost::Message;
use vstd::prelude::*;

verus! {

/// The longest record, the longest batch and the longest answer, in bytes.
pub const MAX_RECORD_BYTES: usize = 16384;

pub const MAX_BATCH_BYTES: usize = 1048576;

pub const MAX_RESPONSE_BYTES: usize = 65536;

/// What is left free in a batch for what goes around the records, in bytes.
pub const ENVELOPE: usize = 65536;

/// How often a batch is sent at most.
pub const ATTEMPTS: usize = 3;

/// Why a record is lost.
#[derive(Clone, Copy, Debug, PartialEq, Eq, Structural)]
pub enum Loss {
    TooLarge,
    QueueFull,
    Shutdown,
    Rejected,
    Failed,
}

impl Loss {
    pub open spec fn spec_text(self) -> Seq<char> {
        match self {
            Loss::TooLarge => "record_too_large"@,
            Loss::QueueFull => "queue_full"@,
            Loss::Shutdown => "shutdown"@,
            Loss::Rejected => "remote_rejected"@,
            Loss::Failed => "export_failed"@,
        }
    }

    pub fn text(&self) -> (r: &'static str)
        ensures
            r@ == self.spec_text(),
    {
        match self {
            Loss::TooLarge => "record_too_large",
            Loss::QueueFull => "queue_full",
            Loss::Shutdown => "shutdown",
            Loss::Rejected => "remote_rejected",
            Loss::Failed => "export_failed",
        }
    }
}

/// Whether a record is taken, and why it is lost where it is not.
pub open spec fn taken(len: usize, running: bool, room: bool) -> Result<(), Loss> {
    if len > MAX_RECORD_BYTES {
        Err(Loss::TooLarge)
    } else if !running {
        Err(Loss::Shutdown)
    } else if !room {
        Err(Loss::QueueFull)
    } else {
        Ok(())
    }
}

/// Whether a record is put in the queue: it fits, the exporter runs, and the queue has room.
pub fn accept(len: usize, running: bool, room: bool) -> (r: Result<(), Loss>)
    ensures
        r == if len > MAX_RECORD_BYTES {
            Err::<(), Loss>(Loss::TooLarge)
        } else if !running {
            Err(Loss::Shutdown)
        } else if !room {
            Err(Loss::QueueFull)
        } else {
            Ok(())
        },
        r == taken(len, running, room),
{
    if len > MAX_RECORD_BYTES {
        Err(Loss::TooLarge)
    } else if !running {
        Err(Loss::Shutdown)
    } else if !room {
        Err(Loss::QueueFull)
    } else {
        Ok(())
    }
}

/// Whether a batch waits for another record, by its records and its bytes so far.
pub open spec fn has_room(count: nat, size: nat, batch_size: nat) -> bool {
    count < batch_size && size < MAX_BATCH_BYTES - MAX_RECORD_BYTES - ENVELOPE
}

pub fn waits(count: usize, size: usize, batch_size: usize) -> (r: bool)
    ensures
        r == has_room(count as nat, size as nat, batch_size as nat),
{
    count < batch_size && size < MAX_BATCH_BYTES - MAX_RECORD_BYTES - ENVELOPE
}

// ---------------------------------------------------------------------------
// Answers
// ---------------------------------------------------------------------------

/// What comes of an attempt.
#[derive(Clone, Copy, Debug, PartialEq, Eq, Structural)]
pub enum Attempt {
    /// The receiver took the records, but for some; whether it said anything about it.
    Accepted { rejected: usize, partial: bool },
    /// The batch is sent again, after this time in milliseconds where the receiver gave one.
    Retry(Option<u64>),
    Failed,
}

/// What an answer is, before its body is read.
#[derive(Clone, Copy, Debug, PartialEq, Eq, Structural)]
pub enum Answer {
    Body,
    Retry(Option<u64>),
    Failed,
}

/// The head of an answer.
#[derive(Debug)]
pub struct Head {
    pub status: u16,
    pub retry_after: Option<Vec<u8>>,
    pub content_type: Option<Vec<u8>>,
    pub content_length: Option<u64>,
}

pub open spec fn field_text(v: Option<Vec<u8>>) -> Option<Seq<char>> {
    match v {
        Some(b) => visible_text(b@),
        None => None,
    }
}

/// Seconds in milliseconds; more than can be told is the most that can.
pub open spec fn in_millis(seconds: nat) -> u64 {
    if seconds * 1000 <= u64::MAX {
        (seconds * 1000) as u64
    } else {
        u64::MAX
    }
}

fn to_millis(seconds: u64) -> (r: u64)
    ensures
        r == in_millis(seconds as nat),
{
    if seconds <= u64::MAX / 1000 {
        seconds * 1000
    } else {
        u64::MAX
    }
}

/// How long to wait, by a field: seconds, or a date. `date` is what the date stands for, and `now` the
/// time, both in seconds since 1970.
pub open spec fn delay_of(value: Option<Seq<char>>, date: Option<u64>, now: u64) -> Option<u64> {
    match value {
        None => None,
        Some(s) => match text::decimal_upto(s, u64::MAX as nat) {
            Some(n) => Some(in_millis(n)),
            None => match date {
                None => None,
                Some(t) => Some(
                    if t > now {
                        in_millis((t - now) as nat)
                    } else {
                        0
                    },
                ),
            },
        },
    }
}

/// How long to wait, by a field and by what it stands for as a date.
pub fn delay(value: &Option<String>, date: Option<u64>, now: u64) -> (r: Option<u64>)
    ensures
        r == delay_of(text::opt(*value), date, now),
{
    match value {
        None => None,
        Some(s) => match text::parse_u64(s.as_str()) {
            Some(n) => Some(to_millis(n)),
            None => match date {
                None => None,
                Some(t) => Some(
                    if t > now {
                        to_millis(t - now)
                    } else {
                        0
                    },
                ),
            },
        },
    }
}

/// What is before the first `;` of a content type, bare.
pub open spec fn media_type(s: Seq<char>) -> Seq<char> {
    text::trim_spec(
        match text::split_once_spec(s, ';') {
            Some((t, _)) => t,
            None => s,
        },
    )
}

pub open spec fn busy(status: u16) -> bool {
    status == 429 || status == 502 || status == 503 || status == 504
}

/// What an answer is, before its body is read.
pub open spec fn answer_of(h: Head, now: u64) -> Answer {
    if busy(h.status) {
        let v = field_text(h.retry_after);
        Answer::Retry(
            delay_of(
                v,
                match v {
                    Some(s) => http_date(s),
                    None => None,
                },
                now,
            ),
        )
    } else if h.status != 200 || field_text(h.content_type) is None || media_type(
        field_text(h.content_type)->0,
    ) != "application/x-protobuf"@ || (h.content_length is Some && h.content_length->0
        > MAX_RESPONSE_BYTES) {
        Answer::Failed
    } else {
        Answer::Body
    }
}

fn read_field(v: &Option<Vec<u8>>) -> (r: Option<String>)
    ensures
        text::opt(r) == field_text(*v),
{
    match v {
        Some(b) => crate::header::to_text(b),
        None => None,
    }
}

fn is_protobuf(v: &Option<Vec<u8>>) -> (r: bool)
    ensures
        r == (field_text(*v) is Some && media_type(field_text(*v)->0)
            == "application/x-protobuf"@),
{
    match read_field(v) {
        None => false,
        Some(s) => {
            let kind = match text::split_once(s.as_str(), ';') {
                Some((t, _)) => t,
                None => s,
            };
            text::same(text::trim(kind.as_str()), "application/x-protobuf")
        },
    }
}

/// What an answer is, before its body is read.
pub fn answer(h: &Head, now: u64) -> (r: Answer)
    ensures
        r == answer_of(*h, now),
{
    if h.status == 429 || h.status == 502 || h.status == 503 || h.status == 504 {
        let v = read_field(&h.retry_after);
        let date = match &v {
            Some(s) => parse_date(s.as_str()),
            None => None,
        };
        return Answer::Retry(delay(&v, date, now));
    }
    let long = match h.content_length {
        Some(n) => n > MAX_RESPONSE_BYTES as u64,
        None => false,
    };
    if h.status != 200 || !is_protobuf(&h.content_type) || long {
        return Answer::Failed;
    }
    Answer::Body
}

/// The length of an answer with one more piece; nothing where that is too long.
pub fn take_piece(len: usize, piece: usize) -> (r: Option<usize>)
    ensures
        match r {
            Some(n) => n == len + piece && n <= MAX_RESPONSE_BYTES,
            None => len + piece > MAX_RESPONSE_BYTES,
        },
{
    if len > MAX_RESPONSE_BYTES || piece > MAX_RESPONSE_BYTES - len {
        None
    } else {
        Some(len + piece)
    }
}

/// What an answer says: how many records were rejected where it says anything about it; nothing at all
/// where it cannot be read.
pub open spec fn concluded(read: Option<Option<i64>>, count: usize) -> Attempt {
    match read {
        None => Attempt::Failed,
        Some(None) => Attempt::Accepted { rejected: 0, partial: false },
        Some(Some(n)) => if n < 0 || n > count {
            Attempt::Failed
        } else {
            Attempt::Accepted { rejected: n as usize, partial: true }
        },
    }
}

pub fn conclude(read: Option<Option<i64>>, count: usize) -> (r: Attempt)
    ensures
        r == concluded(read, count),
{
    match read {
        None => Attempt::Failed,
        Some(None) => Attempt::Accepted { rejected: 0, partial: false },
        Some(Some(n)) => if n < 0 || n as u64 > count as u64 {
            Attempt::Failed
        } else {
            Attempt::Accepted { rejected: n as usize, partial: true }
        },
    }
}

/// What an answer of a collector holds: whether it tells of a partial success and, if so, of how many
/// records that were rejected.
pub uninterp spec fn read_answer(body: Seq<u8>) -> Option<Option<i64>>;

/// What an answer holds, as `prost::Message::decode` reads it into an `ExportLogsServiceResponse`; nothing
/// where that fails. The answers on logs and on traces have one shape.
#[verifier::external_body]
fn decode(body: &Vec<u8>) -> (r: Option<Option<i64>>)
    ensures
        r == read_answer(body@),
{
    match ExportLogsServiceResponse::decode(body.as_slice()) {
        Ok(response) => Some(response.partial_success.map(|p| p.rejected_log_records)),
        Err(_) => None,
    }
}

/// What came of an attempt to export `count` records that was answered with `body`.
pub fn conclude_body(body: &Vec<u8>, count: usize) -> (r: Attempt)
    ensures
        r == concluded(read_answer(body@), count),
{
    conclude(decode(body), count)
}

// ---------------------------------------------------------------------------
// Attempts
// ---------------------------------------------------------------------------

/// How an export goes on after an attempt.
#[derive(Clone, Copy, Debug, PartialEq, Eq, Structural)]
pub enum Next {
    /// The receiver took the records, but for some.
    Done { rejected: usize, partial: bool },
    /// The batch is sent again, after this time in milliseconds.
    Again(u64),
    GivenUp,
}

/// How an export goes on after an attempt, which have numbers from 0 on; `drawn` is a number that was
/// drawn, and lengthens the wait where the receiver gave none.
pub open spec fn after(attempt: usize, result: Attempt, drawn: u8) -> Next {
    match result {
        Attempt::Accepted { rejected, partial } => Next::Done { rejected, partial },
        Attempt::Retry(delay) => if attempt + 1 < ATTEMPTS {
            Next::Again(
                match delay {
                    Some(d) => d,
                    None => ((if attempt == 0 {
                        200int
                    } else {
                        400int
                    }) + drawn) as u64,
                },
            )
        } else {
            Next::GivenUp
        },
        Attempt::Failed => Next::GivenUp,
    }
}

pub fn next(attempt: usize, result: Attempt, drawn: u8) -> (r: Next)
    ensures
        r == after(attempt, result, drawn),
{
    match result {
        Attempt::Accepted { rejected, partial } => Next::Done { rejected, partial },
        Attempt::Retry(delay) => if attempt < ATTEMPTS - 1 {
            Next::Again(
                match delay {
                    Some(d) => d,
                    None => (if attempt == 0 {
                        200u64
                    } else {
                        400u64
                    }) + drawn as u64,
                },
            )
        } else {
            Next::GivenUp
        },
        Attempt::Failed => Next::GivenUp,
    }
}

/// What is counted of a batch: the records that were exported, those that were lost, and why.
#[derive(Clone, Copy, Debug, PartialEq, Eq, Structural)]
pub struct Settled {
    pub exported: usize,
    pub lost: usize,
    pub loss: Loss,
}

/// What is counted of a batch; `rejected` is nothing where the export failed or did not end in time.
pub open spec fn settled(count: usize, rejected: Option<usize>) -> Settled {
    match rejected {
        Some(n) => Settled { exported: (count - n) as usize, lost: n, loss: Loss::Rejected },
        None => Settled { exported: 0, lost: count, loss: Loss::Failed },
    }
}

pub fn settle(count: usize, rejected: Option<usize>) -> (r: Settled)
    requires
        rejected is Some ==> rejected->0 <= count,
    ensures
        r == settled(count, rejected),
{
    match rejected {
        Some(n) => Settled { exported: count - n, lost: n, loss: Loss::Rejected },
        None => Settled { exported: 0, lost: count, loss: Loss::Failed },
    }
}

// ---------------------------------------------------------------------------
// Laws
// ---------------------------------------------------------------------------

/// A batch with what goes around it is never too long: one that still waits has room for the longest
/// record.
pub proof fn law_batches_fit(count: nat, size: nat, batch_size: nat, len: nat)
    requires
        has_room(count, size, batch_size),
        len <= MAX_RECORD_BYTES,
    ensures
        size + len + ENVELOPE <= MAX_BATCH_BYTES,
{
}

/// Every record of a batch is counted once: as exported or as lost. What a receiver rejects is never
/// more than it was sent.
pub proof fn law_records_are_counted_once(read: Option<Option<i64>>, count: usize)
    ensures
        match concluded(read, count) {
            Attempt::Accepted { rejected, .. } => rejected <= count && settled(
                count,
                Some(rejected),
            ).exported + settled(count, Some(rejected)).lost == count,
            _ => settled(count, None).exported + settled(count, None).lost == count,
        },
{
}

/// A batch is not sent for ever: the last attempt is not followed by another.
pub proof fn law_attempts_end(attempt: usize, result: Attempt, drawn: u8)
    requires
        attempt + 1 >= ATTEMPTS,
    ensures
        !(after(attempt, result, drawn) is Again),
{
}

/// A receiver that is busy is asked again, one that answers otherwise has failed, and a good answer is read.
pub proof fn law_answers_are_told_apart(h: Head, now: u64)
    ensures
        h.status == 429 || h.status == 502 || h.status == 503 || h.status == 504 ==> answer_of(h, now) is Retry,
        h.status == 400 || h.status == 401 || h.status == 404 || h.status == 500 ==> answer_of(h, now)
            == Answer::Failed,
        h.status == 200 && h.content_type is None ==> answer_of(h, now) == Answer::Failed,
        h.status == 200 && h.content_length is Some && h.content_length->0 > 65536 ==> answer_of(h, now)
            == Answer::Failed,
        h.status == 200 && field_text(h.content_type) == Some("application/x-protobuf"@) && h.content_length is None
            ==> answer_of(h, now) == Answer::Body,
{
    reveal_strlit("application/x-protobuf");
    let s = "application/x-protobuf"@;
    assert forall|i: int| 0 <= i < s.len() implies s[i] != ';' by {}
    text::lemma_position_is(s, ';', s.len() as int);
    assert(text::trim_spec(s) == s);
}

/// A time to wait is seconds from now, or until a date.
pub proof fn law_waits_are_seconds_or_a_date(n: u64, t: u64, now: u64, s: Seq<char>)
    ensures
        n * 1000 <= u64::MAX ==> delay_of(Some(text::decimal(n as nat)), None, now) == Some((n * 1000) as u64),
        delay_of(None, Some(t), now) is None,
        text::decimal_upto(s, u64::MAX as nat) is None ==> {
            &&& t > now && (t - now) * 1000 <= u64::MAX ==> delay_of(Some(s), Some(t), now) == Some(
                ((t - now) * 1000) as u64,
            )
            &&& t <= now ==> delay_of(Some(s), Some(t), now) == Some(0u64)
            &&& delay_of(Some(s), None, now) is None
        },
{
    text::lemma_decimal_reads_back(n as nat);
}

/// A batch is sent at most three times: again after the time that the receiver gives, or a fifth of a second, then
/// two, and a little more.
pub proof fn law_batches_are_sent_again(d: u64, drawn: u8, rejected: usize, partial: bool)
    ensures
        after(0, Attempt::Retry(Some(d)), drawn) == Next::Again(d),
        after(0, Attempt::Retry(None), drawn) == Next::Again((200 + drawn) as u64),
        after(1, Attempt::Retry(None), drawn) == Next::Again((400 + drawn) as u64),
        after(2, Attempt::Retry(Some(d)), drawn) == Next::GivenUp,
        after(0, Attempt::Failed, drawn) == Next::GivenUp,
        after(0, Attempt::Accepted { rejected, partial }, drawn) == (Next::Done { rejected, partial }),
{
}

/// What the receiver says of the records that it did not take is believed where it can be.
pub proof fn law_rejections_are_believed(n: i64, count: usize)
    ensures
        concluded(None, count) == Attempt::Failed,
        concluded(Some(None), count) == (Attempt::Accepted { rejected: 0, partial: false }),
        0 <= n <= count ==> concluded(Some(Some(n)), count) == (Attempt::Accepted {
            rejected: n as usize,
            partial: true,
        }),
        n < 0 || n > count ==> concluded(Some(Some(n)), count) == Attempt::Failed,
{
}

/// A record is taken where it is short enough, the exporter runs and the queue has room; what fails first is
/// told.
pub proof fn law_records_are_taken(len: usize, running: bool, room: bool)
    ensures
        taken(len, running, room) is Ok <==> len <= MAX_RECORD_BYTES && running && room,
        len > MAX_RECORD_BYTES ==> taken(len, running, room) == Err::<(), Loss>(Loss::TooLarge),
        len <= MAX_RECORD_BYTES && !running ==> taken(len, running, room) == Err::<(), Loss>(Loss::Shutdown),
        len <= MAX_RECORD_BYTES && running && !room ==> taken(len, running, room) == Err::<(), Loss>(Loss::QueueFull),
{
}

} // verus!

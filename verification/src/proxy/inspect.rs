//! Reading a body, or the beginning of one, before a script sees the request.
use crate::body::{BodyPolicy, Inspection};
use crate::header::{first_text_of, Field, Headers};
use crate::text;
use vstd::prelude::*;

verus! {

/// How far beyond the limit the transport may read, in bytes.
pub const READ_AHEAD: usize = 65536;

/// How an inspection begins.
#[derive(Clone, Copy, Debug, PartialEq, Eq, Structural)]
pub enum Start {
    /// The body is not looked at.
    Off,
    /// The body is known to be too long.
    TooLong,
    /// There is no body.
    Empty,
    /// The body is read, with a buffer of this size.
    Read(usize),
}

/// The limit of an inspection, and whether the whole body has to fit in it.
pub open spec fn limit_of(i: Inspection) -> Option<(usize, bool)> {
    match i {
        Inspection::Off => None,
        Inspection::Full(n) => Some((n, true)),
        Inspection::Prefix(n) => Some((n, false)),
    }
}

/// The length that a request gives for its body.
pub open spec fn declared(fields: Seq<Field>) -> Option<nat> {
    match first_text_of(fields, "content-length"@) {
        None => None,
        Some(s) => text::decimal_upto(s, u64::MAX as nat),
    }
}

pub open spec fn started(policy: BodyPolicy, fields: Seq<Field>, done: bool) -> Start {
    match limit_of(policy.inspection) {
        None => Start::Off,
        Some((limit, full)) => if full && declared(fields) is Some && declared(fields)->0 > limit {
            Start::TooLong
        } else if done {
            Start::Empty
        } else {
            Start::Read((limit + READ_AHEAD) as usize)
        },
    }
}

/// How an inspection begins.
pub fn start(policy: &BodyPolicy, headers: &Headers, done: bool) -> (r: Start)
    requires
        policy.valid(),
    ensures
        r == started(*policy, headers.fields@, done),
{
    let (limit, full) = match policy.inspection {
        Inspection::Off => return Start::Off,
        Inspection::Full(n) => (n, true),
        Inspection::Prefix(n) => (n, false),
    };
    if full {
        if let Some(s) = headers.first_text("content-length") {
            if let Some(n) = text::parse_u64(s.as_str()) {
                if n > limit as u64 {
                    return Start::TooLong;
                }
            }
        }
    }
    if done {
        return Start::Empty;
    }
    Start::Read(limit + READ_AHEAD)
}

/// What is done next of an inspection.
#[derive(Clone, Copy, Debug, PartialEq, Eq, Structural)]
pub enum Turn {
    Read,
    /// Enough was read; whether it is the whole body.
    Stop(bool),
}

/// Whether more is read: not behind the end, and of a prefix not behind the limit.
pub open spec fn turned(limit: usize, full: bool, read: usize, done: bool) -> Turn {
    if done {
        Turn::Stop(true)
    } else if !full && read >= limit {
        Turn::Stop(false)
    } else {
        Turn::Read
    }
}

pub fn turn(limit: usize, full: bool, read: usize, done: bool) -> (r: Turn)
    ensures
        r == turned(limit, full, read, done),
{
    if done {
        Turn::Stop(true)
    } else if !full && read >= limit {
        Turn::Stop(false)
    } else {
        Turn::Read
    }
}

pub open spec fn taken(read: usize, piece: usize) -> usize {
    if read + piece <= usize::MAX {
        (read + piece) as usize
    } else {
        usize::MAX
    }
}

/// The number of bytes read, with one more piece, and the status of a body that becomes too long or that
/// the buffer cannot hold.
pub open spec fn took(
    limit: usize,
    full: bool,
    max: u64,
    read: usize,
    piece: usize,
    truncated: bool,
) -> Result<usize, u16> {
    let n = taken(read, piece);
    if (max > 0 && n > max) || (full && n > limit) {
        Err(413)
    } else if truncated {
        Err(500)
    } else {
        Ok(n)
    }
}

pub fn take(limit: usize, full: bool, max: u64, read: usize, piece: usize, truncated: bool) -> (r:
    Result<usize, u16>)
    ensures
        r == took(limit, full, max, read, piece, truncated),
{
    let n: usize = if piece <= usize::MAX - read {
        read + piece
    } else {
        usize::MAX
    };
    if (max > 0 && n as u64 > max) || (full && n > limit) {
        Err(413)
    } else if truncated {
        Err(500)
    } else {
        Ok(n)
    }
}

/// What a script sees of a body.
#[derive(Debug)]
pub struct BodyView {
    pub bytes: Vec<u8>,
    pub complete: bool,
}

/// What a script sees of a body: no more than the limit, and whether that is all.
pub fn view(buffer: &Vec<u8>, limit: usize, read: usize, complete: bool) -> (r: BodyView)
    ensures
        r.bytes@ == buffer@.take(
            if buffer@.len() < limit {
                buffer@.len() as int
            } else {
                limit as int
            },
        ),
        r.complete == (complete && read <= limit),
{
    let n: usize = if buffer.len() < limit {
        buffer.len()
    } else {
        limit
    };
    let mut bytes: Vec<u8> = Vec::new();
    let mut i: usize = 0;
    while i < n
        invariant
            i <= n <= buffer.len(),
            bytes@ == buffer@.take(i as int),
        decreases n - i,
    {
        bytes.push(buffer[i]);
        i += 1;
        assert(bytes@ =~= buffer@.take(i as int));
    }
    BodyView { bytes, complete: complete && read <= limit }
}

// ---------------------------------------------------------------------------
// Laws
// ---------------------------------------------------------------------------

/// The number of bytes that the pieces of a body come to, as long as none ends the reading.
pub open spec fn read_all(limit: usize, full: bool, max: u64, pieces: Seq<usize>) -> Result<usize, u16>
    decreases pieces.len(),
{
    if pieces.len() == 0 {
        Ok(0)
    } else {
        match read_all(limit, full, max, pieces.drop_last()) {
            Err(e) => Err(e),
            Ok(n) => took(limit, full, max, n, pieces.last(), false),
        }
    }
}

/// A whole body that is seen fits in the limit, and no body that is seen exceeds the client's limit.
pub proof fn law_inspected_bodies_fit(limit: usize, full: bool, max: u64, pieces: Seq<usize>)
    requires
        read_all(limit, full, max, pieces) is Ok,
    ensures
        full ==> read_all(limit, full, max, pieces)->Ok_0 <= limit,
        max > 0 ==> read_all(limit, full, max, pieces)->Ok_0 <= max,
    decreases pieces.len(),
{
}

/// A body is looked at as the policy says; one that is known to be too long to be looked at whole is refused.
pub proof fn law_bodies_are_looked_at(policy: BodyPolicy, fields: Seq<Field>, n: u64, limit: usize)
    requires
        first_text_of(fields, "content-length"@) == Some(text::decimal(n as nat)),
        limit <= 262144,
    ensures
        policy.inspection == Inspection::Off ==> started(policy, fields, false) == Start::Off,
        policy.inspection == Inspection::Full(limit) ==> {
            &&& n > limit ==> started(policy, fields, false) == Start::TooLong
            &&& n <= limit ==> started(policy, fields, false) == Start::Read((limit + 65536) as usize)
            &&& n <= limit ==> started(policy, fields, true) == Start::Empty
        },
        policy.inspection == Inspection::Prefix(limit) ==> started(policy, fields, false) == Start::Read(
            (limit + 65536) as usize,
        ),
{
    text::lemma_decimal_reads_back(n as nat);
}

/// Reading stops at the end of the body, and for a part of it where enough was read.
pub proof fn law_reading_stops(limit: usize, read: usize, full: bool)
    ensures
        turned(limit, full, read, true) == Turn::Stop(true),
        read >= limit ==> turned(limit, false, read, false) == Turn::Stop(false),
        read < limit ==> turned(limit, false, read, false) == Turn::Read,
        turned(limit, true, read, false) == Turn::Read,
{
}

/// What is read is counted; over a limit it is refused as too long.
pub proof fn law_read_bodies_are_counted(limit: usize, max: u64, read: usize, piece: usize, full: bool)
    requires
        read + piece <= usize::MAX,
    ensures
        max == 0 && !full ==> took(limit, full, max, read, piece, false) == Ok::<usize, u16>(
            (read + piece) as usize,
        ),
        max > 0 && read + piece > max ==> took(limit, full, max, read, piece, false) == Err::<usize, u16>(413),
        full && read + piece > limit ==> took(limit, full, max, read, piece, false) == Err::<usize, u16>(413),
        read + piece <= max && read + piece <= limit ==> took(limit, full, max, read, piece, false) == Ok::<
            usize,
            u16,
        >((read + piece) as usize),
        max == 0 && !full ==> took(limit, full, max, read, piece, true) == Err::<usize, u16>(500),
{
}

} // verus!

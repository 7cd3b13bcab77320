//! The fields of responses, and the answers that the proxy gives itself.
use crate::config::settings::added;
use crate::gateway;
use crate::gateway::routes::changed;
use crate::gateway::spec::FieldChanges;
use crate::header;
use crate::header::{dropped, placed, Headers};
use crate::model::{Added, AddedHeader};
use crate::proxy::planning::{expanded, Scene, Variables};
use crate::proxy::request::Progress;
use crate::script::field_edits;
use crate::text;
use vstd::prelude::*;
use vstd::utf8::encode_utf8;

verus! {

/// The head of a response.
#[derive(Debug)]
pub struct Response {
    pub status: u16,
    pub headers: Headers,
}

/// A field could not be set: its name or its value is none that a field can have.
#[derive(Clone, Copy, Debug, PartialEq, Eq, Structural)]
pub enum FieldError {
    Name,
    Value,
    Status,
}

pub open spec fn field_checked(name: Seq<char>, value: Seq<char>) -> Result<(), FieldError> {
    if !header::valid_name(name) {
        Err(FieldError::Name)
    } else if !header::valid_value(value) {
        Err(FieldError::Value)
    } else {
        Ok(())
    }
}

fn check_field(name: &str, value: &str) -> (r: Result<(), FieldError>)
    ensures
        r == field_checked(name@, value@),
{
    if header::name(name).is_none() {
        return Err(FieldError::Name);
    }
    if !header::value_accepted(value) {
        return Err(FieldError::Value);
    }
    Ok(())
}

/// The fields with one more, which is checked.
pub open spec fn with_field(v: Seq<(Seq<char>, Seq<u8>)>, name: Seq<char>, value: Seq<char>) -> Result<
    Seq<(Seq<char>, Seq<u8>)>,
    FieldError,
> {
    match field_checked(name, value) {
        Err(e) => Err(e),
        Ok(_) => Ok(v.push((text::lowercase(name), encode_utf8(value)))),
    }
}

/// The fields with this one in the place of those of its name, which is checked.
pub open spec fn set_field(v: Seq<(Seq<char>, Seq<u8>)>, name: Seq<char>, value: Seq<char>) -> Result<
    Seq<(Seq<char>, Seq<u8>)>,
    FieldError,
> {
    match field_checked(name, value) {
        Err(e) => Err(e),
        Ok(_) => Ok(placed(v, text::lowercase(name), encode_utf8(value))),
    }
}

/// Adds a field, which is checked.
pub fn append_field(headers: &mut Headers, name: &str, value: &str) -> (r: Result<(), FieldError>)
    ensures
        match r {
            Ok(_) => with_field(old(headers).raw(), name@, value@) == Ok::<
                Seq<(Seq<char>, Seq<u8>)>,
                FieldError,
            >(final(headers).raw()),
            Err(e) => final(headers).raw() == old(headers).raw() && with_field(
                old(headers).raw(),
                name@,
                value@,
            ) == Err::<Seq<(Seq<char>, Seq<u8>)>, FieldError>(e),
        },
{
    match check_field(name, value) {
        Err(e) => Err(e),
        Ok(_) => {
            headers.append(text::to_lowercase(name), text::bytes(value));
            Ok(())
        },
    }
}

/// Puts a field, which is checked, in the place of those of its name.
pub fn insert_field(headers: &mut Headers, name: &str, value: &str) -> (r: Result<(), FieldError>)
    ensures
        match r {
            Ok(_) => set_field(old(headers).raw(), name@, value@) == Ok::<
                Seq<(Seq<char>, Seq<u8>)>,
                FieldError,
            >(final(headers).raw()),
            Err(e) => final(headers).raw() == old(headers).raw() && set_field(
                old(headers).raw(),
                name@,
                value@,
            ) == Err::<Seq<(Seq<char>, Seq<u8>)>, FieldError>(e),
        },
{
    match check_field(name, value) {
        Err(e) => Err(e),
        Ok(_) => {
            headers.insert(text::to_lowercase(name), text::bytes(value));
            Ok(())
        },
    }
}

// ---------------------------------------------------------------------------
// Fields of the configuration
// ---------------------------------------------------------------------------

/// A status with which fields are added that are not added always.
pub open spec fn usual(status: u16) -> bool {
    status == 200 || status == 201 || status == 204 || status == 206 || status == 301 || status
        == 302 || status == 303 || status == 304 || status == 307 || status == 308
}

/// A response that is not the last one to its request.
pub open spec fn interim(status: u16) -> bool {
    100 <= status < 200 && status != 101
}

/// The fields with those that the configuration adds, as far as they can be added, and the error that ends
/// it; one whose value comes out empty is left out.
pub open spec fn with_added(
    v: Seq<(Seq<char>, Seq<u8>)>,
    status: u16,
    s: Scene,
    extra: Seq<Added>,
) -> (Seq<(Seq<char>, Seq<u8>)>, Option<FieldError>)
    decreases extra.len(),
{
    if extra.len() == 0 {
        (v, None)
    } else {
        let (w, error) = with_added(v, status, s, extra.drop_last());
        let h = extra.last();
        let value = expanded(s, h.value, Seq::empty(), 0);
        if error is None && (h.always || usual(status)) && value.len() > 0 {
            match with_field(w, h.name, value) {
                Ok(x) => (x, None),
                Err(e) => (w, Some(e)),
            }
        } else {
            (w, error)
        }
    }
}

proof fn lemma_added_error(
    v: Seq<(Seq<char>, Seq<u8>)>,
    status: u16,
    s: Scene,
    extra: Seq<Added>,
    i: int,
)
    requires
        0 <= i <= extra.len(),
        with_added(v, status, s, extra.take(i)).1 is Some,
    ensures
        with_added(v, status, s, extra) == with_added(v, status, s, extra.take(i)),
    decreases extra.len(),
{
    if i < extra.len() {
        assert(extra.drop_last().take(i) =~= extra.take(i));
        lemma_added_error(v, status, s, extra.drop_last(), i);
    } else {
        assert(extra.take(i) =~= extra);
    }
}

pub open spec fn changes_of(p: Option<&gateway::spec::Headers>) -> Option<FieldChanges> {
    match p {
        Some(h) => Some(h@),
        None => None,
    }
}

/// The fields of a response as the route's configuration wants them, as far as they can be given.
pub open spec fn decorated(
    v: Seq<(Seq<char>, Seq<u8>)>,
    status: u16,
    s: Scene,
    changes: Option<FieldChanges>,
    extra: Seq<Added>,
) -> (Seq<(Seq<char>, Seq<u8>)>, Option<FieldError>) {
    if interim(status) {
        (v, None)
    } else {
        with_added(
            match changes {
                Some(c) => changed(v, c),
                None => v,
            },
            status,
            s,
            extra,
        )
    }
}

impl Progress {
    /// The text with its variables replaced.
    pub fn expand(&self, input: &str, proxy_host: &str) -> (out: String)
        requires
            self.request.wf(),
        ensures
            out@ == expanded(self@, input@, proxy_host@, 0),
    {
        let v = Variables {
            request: &self.request,
            edits: &self.edits,
            original_uri: self.original_uri.as_str(),
            original_peer: self.original_peer.as_str(),
            scheme: self.scheme.as_str(),
            server_name: self.server_name.as_str(),
        };
        assert(v@ =~= self@);
        v.expand(input, proxy_host)
    }
}

fn is_usual(status: u16) -> (r: bool)
    ensures
        r == usual(status),
{
    status == 200 || status == 201 || status == 204 || status == 206 || status == 301 || status
        == 302 || status == 303 || status == 304 || status == 307 || status == 308
}

/// Gives a response the fields that the route's configuration wants, as far as they can be given.
pub fn decorate(
    response: &mut Response,
    p: &Progress,
    changes: Option<&gateway::spec::Headers>,
    extra: &Vec<AddedHeader>,
) -> (r: Result<(), FieldError>)
    requires
        p.request.wf(),
    ensures
        final(response).status == old(response).status,
        (
            final(response).headers.raw(),
            match r {
                Ok(_) => None,
                Err(e) => Some(e),
            },
        ) == decorated(
            old(response).headers.raw(),
            old(response).status,
            p@,
            changes_of(changes),
            added(extra@),
        ),
{
    let status = response.status;
    if 100 <= status && status < 200 && status != 101 {
        return Ok(());
    }
    if let Some(c) = changes {
        c.apply(&mut response.headers);
    }
    let ghost start = response.headers.raw();
    let ghost all = added(extra@);
    proof {
        reveal_strlit("");
        assert(""@ =~= Seq::<char>::empty());
    }
    let mut i: usize = 0;
    while i < extra.len()
        invariant
            i <= extra.len(),
            p.request.wf(),
            all == added(extra@),
            ""@ == Seq::<char>::empty(),
            response.status == status,
            status == old(response).status,
            !interim(status),
            start == match changes_of(changes) {
                Some(c) => changed(old(response).headers.raw(), c),
                None => old(response).headers.raw(),
            },
            with_added(start, status, p@, all.take(i as int)) == (
                response.headers.raw(),
                None::<FieldError>,
            ),
        decreases extra.len() - i,
    {
        let h = &extra[i];
        proof {
            assert(all.take(i + 1).drop_last() =~= all.take(i as int));
            assert(all.take(i + 1).last() == h@);
        }
        if h.always || is_usual(status) {
            let value = p.expand(h.value.as_str(), "");
            if !value.as_str().is_empty() {
                match append_field(&mut response.headers, h.name.as_str(), value.as_str()) {
                    Ok(_) => {},
                    Err(e) => {
                        proof {
                            lemma_added_error(start, status, p@, all, i + 1);
                        }
                        return Err(e);
                    },
                }
            }
        }
        i += 1;
    }
    assert(all.take(i as int) =~= all);
    Ok(())
}

// ---------------------------------------------------------------------------
// Edits
// ---------------------------------------------------------------------------

/// The fields with edits one after the other: one with a value is set, one without is removed.
pub open spec fn with_edits(
    v: Seq<(Seq<char>, Seq<u8>)>,
    edits: Seq<(Seq<char>, Option<Seq<char>>)>,
) -> Result<Seq<(Seq<char>, Seq<u8>)>, FieldError>
    decreases edits.len(),
{
    if edits.len() == 0 {
        Ok(v)
    } else {
        match with_edits(v, edits.drop_last()) {
            Err(e) => Err(e),
            Ok(w) => match edits.last().1 {
                Some(value) => set_field(w, edits.last().0, value),
                None => Ok(dropped(w, text::lowercase(edits.last().0))),
            },
        }
    }
}

proof fn lemma_edits_error(
    v: Seq<(Seq<char>, Seq<u8>)>,
    edits: Seq<(Seq<char>, Option<Seq<char>>)>,
    i: int,
)
    requires
        0 <= i <= edits.len(),
        with_edits(v, edits.take(i)) is Err,
    ensures
        with_edits(v, edits) == with_edits(v, edits.take(i)),
    decreases edits.len(),
{
    if i < edits.len() {
        assert(edits.drop_last().take(i) =~= edits.take(i));
        lemma_edits_error(v, edits.drop_last(), i);
    } else {
        assert(edits.take(i) =~= edits);
    }
}

/// Makes the edits of a script. Where that fails, the message is not to be used.
pub fn edit_fields(headers: &mut Headers, edits: &Vec<(String, Option<String>)>) -> (r: Result<
    (),
    FieldError,
>)
    ensures
        match r {
            Ok(_) => with_edits(old(headers).raw(), field_edits(edits@)) == Ok::<
                Seq<(Seq<char>, Seq<u8>)>,
                FieldError,
            >(final(headers).raw()),
            Err(e) => with_edits(old(headers).raw(), field_edits(edits@)) == Err::<
                Seq<(Seq<char>, Seq<u8>)>,
                FieldError,
            >(e),
        },
{
    let ghost start = headers.raw();
    let ghost all = field_edits(edits@);
    let mut i: usize = 0;
    while i < edits.len()
        invariant
            i <= edits.len(),
            all == field_edits(edits@),
            start == old(headers).raw(),
            with_edits(start, all.take(i as int)) == Ok::<Seq<(Seq<char>, Seq<u8>)>, FieldError>(
                headers.raw(),
            ),
        decreases edits.len() - i,
    {
        proof {
            assert(all.take(i + 1).drop_last() =~= all.take(i as int));
            assert(all.take(i + 1).last() == all[i as int]);
        }
        match &edits[i].1 {
            Some(value) => match insert_field(headers, edits[i].0.as_str(), value.as_str()) {
                Ok(_) => {},
                Err(e) => {
                    proof {
                        lemma_edits_error(start, all, i + 1);
                    }
                    return Err(e);
                },
            },
            None => {
                headers.remove(text::to_lowercase(edits[i].0.as_str()).as_str());
            },
        }
        i += 1;
    }
    assert(all.take(i as int) =~= all);
    Ok(())
}

// ---------------------------------------------------------------------------
// Answers of the proxy itself
// ---------------------------------------------------------------------------

/// A status that a response can have.
pub open spec fn status_valid(status: u16) -> bool {
    100 <= status <= 999
}

/// A status whose responses have no body.
pub open spec fn bodiless(status: u16) -> bool {
    status == 204 || status == 304
}

/// The fields of an answer with a text and perhaps an address.
pub open spec fn reply_fields(status: u16, body: Seq<char>, location: Option<Seq<char>>) -> Result<
    Seq<(Seq<char>, Seq<u8>)>,
    FieldError,
> {
    let v = seq![("content-type"@, encode_utf8("text/plain; charset=utf-8"@))];
    let w = if bodiless(status) {
        v
    } else {
        v.push(("content-length"@, encode_utf8(text::decimal(text::byte_len(body)))))
    };
    if !status_valid(status) {
        Err(FieldError::Status)
    } else {
        match location {
            None => Ok(w),
            Some(l) => if header::valid_value(l) {
                Ok(w.push(("location"@, encode_utf8(l))))
            } else {
                Err(FieldError::Value)
            },
        }
    }
}

/// An answer with a text and perhaps an address, before the configuration's fields.
pub fn reply(status: u16, body: &str, location: &Option<String>) -> (r: Result<Response, FieldError>)
    ensures
        match r {
            Ok(p) => p.status == status && reply_fields(status, body@, text::opt(*location)) == Ok::<
                Seq<(Seq<char>, Seq<u8>)>,
                FieldError,
            >(p.headers.raw()),
            Err(e) => reply_fields(status, body@, text::opt(*location)) == Err::<
                Seq<(Seq<char>, Seq<u8>)>,
                FieldError,
            >(e),
        },
{
    if !(100 <= status && status <= 999) {
        return Err(FieldError::Status);
    }
    let mut headers = Headers { fields: Vec::new() };
    assert(headers.raw() =~= Seq::empty());
    headers.append("content-type".to_owned(), text::bytes("text/plain; charset=utf-8"));
    assert(headers.raw() =~= seq![
        ("content-type"@, encode_utf8("text/plain; charset=utf-8"@)),
    ]);
    if status != 204 && status != 304 {
        let n = text::len(body);
        headers.append(
            "content-length".to_owned(),
            text::bytes(text::decimal_string(n as u64).as_str()),
        );
    }
    if let Some(l) = location {
        if !header::value_accepted(l.as_str()) {
            return Err(FieldError::Value);
        }
        headers.append("location".to_owned(), text::bytes(l.as_str()));
    }
    Ok(Response { status, headers })
}

/// Whether a text is sent behind the fields of an answer.
pub fn sends_body(method: &str, status: u16, body: &str) -> (r: bool)
    ensures
        r == (body@.len() > 0 && method@ != "HEAD"@ && !bodiless(status)),
{
    !body.is_empty() && !text::same(method, "HEAD") && status != 204 && status != 304
}

// ---------------------------------------------------------------------------
// Failures
// ---------------------------------------------------------------------------

/// What went wrong.
#[derive(Clone, Copy, Debug, PartialEq, Eq, Structural)]
pub enum Fault {
    Status(u16),
    ConnectTimeout,
    HandshakeTimeout,
    ReadTimeout,
    WriteTimeout,
    ReadError,
    WriteError,
    Closed,
    Other,
}

/// Where it went wrong.
#[derive(Clone, Copy, Debug, PartialEq, Eq, Structural)]
pub enum Side {
    Upstream,
    Downstream,
    Internal,
}

/// The status that a failure is answered with; 0 where the client is gone.
pub open spec fn failure_status(fault: Fault, side: Side) -> u16 {
    match (fault, side) {
        (Fault::Status(s), _) => s,
        (_, Side::Upstream) => if fault == Fault::ConnectTimeout || fault == Fault::HandshakeTimeout
            || fault == Fault::ReadTimeout || fault == Fault::WriteTimeout {
            504
        } else {
            502
        },
        (_, Side::Downstream) => if fault == Fault::WriteError || fault == Fault::ReadError || fault
            == Fault::Closed {
            0
        } else {
            400
        },
        (_, Side::Internal) => 500,
    }
}

/// The status that a failure is answered with; 0 where the client is gone.
pub fn fail_status(fault: Fault, side: Side) -> (r: u16)
    ensures
        r == failure_status(fault, side),
{
    match (fault, side) {
        (Fault::Status(s), _) => s,
        (_, Side::Upstream) => match fault {
            Fault::ConnectTimeout
            | Fault::HandshakeTimeout
            | Fault::ReadTimeout
            | Fault::WriteTimeout => 504,
            _ => 502,
        },
        (_, Side::Downstream) => match fault {
            Fault::WriteError | Fault::ReadError | Fault::Closed => 0,
            _ => 400,
        },
        (_, Side::Internal) => 500,
    }
}

/// The fields of the answer to a failure.
pub open spec fn failure_fields(status: u16) -> Seq<(Seq<char>, Seq<u8>)> {
    let v = seq![("content-length"@, encode_utf8("0"@))];
    let w = if status == 429 || status == 503 {
        v.push(("retry-after"@, encode_utf8("1"@)))
    } else {
        v
    };
    if status == 401 {
        w.push(("www-authenticate"@, encode_utf8("Bearer"@)))
    } else {
        w
    }
}

/// The answer to a failure, before the configuration's fields.
pub fn failure(status: u16) -> (r: Response)
    ensures
        r.status == status,
        r.headers.raw() == failure_fields(status),
{
    let mut headers = Headers { fields: Vec::new() };
    assert(headers.raw() =~= Seq::empty());
    headers.append("content-length".to_owned(), text::bytes("0"));
    assert(headers.raw() =~= seq![("content-length"@, encode_utf8("0"@))]);
    if status == 429 || status == 503 {
        headers.append("retry-after".to_owned(), text::bytes("1"));
    }
    if status == 401 {
        headers.append("www-authenticate".to_owned(), text::bytes("Bearer"));
    }
    Response { status, headers }
}

/// The answer to a failure, with the fields that the route's configuration wants. Where those cannot be
/// given, the failure is one of the server, with as many of them as can.
pub fn fail_to_proxy(
    status: u16,
    p: &Progress,
    changes: Option<&gateway::spec::Headers>,
    extra: &Vec<AddedHeader>,
) -> (r: Response)
    requires
        p.request.wf(),
    ensures
        ({
            let (v, error) = decorated(
                failure_fields(status),
                status,
                p@,
                changes_of(changes),
                added(extra@),
            );
            if error is None {
                r.status == status && r.headers.raw() == v
            } else {
                r.status == 500 && r.headers.raw() == decorated(
                    failure_fields(500),
                    500,
                    p@,
                    changes_of(changes),
                    added(extra@),
                ).0
            }
        }),
{
    let mut response = failure(status);
    match decorate(&mut response, p, changes, extra) {
        Ok(_) => response,
        Err(_) => {
            let mut second = failure(500);
            let _ = decorate(&mut second, p, changes, extra);
            second
        },
    }
}

/// A failed request never looks like one that went well.
pub proof fn law_failures_are_not_successes(fault: Fault, side: Side)
    requires
        fault is Status ==> fault->Status_0 >= 400,
    ensures
        failure_status(fault, side) == 0 || failure_status(fault, side) >= 400,
{
}

/// A timeout of a backend is answered with 504, any other fault of it with 502; a client that is gone gets
/// nothing, and one that asks wrongly 400; what is wrong inside is answered with 500. A fault with a status of
/// its own is answered with that.
pub proof fn law_faults_have_their_status(fault: Fault, side: Side, status: u16)
    ensures
        failure_status(Fault::Status(status), side) == status,
        failure_status(Fault::ConnectTimeout, Side::Upstream) == 504,
        failure_status(Fault::HandshakeTimeout, Side::Upstream) == 504,
        failure_status(Fault::ReadTimeout, Side::Upstream) == 504,
        failure_status(Fault::WriteTimeout, Side::Upstream) == 504,
        failure_status(Fault::ReadError, Side::Upstream) == 502,
        failure_status(Fault::WriteError, Side::Upstream) == 502,
        failure_status(Fault::Closed, Side::Upstream) == 502,
        failure_status(Fault::Other, Side::Upstream) == 502,
        failure_status(Fault::Closed, Side::Downstream) == 0,
        failure_status(Fault::ReadError, Side::Downstream) == 0,
        failure_status(Fault::WriteError, Side::Downstream) == 0,
        failure_status(Fault::ReadTimeout, Side::Downstream) == 400,
        failure_status(Fault::Other, Side::Downstream) == 400,
        fault !is Status ==> failure_status(fault, Side::Internal) == 500,
{
}

/// A failed response has no body; it says when to come back where that helps, and how to authenticate where
/// that is missing.
pub proof fn law_failures_say_what_helps(status: u16)
    ensures
        failure_fields(status).contains(("content-length"@, encode_utf8("0"@))),
        failure_fields(status).contains(("retry-after"@, encode_utf8("1"@))) <==> status == 429 || status
            == 503,
        failure_fields(status).contains(("www-authenticate"@, encode_utf8("Bearer"@))) <==> status == 401,
{
    let v = failure_fields(status);
    assert(v[0] == ("content-length"@, encode_utf8("0"@)));
    reveal_strlit("retry-after");
    reveal_strlit("content-length");
    assert("retry-after"@.len() != "content-length"@.len());
    reveal_strlit("www-authenticate");
    assert("retry-after"@.len() != "www-authenticate"@.len());
    reveal_strlit("www-authenticate");
    reveal_strlit("content-length");
    assert("www-authenticate"@.len() != "content-length"@.len());
    if status == 429 || status == 503 {
        assert(v[1] == ("retry-after"@, encode_utf8("1"@)));
        assert(v.len() == 2);
    } else if status == 401 {
        assert(v[1] == ("www-authenticate"@, encode_utf8("Bearer"@)));
        assert(v.len() == 2);
    } else {
        assert(v.len() == 1);
    }
}

/// An answer of a few words has their length in bytes, and the place to go to where there is one.
pub proof fn law_replies_have_their_length(status: u16, body: Seq<char>, location: Option<Seq<char>>)
    requires
        reply_fields(status, body, location) is Ok,
    ensures
        ({
            let v = reply_fields(status, body, location)->Ok_0;
            &&& v[0] == ("content-type"@, encode_utf8("text/plain; charset=utf-8"@))
            &&& status != 204 && status != 304 ==> v[1] == (
                "content-length"@,
                encode_utf8(text::decimal(encode_utf8(body).len())),
            )
            &&& location matches Some(l) ==> v.last() == ("location"@, encode_utf8(l))
            &&& v.len() == 1 + (if status == 204 || status == 304 {
                0int
            } else {
                1
            }) + (if location is Some {
                1int
            } else {
                0
            })
        }),
        100 <= status <= 999,
{
}

/// Fields are added to every response with `always`, and to the others only to usual ones.
pub proof fn law_added_fields_are_for_their_responses(
    v: Seq<(Seq<char>, Seq<u8>)>,
    status: u16,
    s: Scene,
    h: Added,
)
    requires
        expanded(s, h.value, Seq::empty(), 0).len() > 0,
        header::valid_name(h.name),
        header::valid_value(expanded(s, h.value, Seq::empty(), 0)),
        status >= 200,
    ensures
        h.always ==> decorated(v, status, s, None, seq![h]).0 == v.push(
            (text::lowercase(h.name), encode_utf8(expanded(s, h.value, Seq::empty(), 0))),
        ),
        !h.always && status >= 400 ==> decorated(v, status, s, None, seq![h]).0 == v,
        !h.always && (status == 200 || status == 201 || status == 204 || status == 206 || status == 301
            || status == 302 || status == 303 || status == 304 || status == 307 || status == 308)
            ==> decorated(v, status, s, None, seq![h]).0 == v.push(
            (text::lowercase(h.name), encode_utf8(expanded(s, h.value, Seq::empty(), 0))),
        ),
{
    assert(seq![h].drop_last() =~= Seq::empty());
    reveal_with_fuel(with_added, 2);
}

/// Interim responses are passed on as they are.
pub proof fn law_interim_responses_stay(
    v: Seq<(Seq<char>, Seq<u8>)>,
    status: u16,
    s: Scene,
    changes: Option<FieldChanges>,
    extra: Seq<Added>,
)
    requires
        100 <= status < 200,
        status != 101,
    ensures
        decorated(v, status, s, changes, extra) == (v, None::<FieldError>),
{
}

/// A field that a script sets has that one value, and one that it removes is gone; others stay.
pub proof fn law_edited_fields_have_their_value(
    v: Seq<(Seq<char>, Seq<u8>)>,
    name: Seq<char>,
    value: Seq<char>,
    other: Seq<char>,
)
    requires
        header::valid_name(name),
        header::valid_value(value),
        other != text::lowercase(name),
    ensures
        with_edits(v, seq![(name, Some(value))]) matches Ok(w) && header::raw_values(
            w,
            text::lowercase(name),
        ) == seq![encode_utf8(value)] && header::raw_values(w, other) == header::raw_values(v, other),
        with_edits(v, seq![(name, None::<Seq<char>>)]) matches Ok(w) && header::raw_values(
            w,
            text::lowercase(name),
        ).len() == 0 && header::raw_values(w, other) == header::raw_values(v, other),
{
    let a = seq![(name, Some(value))];
    let b = seq![(name, None::<Seq<char>>)];
    assert(a.drop_last() =~= Seq::empty());
    assert(b.drop_last() =~= Seq::empty());
    reveal_with_fuel(with_edits, 2);
    header::law_set_fields_have_one_value(v, text::lowercase(name), encode_utf8(value), other);
    header::lemma_dropped(v, text::lowercase(name), text::lowercase(name));
    header::lemma_dropped(v, text::lowercase(name), other);
}

/// A field whose name or value cannot be sent is refused.
pub proof fn law_bad_fields_are_refused(v: Seq<(Seq<char>, Seq<u8>)>, name: Seq<char>, value: Seq<char>)
    ensures
        with_field(v, name, value) is Ok <==> header::valid_name(name) && header::valid_value(value),
        set_field(v, name, value) is Ok <==> header::valid_name(name) && header::valid_value(value),
        with_field(v, name, value) matches Ok(w) ==> w.drop_last() == v && w.last() == (
            text::lowercase(name),
            encode_utf8(value),
        ),
{
    if with_field(v, name, value) is Ok {
        assert(with_field(v, name, value)->Ok_0.drop_last() =~= v);
    }
}

} // verus!

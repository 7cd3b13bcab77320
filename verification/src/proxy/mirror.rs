//! Copies of requests that go to a second backend, whose answers nobody sees.
use crate::header::{raw_values, Headers};
use crate::net::Ip;
use crate::proxy::request::{all_removed, is_v6, remove_all};
use crate::script::{Request, RequestData};
use crate::text;
use vstd::prelude::*;
use vstd::utf8::encode_utf8;

verus! {

/// What becomes of the copy of a request.
#[derive(Clone, Copy, Debug, PartialEq, Eq, Structural)]
pub enum Copying {
    /// The request is not in the sample.
    Not,
    /// The request is in the sample, but no copy is made; whether a namespace's quota is why.
    Skipped(bool),
    Copy,
}

/// Whether a draw falls into the share of requests that is copied.
pub open spec fn sampled(draw: u32, percent: u32) -> bool {
    draw % 100 < percent
}

/// Whether a request is in a sample of so many of a hundred.
pub fn in_sample(draw: u32, percent: u32) -> (r: bool)
    ensures
        r == (draw % 100 < percent),
        r == sampled(draw, percent),
{
    draw % 100 < percent
}

/// A request of which no copy is made: one that becomes another protocol, a gRPC call, or one whose body is
/// known to be too long.
pub open spec fn uncopied(
    fields: Seq<(Seq<char>, Seq<u8>)>,
    r: Request,
    upgraded: bool,
    max_body: usize,
) -> bool {
    ||| upgraded
    ||| raw_values(fields, "upgrade"@).len() > 0
    ||| (r.header("content-type"@) is Some && text::starts(
        r.header("content-type"@)->0,
        "application/grpc"@,
    ))
    ||| (raw_values(fields, "content-length"@).len() > 0 && match crate::header::visible_text(
        raw_values(fields, "content-length"@)[0],
    ) {
        None => false,
        Some(s) => match text::decimal_upto(s, usize::MAX as nat) {
            None => false,
            Some(n) => n > max_body,
        },
    })
}

pub fn skips_copy(headers: &Headers, request: &RequestData, upgraded: bool, max_body: usize) -> (r: bool)
    requires
        request.wf(),
    ensures
        r == uncopied(headers.raw(), request@, upgraded, max_body),
{
    proof {
        crate::header::lemma_raw_values(headers.fields@, "upgrade"@);
        crate::header::lemma_raw_values(headers.fields@, "content-length"@);
    }
    if upgraded || headers.has("upgrade") {
        return true;
    }
    if let Some(t) = request.header("content-type") {
        if text::starts_with(t, "application/grpc") {
            return true;
        }
    }
    match headers.first_text("content-length") {
        None => false,
        Some(s) => match text::parse_usize(s.as_str()) {
            None => false,
            Some(n) => n > max_body,
        },
    }
}

/// What becomes of the copy of a request in the sample; `tenant` is whether its namespace has room, where it
/// belongs to one.
pub open spec fn copying(skip: bool, global: bool, tenant: Option<bool>) -> Copying {
    if skip || !global || tenant == Some(false) {
        Copying::Skipped(!skip && tenant == Some(false))
    } else {
        Copying::Copy
    }
}

pub fn decide_copy(skip: bool, global: bool, tenant: Option<bool>) -> (r: Copying)
    ensures
        r == copying(skip, global, tenant),
{
    let full = match tenant {
        Some(room) => !room,
        None => false,
    };
    if skip || !global || full {
        Copying::Skipped(!skip && full)
    } else {
        Copying::Copy
    }
}

/// Keeps one more piece of a body; `false` where the copy becomes too long, which ends it.
pub fn keep_piece(body: &mut Vec<u8>, piece: &Vec<u8>, limit: usize) -> (r: bool)
    ensures
        r == (old(body)@.len() + piece@.len() <= limit),
        final(body)@ == if r {
            old(body)@ + piece@
        } else {
            old(body)@
        },
{
    if body.len() > limit || piece.len() > limit - body.len() {
        return false;
    }
    let ghost start = body@;
    let mut i: usize = 0;
    assert(start + piece@.take(0) =~= start);
    while i < piece.len()
        invariant
            i <= piece.len(),
            body@ == start + piece@.take(i as int),
        decreases piece.len() - i,
    {
        body.push(piece[i]);
        i += 1;
        assert(body@ =~= start + piece@.take(i as int));
    }
    assert(piece@.take(i as int) =~= piece@);
    true
}

/// The fields that a copy does not take over.
pub open spec fn uncopied_fields() -> Seq<Seq<char>> {
    seq![
        "host"@,
        "content-length"@,
        "transfer-encoding"@,
        "connection"@,
        "upgrade"@,
        "expect"@,
        "trailer"@,
    ]
}

/// The fields of a copy.
pub open spec fn copied_fields(v: Seq<(Seq<char>, Seq<u8>)>, host: Seq<char>) -> Seq<
    (Seq<char>, Seq<u8>),
> {
    all_removed(v, uncopied_fields()).push(("host"@, encode_utf8(host))).push(
        ("x-rgnix-mirror"@, encode_utf8("true"@)),
    )
}

pub fn copy_headers(headers: &Headers, host: &str) -> (out: Headers)
    ensures
        out.raw() == copied_fields(headers.raw(), host@),
{
    let mut names: Vec<String> = Vec::new();
    names.push("host".to_owned());
    names.push("content-length".to_owned());
    names.push("transfer-encoding".to_owned());
    names.push("connection".to_owned());
    names.push("upgrade".to_owned());
    names.push("expect".to_owned());
    names.push("trailer".to_owned());
    assert(text::texts(names@) =~= uncopied_fields());
    let mut out = headers.copy();
    remove_all(&mut out, &names);
    out.append("host".to_owned(), text::bytes(host));
    out.append("x-rgnix-mirror".to_owned(), text::bytes("true"));
    out
}

/// The address that a copy goes to.
pub open spec fn copy_address(tls: bool, name: Seq<char>, v6: bool, port: u16, uri: Seq<char>) -> Seq<
    char,
> {
    (if tls {
        "https://"@
    } else {
        "http://"@
    }) + (if v6 {
        "["@ + name + "]"@
    } else {
        name
    }) + ":"@ + text::decimal(port as nat) + uri
}

/// The address that a copy goes to; `ip` is what the backend's name was read as.
pub fn copy_url(tls: bool, name: &str, ip: Option<Ip>, port: u16, uri: &str) -> (out: String)
    ensures
        out@ == copy_address(tls, name@, is_v6(ip), port, uri@),
{
    let mut out = if tls {
        "https://".to_owned()
    } else {
        "http://".to_owned()
    };
    match ip {
        Some(Ip::V6(_)) => out.append(text::concat3("[", name, "]").as_str()),
        _ => out.append(name),
    }
    out.append(":");
    out.append(text::decimal_string(port as u64).as_str());
    out.append(uri);
    out
}

/// A copy goes to the host of the copies, says that it is one, and has none of the fields of the first request's
/// connection; other fields are as they were.
pub proof fn law_copies_are_marked(v: Seq<(Seq<char>, Seq<u8>)>, host: Seq<char>, other: Seq<char>)
    requires
        raw_values(v, "x-rgnix-mirror"@).len() == 0,
        !uncopied_fields().contains(other),
        other != "x-rgnix-mirror"@,
    ensures
        raw_values(copied_fields(v, host), "host"@) == seq![encode_utf8(host)],
        raw_values(copied_fields(v, host), "x-rgnix-mirror"@) == seq![encode_utf8("true"@)],
        raw_values(copied_fields(v, host), "content-length"@).len() == 0,
        raw_values(copied_fields(v, host), "transfer-encoding"@).len() == 0,
        raw_values(copied_fields(v, host), "connection"@).len() == 0,
        raw_values(copied_fields(v, host), "upgrade"@).len() == 0,
        raw_values(copied_fields(v, host), "expect"@).len() == 0,
        raw_values(copied_fields(v, host), other) == raw_values(v, other),
{
    let n = uncopied_fields();
    let w = all_removed(v, n);
    reveal_strlit("host");
    reveal_strlit("x-rgnix-mirror");
    assert("host"@.len() != "x-rgnix-mirror"@.len());
    reveal_strlit("content-length");
    assert("host"@.len() != "content-length"@.len());
    reveal_strlit("transfer-encoding");
    assert("host"@.len() != "transfer-encoding"@.len());
    reveal_strlit("connection");
    assert("host"@.len() != "connection"@.len());
    reveal_strlit("upgrade");
    assert("host"@.len() != "upgrade"@.len());
    reveal_strlit("expect");
    assert("host"@.len() != "expect"@.len());
    reveal_strlit("x-rgnix-mirror");
    reveal_strlit("content-length");
    assert("x-rgnix-mirror"@[0] != "content-length"@[0]);
    reveal_strlit("transfer-encoding");
    assert("x-rgnix-mirror"@.len() != "transfer-encoding"@.len());
    reveal_strlit("connection");
    assert("x-rgnix-mirror"@.len() != "connection"@.len());
    reveal_strlit("upgrade");
    assert("x-rgnix-mirror"@.len() != "upgrade"@.len());
    reveal_strlit("expect");
    assert("x-rgnix-mirror"@.len() != "expect"@.len());
    reveal_strlit("trailer");
    assert("x-rgnix-mirror"@.len() != "trailer"@.len());
    assert(n[0] == "host"@);
    assert(n[1] == "content-length"@);
    assert(n[2] == "transfer-encoding"@);
    assert(n[3] == "connection"@);
    assert(n[4] == "upgrade"@);
    assert(n[5] == "expect"@);
    assert(!n.contains("x-rgnix-mirror"@));
    lemma_removed(v, n, "host"@);
    lemma_removed(v, n, "content-length"@);
    lemma_removed(v, n, "transfer-encoding"@);
    lemma_removed(v, n, "connection"@);
    lemma_removed(v, n, "upgrade"@);
    lemma_removed(v, n, "expect"@);
    lemma_removed(v, n, "x-rgnix-mirror"@);
    lemma_removed(v, n, other);
    let h = ("host"@, encode_utf8(host));
    let m = ("x-rgnix-mirror"@, encode_utf8("true"@));
    assert(w.push(h).drop_last() =~= w);
    assert(w.push(h).push(m).drop_last() =~= w.push(h));
    reveal_with_fuel(raw_values, 3);
    assert(raw_values(w, "host"@) =~= Seq::empty());
    assert(raw_values(w, "x-rgnix-mirror"@) =~= Seq::empty());
}

proof fn lemma_removed(v: Seq<(Seq<char>, Seq<u8>)>, names: Seq<Seq<char>>, name: Seq<char>)
    ensures
        names.contains(name) ==> raw_values(all_removed(v, names), name).len() == 0,
        !names.contains(name) ==> raw_values(all_removed(v, names), name) == raw_values(v, name),
    decreases names.len(),
{
    if names.len() > 0 {
        let l = names.drop_last();
        lemma_removed(v, l, name);
        crate::header::lemma_dropped(all_removed(v, l), names.last(), name);
        if names.contains(name) && name != names.last() {
            let i = choose|i: int| 0 <= i < names.len() && names[i] == name;
            assert(l[i] == name);
        }
        if l.contains(name) {
            let i = choose|i: int| 0 <= i < l.len() && l[i] == name;
            assert(names[i] == name);
        }
    }
}

/// No copy is made of what was switched to another protocol, of a call, or of a body that is too long.
pub proof fn law_some_requests_are_not_copied(
    fields: Seq<(Seq<char>, Seq<u8>)>,
    r: Request,
    max_body: usize,
    n: usize,
)
    ensures
        uncopied(fields, r, true, max_body),
        raw_values(fields, "upgrade"@).len() > 0 ==> uncopied(fields, r, false, max_body),
        r.header("content-type"@) == Some("application/grpc"@) ==> uncopied(fields, r, false, max_body),
        raw_values(fields, "upgrade"@).len() == 0 && r.header("content-type"@) is None && raw_values(
            fields,
            "content-length"@,
        ).len() > 0 && crate::header::visible_text(raw_values(fields, "content-length"@)[0]) == Some(
            text::decimal(n as nat),
        ) ==> (uncopied(fields, r, false, max_body) <==> n > max_body),
{
    text::lemma_decimal_reads_back(n as nat);
    assert("application/grpc"@.take("application/grpc"@.len() as int) =~= "application/grpc"@);
}

/// A copy is made where the request is one to copy and both limits have room; which of them had none is told.
pub proof fn law_limits_decide_on_copies(skip: bool, global: bool, tenant: Option<bool>)
    ensures
        copying(true, global, tenant) == Copying::Skipped(false),
        copying(false, false, None) == Copying::Skipped(false),
        copying(false, global, Some(false)) == Copying::Skipped(true),
        copying(false, true, None) == Copying::Copy,
        copying(false, true, Some(true)) == Copying::Copy,
{
}

/// The address of a copy is that of its target, with the path and the query of the request.
pub proof fn law_copies_keep_the_target(name: Seq<char>, port: u16, uri: Seq<char>, tls: bool, v6: bool)
    ensures
        text::starts(copy_address(true, name, v6, port, uri), "https://"@),
        text::starts(copy_address(false, name, v6, port, uri), "http://"@),
        text::ends(copy_address(tls, name, v6, port, uri), ":"@ + text::decimal(port as nat) + uri),
        copy_address(false, name, false, port, uri) == "http://"@ + name + ":"@ + text::decimal(port as nat)
            + uri,
        copy_address(true, name, true, port, uri) == "https://["@ + name + "]:"@ + text::decimal(port as nat)
            + uri,
{
    reveal_strlit("https://");
    reveal_strlit("http://");
    reveal_strlit("https://[");
    reveal_strlit("[");
    reveal_strlit("]");
    reveal_strlit(":");
    reveal_strlit("]:");
    let a = copy_address(true, name, v6, port, uri);
    let b = copy_address(false, name, v6, port, uri);
    let c = copy_address(tls, name, v6, port, uri);
    let t = ":"@ + text::decimal(port as nat) + uri;
    assert(a.take("https://"@.len() as int) =~= "https://"@);
    assert(b.take("http://"@.len() as int) =~= "http://"@);
    assert(c.skip(c.len() - t.len()) =~= t);
    assert(copy_address(true, name, true, port, uri) =~= "https://["@ + name + "]:"@ + text::decimal(
        port as nat,
    ) + uri);
}

/// Of a hundred draws in a row as many fall into the share as its percentage says.
pub proof fn law_samples_are_a_share(draw: u32, percent: u32)
    ensures
        percent == 0 ==> !sampled(draw, percent),
        percent >= 100 ==> sampled(draw, percent),
        draw < 100 ==> (sampled(draw, percent) <==> draw < percent),
        draw <= u32::MAX - 100 ==> sampled((draw + 100) as u32, percent) == sampled(draw, percent),
{
}

} // verus!

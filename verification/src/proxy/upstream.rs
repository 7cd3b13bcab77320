//! What goes to a backend: the fields of the request, the cookie that binds a client to an endpoint, and
//! the limits of the body.
use crate::header::{
    dropped, law_set_fields_have_one_value, lemma_dropped, placed, raw_values, Headers,
};
use crate::proxy::planning::{expanded, Scene};
use crate::proxy::request::{all_removed, connection_options, elements, hop_fields, Progress};
use crate::proxy::request::{list_elements, strip_hop_headers};
use crate::proxy::responses::{
    edit_fields, insert_field, set_field, with_edits, FieldError,
};
use crate::script::Request;
use crate::text;
use vstd::prelude::*;
use vstd::utf8::encode_utf8;

verus! {

// ---------------------------------------------------------------------------
// The fields of the request
// ---------------------------------------------------------------------------

/// The longest trace state that is passed on, in bytes.
pub const MAX_TRACE_STATE: usize = 512;

/// Whether the client takes trailers.
pub open spec fn takes_trailers(r: Request) -> bool {
    match r.header("te"@) {
        None => false,
        Some(s) => elements(s).contains("trailers"@),
    }
}

fn client_takes_trailers(p: &Progress) -> (r: bool)
    requires
        p.request.wf(),
    ensures
        r == takes_trailers(p@.request),
{
    match p.request.header("te") {
        None => false,
        Some(s) => {
            let v = list_elements(s);
            text::contains(&v, "trailers")
        },
    }
}

/// Whether the client asks for a WebSocket.
pub open spec fn wants_socket(r: Request) -> bool {
    match r.header("upgrade"@) {
        None => false,
        Some(s) => text::lowercase(s) == "websocket"@,
    }
}

/// The fields by the rules of the route: each is set to the value that comes out, or removed where that
/// is empty.
pub open spec fn with_rules(
    v: Seq<(Seq<char>, Seq<u8>)>,
    s: Scene,
    host: Seq<char>,
    rules: Seq<(Seq<char>, Seq<char>)>,
) -> Result<Seq<(Seq<char>, Seq<u8>)>, FieldError>
    decreases rules.len(),
{
    if rules.len() == 0 {
        Ok(v)
    } else {
        match with_rules(v, s, host, rules.drop_last()) {
            Err(e) => Err(e),
            Ok(w) => {
                let value = expanded(s, rules.last().1, host, 0);
                if value.len() == 0 {
                    Ok(dropped(w, text::lowercase(rules.last().0)))
                } else {
                    set_field(w, rules.last().0, value)
                }
            },
        }
    }
}

proof fn lemma_rules_error(
    v: Seq<(Seq<char>, Seq<u8>)>,
    s: Scene,
    host: Seq<char>,
    rules: Seq<(Seq<char>, Seq<char>)>,
    i: int,
)
    requires
        0 <= i <= rules.len(),
        with_rules(v, s, host, rules.take(i)) is Err,
    ensures
        with_rules(v, s, host, rules) == with_rules(v, s, host, rules.take(i)),
    decreases rules.len(),
{
    if i < rules.len() {
        assert(rules.drop_last().take(i) =~= rules.take(i));
        lemma_rules_error(v, s, host, rules.drop_last(), i);
    } else {
        assert(rules.take(i) =~= rules);
    }
}

fn apply_rules(
    headers: &mut Headers,
    p: &Progress,
    host: &str,
    rules: &Vec<(String, String)>,
) -> (r: Result<(), FieldError>)
    requires
        p.request.wf(),
    ensures
        match r {
            Ok(_) => with_rules(old(headers).raw(), p@, host@, text::pairs(rules@)) == Ok::<
                Seq<(Seq<char>, Seq<u8>)>,
                FieldError,
            >(final(headers).raw()),
            Err(e) => with_rules(old(headers).raw(), p@, host@, text::pairs(rules@)) == Err::<
                Seq<(Seq<char>, Seq<u8>)>,
                FieldError,
            >(e),
        },
{
    let ghost start = headers.raw();
    let ghost all = text::pairs(rules@);
    let mut i: usize = 0;
    while i < rules.len()
        invariant
            i <= rules.len(),
            p.request.wf(),
            all == text::pairs(rules@),
            start == old(headers).raw(),
            with_rules(start, p@, host@, all.take(i as int)) == Ok::<
                Seq<(Seq<char>, Seq<u8>)>,
                FieldError,
            >(headers.raw()),
        decreases rules.len() - i,
    {
        proof {
            assert(all.take(i + 1).drop_last() =~= all.take(i as int));
            assert(all.take(i + 1).last() == (rules@[i as int].0@, rules@[i as int].1@));
        }
        let value = p.expand(rules[i].1.as_str(), host);
        if value.as_str().is_empty() {
            headers.remove(text::to_lowercase(rules[i].0.as_str()).as_str());
        } else {
            match insert_field(headers, rules[i].0.as_str(), value.as_str()) {
                Ok(_) => {},
                Err(e) => {
                    proof {
                        lemma_rules_error(start, p@, host@, all, i + 1);
                    }
                    return Err(e);
                },
            }
        }
        i += 1;
    }
    assert(all.take(i as int) =~= all);
    Ok(())
}

/// The fields with the trace of the request; a trace state that is too long goes.
pub open spec fn with_trace(v: Seq<(Seq<char>, Seq<u8>)>, trace: Option<Seq<char>>) -> Result<
    Seq<(Seq<char>, Seq<u8>)>,
    FieldError,
> {
    match trace {
        None => Ok(v),
        Some(t) => match set_field(v, "traceparent"@, t) {
            Err(e) => Err(e),
            Ok(w) => if raw_values(w, "tracestate"@).len() > 0 && raw_values(w, "tracestate"@)[0].len()
                > MAX_TRACE_STATE {
                Ok(dropped(w, "tracestate"@))
            } else {
                Ok(w)
            },
        },
    }
}

fn apply_trace(headers: &mut Headers, trace: &Option<String>) -> (r: Result<(), FieldError>)
    ensures
        match r {
            Ok(_) => with_trace(old(headers).raw(), text::opt(*trace)) == Ok::<
                Seq<(Seq<char>, Seq<u8>)>,
                FieldError,
            >(final(headers).raw()),
            Err(e) => with_trace(old(headers).raw(), text::opt(*trace)) == Err::<
                Seq<(Seq<char>, Seq<u8>)>,
                FieldError,
            >(e),
        },
{
    let t = match trace {
        None => return Ok(()),
        Some(t) => t,
    };
    match insert_field(headers, "traceparent", t.as_str()) {
        Err(e) => return Err(e),
        Ok(_) => {},
    }
    proof {
        crate::header::lemma_raw_values(headers.fields@, "tracestate"@);
    }
    let long = match headers.first("tracestate") {
        Some(v) => v.len() > MAX_TRACE_STATE,
        None => false,
    };
    if long {
        headers.remove("tracestate");
    }
    Ok(())
}

/// The fields of a connection that becomes a WebSocket.
pub open spec fn with_socket(v: Seq<(Seq<char>, Seq<u8>)>, r: Request) -> Seq<
    (Seq<char>, Seq<u8>),
> {
    if wants_socket(r) {
        placed(
            placed(v, "upgrade"@, encode_utf8("websocket"@)),
            "connection"@,
            encode_utf8("upgrade"@),
        )
    } else {
        v
    }
}

/// The fields of the request to a backend. Those of the connection stay behind; then come the host, the
/// rules of the route, the edits of scripts and of authorization, the trace, and the state of the transport.
pub open spec fn outbound_fields(
    v: Seq<(Seq<char>, Seq<u8>)>,
    s: Scene,
    host: Seq<char>,
    rules: Seq<(Seq<char>, Seq<char>)>,
    trace: Option<Seq<char>>,
) -> Result<Seq<(Seq<char>, Seq<u8>)>, FieldError> {
    let stripped = all_removed(all_removed(v, connection_options(v)), hop_fields());
    let a = if takes_trailers(s.request) {
        placed(stripped, "te"@, encode_utf8("trailers"@))
    } else {
        stripped
    };
    match set_field(a, "host"@, host) {
        Err(e) => Err(e),
        Ok(b) => match with_rules(b, s, host, rules) {
            Err(e) => Err(e),
            Ok(c) => match with_edits(c, s.edits.headers) {
                Err(e) => Err(e),
                Ok(d) => match with_trace(d, trace) {
                    Err(e) => Err(e),
                    Ok(f) => Ok(with_socket(f, s.request)),
                },
            },
        },
    }
}

/// Makes the fields of a request those of the request to a backend. Where that fails, the request is not to
/// be sent.
pub fn upstream_headers(
    headers: &mut Headers,
    p: &Progress,
    host: &str,
    rules: &Vec<(String, String)>,
    trace: &Option<String>,
) -> (r: Result<(), FieldError>)
    requires
        p.request.wf(),
    ensures
        match r {
            Ok(_) => outbound_fields(
                old(headers).raw(),
                p@,
                host@,
                text::pairs(rules@),
                text::opt(*trace),
            ) == Ok::<Seq<(Seq<char>, Seq<u8>)>, FieldError>(final(headers).raw()),
            Err(e) => outbound_fields(
                old(headers).raw(),
                p@,
                host@,
                text::pairs(rules@),
                text::opt(*trace),
            ) == Err::<Seq<(Seq<char>, Seq<u8>)>, FieldError>(e),
        },
{
    strip_hop_headers(headers);
    if client_takes_trailers(p) {
        headers.insert("te".to_owned(), text::bytes("trailers"));
    }
    match insert_field(headers, "host", host) {
        Err(e) => return Err(e),
        Ok(_) => {},
    }
    match apply_rules(headers, p, host, rules) {
        Err(e) => return Err(e),
        Ok(_) => {},
    }
    match edit_fields(headers, &p.edits.headers) {
        Err(e) => return Err(e),
        Ok(_) => {},
    }
    match apply_trace(headers, trace) {
        Err(e) => return Err(e),
        Ok(_) => {},
    }
    let socket = match p.request.header("upgrade") {
        None => false,
        Some(s) => text::same(text::to_lowercase(s).as_str(), "websocket"),
    };
    if socket {
        headers.insert("upgrade".to_owned(), text::bytes("websocket"));
        headers.insert("connection".to_owned(), text::bytes("upgrade"));
    }
    Ok(())
}

// ---------------------------------------------------------------------------
// Affinity
// ---------------------------------------------------------------------------

/// The value of a cookie that binds a client: 32 hexadecimal digits.
pub open spec fn affinity_value(s: Seq<char>) -> bool {
    s.len() == 32 && forall|i: int| 0 <= i < s.len() ==> text::spec_hex_digit(#[trigger] s[i])
}

fn is_affinity_value(s: &str) -> (r: bool)
    ensures
        r == affinity_value(s@),
{
    let v = text::chars(s);
    if v.len() != 32 {
        return false;
    }
    let mut i: usize = 0;
    while i < v.len()
        invariant
            i <= v.len(),
            v@ == s@,
            forall|j: int| 0 <= j < i ==> text::spec_hex_digit(#[trigger] s@[j]),
        decreases v.len() - i,
    {
        if !text::hex_digit(v[i]) {
            assert(!text::spec_hex_digit(s@[i as int]));
            return false;
        }
        i += 1;
    }
    true
}

/// The value of the first cookie of the pieces that has a name and binds a client.
pub open spec fn affinity_in(pieces: Seq<Seq<char>>, name: Seq<char>) -> Option<Seq<char>>
    decreases pieces.len(),
{
    if pieces.len() == 0 {
        None
    } else {
        match text::split_once_spec(text::trim_spec(pieces[0]), '=') {
            Some((k, v)) => if k == name && affinity_value(v) {
                Some(v)
            } else {
                affinity_in(pieces.drop_first(), name)
            },
            None => affinity_in(pieces.drop_first(), name),
        }
    }
}

/// The value that binds the client of a request, where its cookies hold one.
pub open spec fn affinity_of(r: Request, name: Seq<char>) -> Option<Seq<char>> {
    match r.header("cookie"@) {
        None => None,
        Some(s) => affinity_in(text::split_spec(s, ';'), name),
    }
}

/// The value that binds the client of a request, where its cookies hold one.
pub fn affinity(p: &Progress, name: &str) -> (r: Option<String>)
    requires
        p.request.wf(),
    ensures
        text::opt(r) == affinity_of(p@.request, name@),
{
    let cookie = match p.request.header("cookie") {
        Some(s) => s,
        None => return None,
    };
    let pieces = text::split(cookie, ';');
    let ghost all = text::texts(pieces@);
    let mut i: usize = 0;
    assert(all.skip(0) =~= all);
    while i < pieces.len()
        invariant
            i <= pieces.len(),
            all == text::texts(pieces@),
            affinity_in(all.skip(i as int), name@) == affinity_in(all, name@),
            affinity_of(p@.request, name@) == affinity_in(all, name@),
        decreases pieces.len() - i,
    {
        proof {
            assert(all.skip(i as int).drop_first() =~= all.skip(i + 1));
            assert(all.skip(i as int)[0] == pieces@[i as int]@);
        }
        match text::split_once(text::trim(pieces[i].as_str()), '=') {
            Some((k, v)) => {
                if text::same(k.as_str(), name) && is_affinity_value(v.as_str()) {
                    return Some(v);
                }
            },
            None => {},
        }
        i += 1;
    }
    None
}

/// A number in `k` hexadecimal digits.
pub open spec fn fixed_hex(n: nat, k: nat) -> Seq<char>
    decreases k,
{
    if k == 0 {
        Seq::empty()
    } else {
        fixed_hex(n / 16, (k - 1) as nat).push(text::hex_char(n % 16))
    }
}

fn fixed_hex_string(n: u128, k: usize) -> (out: String)
    ensures
        out@ == fixed_hex(n as nat, k as nat),
    decreases k,
{
    if k == 0 {
        let out = String::new();
        assert(out@ =~= Seq::<char>::empty());
        out
    } else {
        let mut out = fixed_hex_string(n / 16, k - 1);
        let d: u8 = (n % 16) as u8;
        let b: u8 = if d < 10 {
            48 + d
        } else {
            87 + d
        };
        out.push(b as char);
        out
    }
}

/// The value of a new cookie.
pub fn affinity_text(n: u128) -> (out: String)
    ensures
        out@ == fixed_hex(n as nat, 32),
{
    fixed_hex_string(n, 32)
}

/// `random` of the `rand` crate gives some number; which one is left open.
#[verifier::external_body]
pub(crate) fn random_number() -> (r: u128) {
    rand::random::<u128>()
}

/// The cookie that binds a client: for a day, out of reach of scripts, and only on secure connections
/// where it is set on one.
pub open spec fn cookie_of(name: Seq<char>, value: Seq<char>, scheme: Seq<char>) -> Seq<char> {
    name + "="@ + value + "; Path=/; Max-Age=86400; HttpOnly; SameSite=Lax"@ + if scheme == "https"@ {
        "; Secure"@
    } else {
        Seq::empty()
    }
}

pub fn affinity_cookie(name: &str, value: &str, scheme: &str) -> (out: String)
    ensures
        out@ == cookie_of(name@, value@, scheme@),
{
    let mut out = text::concat3(name, "=", value);
    out.append("; Path=/; Max-Age=86400; HttpOnly; SameSite=Lax");
    if text::same(scheme, "https") {
        out.append("; Secure");
    } else {
        assert(out@ =~= out@ + Seq::<char>::empty());
    }
    out
}

/// The value that binds the client of a request, and the cookie to set where it is new.
pub fn bind(p: &Progress, name: &str) -> (r: (String, Option<String>))
    requires
        p.request.wf(),
    ensures
        match affinity_of(p@.request, name@) {
            Some(v) => r.0@ == v && r.1 is None,
            None => exists|n: u128|
                r.0@ == #[trigger] fixed_hex(n as nat, 32) && text::opt(r.1) == Some(
                    cookie_of(name@, r.0@, p@.scheme),
                ),
        },
{
    match affinity(p, name) {
        Some(v) => (v, None),
        None => {
            let n = random_number();
            let value = affinity_text(n);
            assert(value@ == fixed_hex(n as nat, 32));
            let cookie = affinity_cookie(name, value.as_str(), p.scheme.as_str());
            (value, Some(cookie))
        },
    }
}

proof fn lemma_fixed_hex(n: nat, k: nat)
    ensures
        fixed_hex(n, k).len() == k,
        forall|i: int| 0 <= i < k ==> text::spec_hex_digit(#[trigger] fixed_hex(n, k)[i]),
    decreases k,
{
    if k > 0 {
        lemma_fixed_hex(n / 16, (k - 1) as nat);
        let s = fixed_hex(n / 16, (k - 1) as nat);
        assert forall|i: int| 0 <= i < k implies text::spec_hex_digit(#[trigger] fixed_hex(n, k)[i]) by {
            if i < k - 1 {
                assert(fixed_hex(n, k)[i] == s[i]);
            }
        }
    }
}

/// A value that is handed out is one that is taken again.
pub proof fn law_new_cookies_are_recognized(n: u128)
    ensures
        affinity_value(fixed_hex(n as nat, 32)),
{
    lemma_fixed_hex(n as nat, 32);
}

/// Where a client asks for a WebSocket, the fields of the transport say so to the backend, and the trace is
/// the proxy's, whatever the rules of the route and the edits of scripts set.
pub proof fn law_transport_and_trace_are_not_edited(
    v: Seq<(Seq<char>, Seq<u8>)>,
    s: Scene,
    host: Seq<char>,
    rules: Seq<(Seq<char>, Seq<char>)>,
    trace: Option<Seq<char>>,
)
    ensures
        outbound_fields(v, s, host, rules, trace) matches Ok(w) ==> {
            &&& wants_socket(s.request) ==> raw_values(w, "upgrade"@) == seq![
                encode_utf8("websocket"@),
            ] && raw_values(w, "connection"@) == seq![encode_utf8("upgrade"@)]
            &&& trace matches Some(t) ==> raw_values(w, "traceparent"@) == seq![encode_utf8(t)]
        },
{
    reveal_strlit("upgrade");
    reveal_strlit("connection");
    reveal_strlit("traceparent");
    reveal_strlit("tracestate");
    assert("upgrade"@.len() != "connection"@.len());
    assert("upgrade"@.len() != "traceparent"@.len());
    assert("connection"@.len() != "traceparent"@.len());
    assert("tracestate"@.len() != "traceparent"@.len());
    assert(text::lowercase("traceparent"@) =~= "traceparent"@);
    if let Ok(w) = outbound_fields(v, s, host, rules, trace) {
        let stripped = all_removed(all_removed(v, connection_options(v)), hop_fields());
        let a = if takes_trailers(s.request) {
            placed(stripped, "te"@, encode_utf8("trailers"@))
        } else {
            stripped
        };
        let b = set_field(a, "host"@, host)->Ok_0;
        let c = with_rules(b, s, host, rules)->Ok_0;
        let d = with_edits(c, s.edits.headers)->Ok_0;
        let f = with_trace(d, trace)->Ok_0;
        if let Some(t) = trace {
            let e = placed(d, "traceparent"@, encode_utf8(t));
            law_set_fields_have_one_value(d, "traceparent"@, encode_utf8(t), "tracestate"@);
            lemma_dropped(e, "tracestate"@, "traceparent"@);
            assert(raw_values(f, "traceparent"@) == seq![encode_utf8(t)]);
        }
        let g = placed(f, "upgrade"@, encode_utf8("websocket"@));
        law_set_fields_have_one_value(
            f,
            "upgrade"@,
            encode_utf8("websocket"@),
            "traceparent"@,
        );
        law_set_fields_have_one_value(g, "connection"@, encode_utf8("upgrade"@), "upgrade"@);
        law_set_fields_have_one_value(g, "connection"@, encode_utf8("upgrade"@), "traceparent"@);
    }
}

// ---------------------------------------------------------------------------
// The body and the status of a call
// ---------------------------------------------------------------------------

/// The bytes of a body so far, with one more piece.
pub open spec fn counted(seen: u64, piece: nat) -> u64 {
    if seen + piece <= u64::MAX {
        (seen + piece) as u64
    } else {
        u64::MAX
    }
}

/// Counts one more piece of a body; an error where the body becomes too long.
pub fn count_body(seen: &mut u64, piece: usize, max: u64) -> (r: Result<(), u16>)
    ensures
        *final(seen) == counted(*old(seen), piece as nat),
        r == if max > 0 && counted(*old(seen), piece as nat) > max {
            Err::<(), u16>(413)
        } else {
            Ok(())
        },
{
    let n = piece as u64;
    let total: u64 = if n <= u64::MAX - *seen {
        *seen + n
    } else {
        u64::MAX
    };
    *seen = total;
    if max > 0 && total > max {
        Err(413)
    } else {
        Ok(())
    }
}

/// The status of a gRPC call: one up to 16 as it is given, else that of an unknown error.
pub open spec fn grpc_status_of(value: Seq<u8>) -> u16 {
    match crate::header::visible_text(value) {
        None => 2,
        Some(s) => match text::decimal_upto(s, u16::MAX as nat) {
            None => 2,
            Some(n) => if n <= 16 {
                n as u16
            } else {
                2
            },
        },
    }
}

pub fn grpc_status(value: &Vec<u8>) -> (r: u16)
    ensures
        r == grpc_status_of(value@),
{
    match crate::header::to_text(value) {
        None => 2,
        Some(s) => match text::parse_u16(s.as_str()) {
            None => 2,
            Some(n) => if n <= 16 {
                n
            } else {
                2
            },
        },
    }
}

/// A request with no rules and no edits goes to its backend with the host that is asked for, and with nothing
/// of the connection that it came by.
pub proof fn law_backends_are_asked_by_their_host(
    v: Seq<(Seq<char>, Seq<u8>)>,
    s: Scene,
    host: Seq<char>,
)
    requires
        s.edits.headers.len() == 0,
        crate::header::valid_value(host),
        !wants_socket(s.request),
        !takes_trailers(s.request),
    ensures
        outbound_fields(v, s, host, Seq::empty(), None) matches Ok(w) && raw_values(w, "host"@) == seq![
            encode_utf8(host),
        ] && raw_values(w, "connection"@).len() == 0 && raw_values(w, "keep-alive"@).len() == 0
            && raw_values(w, "te"@).len() == 0 && raw_values(w, "upgrade"@).len() == 0,
{
    let stripped = all_removed(all_removed(v, connection_options(v)), hop_fields());
    crate::proxy::request::law_hop_fields_stop(v);
    reveal_strlit("host");
    assert(crate::header::valid_name("host"@));
    assert(text::lowercase("host"@) =~= "host"@);
    reveal_strlit("host");
    reveal_strlit("connection");
    assert("host"@.len() != "connection"@.len());
    reveal_strlit("keep-alive");
    assert("host"@.len() != "keep-alive"@.len());
    reveal_strlit("te");
    assert("host"@.len() != "te"@.len());
    reveal_strlit("upgrade");
    assert("host"@.len() != "upgrade"@.len());
    crate::header::law_set_fields_have_one_value(stripped, "host"@, encode_utf8(host), "connection"@);
    crate::header::law_set_fields_have_one_value(stripped, "host"@, encode_utf8(host), "keep-alive"@);
    crate::header::law_set_fields_have_one_value(stripped, "host"@, encode_utf8(host), "te"@);
    crate::header::law_set_fields_have_one_value(stripped, "host"@, encode_utf8(host), "upgrade"@);
}

/// A rule of the configuration sets a field to its text with the variables in it, and takes the field away
/// where that is empty; other fields stay.
pub proof fn law_rules_set_their_fields(
    v: Seq<(Seq<char>, Seq<u8>)>,
    s: Scene,
    host: Seq<char>,
    name: Seq<char>,
    value: Seq<char>,
    other: Seq<char>,
)
    requires
        crate::header::valid_name(name),
        crate::header::valid_value(expanded(s, value, host, 0)),
        other != text::lowercase(name),
    ensures
        with_rules(v, s, host, seq![(name, value)]) matches Ok(w) && raw_values(w, other) == raw_values(
            v,
            other,
        ) && raw_values(w, text::lowercase(name)) == if expanded(s, value, host, 0).len() == 0 {
            Seq::<Seq<u8>>::empty()
        } else {
            seq![encode_utf8(expanded(s, value, host, 0))]
        },
{
    let rules = seq![(name, value)];
    assert(rules.drop_last() =~= Seq::empty());
    reveal_with_fuel(with_rules, 2);
    crate::header::law_set_fields_have_one_value(
        v,
        text::lowercase(name),
        encode_utf8(expanded(s, value, host, 0)),
        other,
    );
    crate::header::lemma_dropped(v, text::lowercase(name), text::lowercase(name));
    crate::header::lemma_dropped(v, text::lowercase(name), other);
}

/// Rules count one after the other.
pub proof fn law_rules_count_in_order(
    v: Seq<(Seq<char>, Seq<u8>)>,
    s: Scene,
    host: Seq<char>,
    a: Seq<(Seq<char>, Seq<char>)>,
    b: Seq<(Seq<char>, Seq<char>)>,
)
    requires
        with_rules(v, s, host, a) is Ok,
    ensures
        with_rules(v, s, host, a + b) == with_rules(with_rules(v, s, host, a)->Ok_0, s, host, b),
    decreases b.len(),
{
    if b.len() == 0 {
        assert(a + b =~= a);
    } else {
        law_rules_count_in_order(v, s, host, a, b.drop_last());
        assert((a + b).drop_last() =~= a + b.drop_last());
        assert((a + b).last() == b.last());
    }
}

/// A client that takes trailers is passed on as such, and the trace of a request goes with it; a state of the
/// trace that is too long does not.
pub proof fn law_traces_go_with_requests(v: Seq<(Seq<char>, Seq<u8>)>, trace: Seq<char>)
    requires
        crate::header::valid_value(trace),
    ensures
        with_trace(v, None) == Ok::<Seq<(Seq<char>, Seq<u8>)>, FieldError>(v),
        with_trace(v, Some(trace)) matches Ok(w) && raw_values(w, "traceparent"@) == seq![
            encode_utf8(trace),
        ] && (raw_values(v, "tracestate"@).len() > 0 && raw_values(v, "tracestate"@)[0].len() > 512
            ==> raw_values(w, "tracestate"@).len() == 0) && (raw_values(v, "tracestate"@).len() > 0
            && raw_values(v, "tracestate"@)[0].len() <= 512 ==> raw_values(w, "tracestate"@)
            == raw_values(v, "tracestate"@)),
{
    reveal_strlit("traceparent");
    assert(crate::header::valid_name("traceparent"@));
    assert(text::lowercase("traceparent"@) =~= "traceparent"@);
    reveal_strlit("traceparent");
    reveal_strlit("tracestate");
    assert("traceparent"@.len() != "tracestate"@.len());
    let w = placed(v, "traceparent"@, encode_utf8(trace));
    crate::header::law_set_fields_have_one_value(v, "traceparent"@, encode_utf8(trace), "tracestate"@);
    crate::header::lemma_dropped(w, "tracestate"@, "tracestate"@);
    crate::header::lemma_dropped(w, "tracestate"@, "traceparent"@);
}

/// The cookie that binds a client to an endpoint has its name and its value, and is for secure connections
/// only where the client used one.
pub proof fn law_cookies_hold_their_value(name: Seq<char>, value: Seq<char>, scheme: Seq<char>)
    ensures
        text::starts(cookie_of(name, value, scheme), name + "="@ + value),
        scheme == "https"@ ==> text::ends(cookie_of(name, value, scheme), "; Secure"@),
        scheme != "https"@ ==> cookie_of(name, value, scheme) == name + "="@ + value
            + "; Path=/; Max-Age=86400; HttpOnly; SameSite=Lax"@,
{
    let c = cookie_of(name, value, scheme);
    let p = name + "="@ + value;
    assert(c.take(p.len() as int) =~= p);
    if scheme == "https"@ {
        assert(c.skip(c.len() - "; Secure"@.len()) =~= "; Secure"@);
    } else {
        assert(c =~= p + "; Path=/; Max-Age=86400; HttpOnly; SameSite=Lax"@);
    }
}

/// A cookie with the value that was given out is found again.
pub proof fn law_given_cookies_are_found(r: Request, name: Seq<char>, value: Seq<char>)
    requires
        affinity_value(value),
        !name.contains('='),
        !name.contains(';'),
        r.header("cookie"@) == Some(name + seq!['='] + value),
        text::trim_spec(name + seq!['='] + value) == name + seq!['='] + value,
    ensures
        affinity_of(r, name) == Some(value),
{
    let s = name + seq!['='] + value;
    assert forall|i: int| 0 <= i < s.len() implies s[i] != ';' by {
        if i < name.len() {
            assert(name.contains(s[i]));
        } else if i > name.len() {
            assert(text::spec_hex_digit(value[i - name.len() - 1]));
        }
    }
    text::lemma_split_first(s, ';', Seq::empty());
    assert forall|i: int| 0 <= i < name.len() implies s[i] != '=' by {
        assert(name.contains(s[i]));
    }
    text::lemma_position_is(s, '=', name.len() as int);
    assert(s.take(name.len() as int) =~= name);
    assert(s.skip(name.len() as int + 1) =~= value);
    assert(text::split_spec(s, ';')[0] == s);
}

/// Different numbers give different values.
pub proof fn law_values_tell_numbers_apart(n: nat, m: nat, k: nat)
    requires
        fixed_hex(n, k) == fixed_hex(m, k),
        n < vstd::arithmetic::power::pow(16, k),
        m < vstd::arithmetic::power::pow(16, k),
    ensures
        n == m,
    decreases k,
{
    vstd::arithmetic::power::lemma_pow0(16);
    if k > 0 {
        let a = fixed_hex(n, k);
        let b = fixed_hex(m, k);
        assert(a.last() == text::hex_char(n % 16));
        assert(b.last() == text::hex_char(m % 16));
        assert(a.drop_last() =~= fixed_hex(n / 16, (k - 1) as nat));
        assert(b.drop_last() =~= fixed_hex(m / 16, (k - 1) as nat));
        vstd::arithmetic::power::lemma_pow_adds(16, 1, (k - 1) as nat);
        vstd::arithmetic::power::lemma_pow1(16);
        law_values_tell_numbers_apart(n / 16, m / 16, (k - 1) as nat);
    }
}

/// A body is counted to the last byte, or as far as counting goes.
pub proof fn law_bodies_are_counted(seen: u64, a: nat, b: nat)
    ensures
        seen + a + b <= u64::MAX ==> counted(counted(seen, a), b) == seen + a + b,
        counted(seen, a) >= seen,
        seen + a > u64::MAX ==> counted(seen, a) == u64::MAX,
{
}

/// The status of a call is the number that the backend gave, and unknown where it gave none that there is.
pub proof fn law_calls_have_their_status(n: nat, value: Seq<u8>)
    requires
        crate::header::visible_text(value) == Some(text::decimal(n)),
    ensures
        n <= 16 ==> grpc_status_of(value) == n,
        n > 16 ==> grpc_status_of(value) == 2,
{
    text::lemma_decimal_reads_back(n);
}

/// A request asks for a socket by `Upgrade: websocket`, in any case.
pub proof fn law_sockets_are_asked_for(r: Request)
    ensures
        r.header("upgrade"@) is None ==> !wants_socket(r),
        r.header("upgrade"@) == Some("websocket"@) ==> wants_socket(r),
        r.header("te"@) is None ==> !takes_trailers(r),
        r.header("te"@) == Some("trailers"@) ==> takes_trailers(r),
{
    reveal_strlit("websocket");
    assert(text::lowercase("websocket"@) =~= "websocket"@);
    reveal_strlit("trailers");
    let t = "trailers"@;
    assert(text::lowercase(t) =~= t);
    assert(!t.contains(','));
    text::lemma_split_first(t, ',', Seq::empty());
    assert(text::trim_spec(t) == t);
    assert(elements(t)[0] == t);
}

} // verus!

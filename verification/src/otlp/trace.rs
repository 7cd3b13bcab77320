//! The spans of a request: the one of the request itself, and the one of what is asked of a backend.
use crate::digest::hex_text;
use crate::header::{dropped, placed, Headers};
use crate::otlp::propagation::{all_zero, written_parent, Context, Origin, Parent};
use crate::otlp::record::{data, push_number, push_text, text_datum, Attribute, Datum};
use crate::text;
use vstd::prelude::*;
use vstd::utf8::encode_utf8;

verus! {

/// The flags of a span: whether it is known if the parent is remote, and whether it is.
pub const HAS_REMOTE: u32 = 256;

pub const IS_REMOTE: u32 = 512;

// ---------------------------------------------------------------------------
// The clock, and identifiers
// ---------------------------------------------------------------------------

/// `SystemTime::now` of the standard library, as nanoseconds since 1970; what it gives is left open.
#[verifier::external_body]
fn since_epoch() -> (r: u128) {
    std::time::SystemTime::now().duration_since(std::time::UNIX_EPOCH).unwrap_or_default().as_nanos()
}

/// A time in 64 bits: a later one than can be told is the last that can.
pub fn clamp(nanos: u128) -> (r: u64)
    ensures
        r == if nanos <= u64::MAX {
            nanos as u64
        } else {
            u64::MAX
        },
{
    if nanos <= u64::MAX as u128 {
        nanos as u64
    } else {
        u64::MAX
    }
}

/// The nanoseconds since 1970, as the clock tells them; nothing holds of them beyond that.
pub fn now() -> (r: u64) {
    clamp(since_epoch())
}

/// Bytes in hexadecimal.
pub fn hex(bytes: &Vec<u8>) -> (out: String)
    ensures
        out@ == crate::digest::hex(bytes@),
{
    hex_text(bytes)
}

/// Whether bytes can be an identifier: not all of them are zero.
pub fn usable_id(v: &Vec<u8>) -> (r: bool)
    ensures
        r == !all_zero(v@),
{
    let mut i: usize = 0;
    while i < v.len()
        invariant
            i <= v.len(),
            forall|j: int| 0 <= j < i ==> #[trigger] v@[j] == 0,
        decreases v.len() - i,
    {
        if v[i] != 0 {
            return true;
        }
        i += 1;
    }
    false
}

/// `RngCore::fill_bytes` of the `rand` crate, with the generator of the thread: as many bytes as are asked
/// for. Which ones they are rests on chance, and nothing is claimed of that.
#[verifier::external_body]
fn draw_bytes(length: u8) -> (v: Vec<u8>)
    ensures
        v@.len() == length,
{
    let mut v = vec![0; usize::from(length)];
    rand::RngCore::fill_bytes(&mut rand::thread_rng(), &mut v);
    v
}

/// An identifier by chance; nothing where chance gave zeros alone, which is then asked again.
pub fn random_id(length: u8) -> (r: Option<Vec<u8>>)
    ensures
        r matches Some(v) ==> v@.len() == length && !all_zero(v@),
        length == 0 ==> r is None,
{
    let v = draw_bytes(length);
    if usable_id(&v) {
        Some(v)
    } else {
        None
    }
}

// ---------------------------------------------------------------------------
// Methods
// ---------------------------------------------------------------------------

pub open spec fn method_known(m: Seq<char>) -> bool {
    ||| m == "CONNECT"@
    ||| m == "DELETE"@
    ||| m == "GET"@
    ||| m == "HEAD"@
    ||| m == "OPTIONS"@
    ||| m == "PATCH"@
    ||| m == "POST"@
    ||| m == "PUT"@
    ||| m == "TRACE"@
}

/// The name of a method, or what stands for an unknown one.
pub open spec fn method_name(m: Seq<char>) -> Seq<char> {
    if method_known(m) {
        m
    } else {
        "_OTHER"@
    }
}

pub fn known_method(method: &str) -> (r: &str)
    ensures
        r@ == method_name(method@),
{
    if text::same(method, "CONNECT") || text::same(method, "DELETE") || text::same(method, "GET")
        || text::same(method, "HEAD") || text::same(method, "OPTIONS") || text::same(
        method,
        "PATCH",
    ) || text::same(method, "POST") || text::same(method, "PUT") || text::same(method, "TRACE") {
        method
    } else {
        "_OTHER"
    }
}

pub open spec fn method_data(m: Seq<char>) -> Seq<(Seq<char>, Datum)> {
    let first = seq![text_datum("http.request.method"@, method_name(m))];
    if method_name(m) == "_OTHER"@ {
        first.push(text_datum("http.request.method_original"@, m))
    } else {
        first
    }
}

fn method_attributes(method: &str) -> (v: Vec<Attribute>)
    ensures
        data(v@) == method_data(method@),
{
    let mut v: Vec<Attribute> = Vec::new();
    push_text(&mut v, "http.request.method", known_method(method));
    assert(data(v@) =~= seq![text_datum("http.request.method"@, method_name(method@))]);
    if text::same(known_method(method), "_OTHER") {
        push_text(&mut v, "http.request.method_original", method);
    }
    v
}

/// What is wrong with a call, by its gRPC status.
pub open spec fn grpc_fault(status: Option<u16>) -> Option<Seq<char>> {
    match status {
        Some(s) => if s != 0 {
            Some("grpc_"@ + text::decimal(s as nat))
        } else {
            None
        },
        None => None,
    }
}

pub fn grpc_error(status: Option<u16>) -> (r: Option<String>)
    ensures
        text::opt(r) == grpc_fault(status),
{
    match status {
        Some(s) => if s != 0 {
            Some(text::concat("grpc_", text::decimal_string(s as u64).as_str()))
        } else {
            None
        },
        None => None,
    }
}

/// The attributes with the gRPC status and the error, where there are any.
pub open spec fn closed_data(
    v: Seq<(Seq<char>, Datum)>,
    grpc: Option<u16>,
    failure: Option<Seq<char>>,
) -> Seq<(Seq<char>, Datum)> {
    let a = match grpc {
        Some(s) => v.push(("rpc.grpc.status_code"@, Datum::Number(s as int))),
        None => v,
    };
    match failure {
        Some(s) => a.push(text_datum("error.type"@, s)),
        None => a,
    }
}

fn close(v: &mut Vec<Attribute>, grpc: Option<u16>, failure: &Option<String>)
    ensures
        data(final(v)@) == closed_data(data(old(v)@), grpc, text::opt(*failure)),
{
    if let Some(s) = grpc {
        push_number(v, "rpc.grpc.status_code", s as i64);
    }
    if let Some(s) = failure {
        push_text(v, "error.type", s.as_str());
    }
}

// ---------------------------------------------------------------------------
// Traces
// ---------------------------------------------------------------------------

/// What is drawn for a new trace: identifiers, and whether it is recorded.
#[derive(Debug)]
pub struct Draw {
    pub trace_id: Vec<u8>,
    pub span_id: Vec<u8>,
    pub sampled: bool,
}

/// The span of a request.
#[derive(Debug)]
pub struct Trace {
    pub trace_id: Vec<u8>,
    pub span_id: Vec<u8>,
    pub parent: Vec<u8>,
    pub sampled: bool,
    pub enabled: bool,
    pub start: u64,
    pub state: String,
    pub forwarded_parent: Option<String>,
}

/// What a `Trace` holds.
#[verifier::ext_equal]
pub ghost struct Thread {
    pub trace_id: Seq<u8>,
    pub span_id: Seq<u8>,
    pub parent: Seq<u8>,
    pub sampled: bool,
    pub enabled: bool,
    pub start: u64,
    pub state: Seq<char>,
    pub forwarded_parent: Option<Seq<char>>,
}

impl View for Trace {
    type V = Thread;

    open spec fn view(&self) -> Thread {
        Thread {
            trace_id: self.trace_id@,
            span_id: self.span_id@,
            parent: self.parent@,
            sampled: self.sampled,
            enabled: self.enabled,
            start: self.start,
            state: self.state@,
            forwarded_parent: text::opt(self.forwarded_parent),
        }
    }
}

pub open spec fn origin(c: Option<Context>) -> Option<Origin> {
    match c {
        Some(c) => Some(c@),
        None => None,
    }
}

/// The identifier of nothing.
pub open spec fn no_span() -> Seq<u8> {
    Seq::new(8, |i: int| 0u8)
}

/// The span of a request: one of the trace that it belongs to, or of a new one. Where spans are not
/// exported a trace goes on as it came, and none begins.
pub open spec fn traced(
    from: Option<Origin>,
    enabled: bool,
    trace_id: Seq<u8>,
    span_id: Seq<u8>,
    sampled: bool,
    start: u64,
) -> Option<Thread> {
    match from {
        None => if enabled {
            Some(
                Thread {
                    trace_id,
                    span_id,
                    parent: no_span(),
                    sampled,
                    enabled,
                    start,
                    state: Seq::empty(),
                    forwarded_parent: None,
                },
            )
        } else {
            None
        },
        Some(o) => Some(
            Thread {
                trace_id: o.parent.trace,
                span_id: if enabled {
                    span_id
                } else {
                    o.parent.span
                },
                parent: o.parent.span,
                sampled: o.parent.sampled,
                enabled,
                start,
                state: o.state,
                forwarded_parent: if enabled {
                    None
                } else {
                    Some(o.header)
                },
            },
        ),
    }
}

fn copy_bytes(v: &Vec<u8>) -> (out: Vec<u8>)
    ensures
        out@ == v@,
{
    let mut out: Vec<u8> = Vec::new();
    let mut i: usize = 0;
    while i < v.len()
        invariant
            i <= v.len(),
            out@ == v@.take(i as int),
        decreases v.len() - i,
    {
        out.push(v[i]);
        i += 1;
        assert(out@ =~= v@.take(i as int));
    }
    assert(v@.take(i as int) =~= v@);
    out
}

impl Trace {
    /// The span of a request.
    pub fn new(from: Option<Context>, enabled: bool, draw: Draw, start: u64) -> (r: Option<Trace>)
        ensures
            match r {
                Some(t) => traced(
                    origin(from),
                    enabled,
                    draw.trace_id@,
                    draw.span_id@,
                    draw.sampled,
                    start,
                ) == Some(t@),
                None => traced(
                    origin(from),
                    enabled,
                    draw.trace_id@,
                    draw.span_id@,
                    draw.sampled,
                    start,
                ) is None,
            },
    {
        match from {
            None => {
                if !enabled {
                    return None;
                }
                let parent: Vec<u8> = vec![0, 0, 0, 0, 0, 0, 0, 0];
                assert(parent@ =~= no_span());
                let state = String::new();
                assert(state@ =~= Seq::<char>::empty());
                Some(
                    Trace {
                        trace_id: draw.trace_id,
                        span_id: draw.span_id,
                        parent,
                        sampled: draw.sampled,
                        enabled,
                        start,
                        state,
                        forwarded_parent: None,
                    },
                )
            },
            Some(c) => {
                let span_id = if enabled {
                    draw.span_id
                } else {
                    copy_bytes(&c.parent)
                };
                Some(
                    Trace {
                        trace_id: c.trace,
                        span_id,
                        parent: c.parent,
                        sampled: c.sampled,
                        enabled,
                        start,
                        state: c.state,
                        forwarded_parent: if enabled {
                            None
                        } else {
                            Some(c.header)
                        },
                    },
                )
            },
        }
    }
}

#[derive(Clone, Copy, Debug, PartialEq, Eq, Structural)]
pub enum Kind {
    Server,
    Client,
}

/// A span as it is exported.
#[derive(Debug)]
pub struct Span {
    pub trace_id: Vec<u8>,
    pub span_id: Vec<u8>,
    /// The span that this one is part of; empty where it is the first.
    pub parent_span_id: Vec<u8>,
    pub trace_state: String,
    pub flags: u32,
    pub name: String,
    pub kind: Kind,
    pub start: u64,
    pub end: u64,
    pub attributes: Vec<Attribute>,
    pub failed: bool,
}

/// What a `Span` holds.
#[verifier::ext_equal]
pub ghost struct Stretch {
    pub trace_id: Seq<u8>,
    pub span_id: Seq<u8>,
    pub parent_span_id: Seq<u8>,
    pub trace_state: Seq<char>,
    pub flags: u32,
    pub name: Seq<char>,
    pub kind: Kind,
    pub start: u64,
    pub end: u64,
    pub attributes: Seq<(Seq<char>, Datum)>,
    pub failed: bool,
}

impl View for Span {
    type V = Stretch;

    open spec fn view(&self) -> Stretch {
        Stretch {
            trace_id: self.trace_id@,
            span_id: self.span_id@,
            parent_span_id: self.parent_span_id@,
            trace_state: self.trace_state@,
            flags: self.flags,
            name: self.name@,
            kind: self.kind,
            start: self.start,
            end: self.end,
            attributes: data(self.attributes@),
            failed: self.failed,
        }
    }
}

/// What a request came to.
#[derive(Debug)]
pub struct Ending<'a> {
    pub route: &'a str,
    /// The path of the route, where it has one.
    pub path: Option<&'a str>,
    pub method: &'a str,
    pub status: u16,
    pub grpc: Option<u16>,
    /// The error of the connection, where it is not just a status.
    pub error: Option<&'a str>,
    pub now: u64,
}

/// What is wrong with a request.
pub open spec fn fault_of(error: Option<Seq<char>>, status: u16, grpc: Option<u16>) -> Option<
    Seq<char>,
> {
    match error {
        Some(s) => Some(s),
        None => if status >= 500 {
            Some(text::decimal(status as nat))
        } else {
            grpc_fault(grpc)
        },
    }
}

pub open spec fn opt_str(s: Option<&str>) -> Option<Seq<char>> {
    match s {
        Some(s) => Some(s@),
        None => None,
    }
}

pub open spec fn later(a: u64, b: u64) -> u64 {
    if a < b {
        b
    } else {
        a
    }
}

/// The span of a request that is over; nothing where it is not exported.
pub open spec fn exported(t: Thread, e: Ending) -> Option<Stretch> {
    if !t.enabled || !t.sampled {
        None
    } else {
        let first = method_data(e.method@).push(text_datum("rgnix.route.id"@, e.route@));
        let second = match opt_str(e.path) {
            Some(p) => first.push(text_datum("http.route"@, p)),
            None => first,
        };
        let third = second.push(
            ("http.response.status_code"@, Datum::Number(e.status as int)),
        );
        let failure = fault_of(opt_str(e.error), e.status, e.grpc);
        let root = all_zero(t.parent);
        Some(
            Stretch {
                trace_id: t.trace_id,
                span_id: t.span_id,
                parent_span_id: if root {
                    Seq::empty()
                } else {
                    t.parent
                },
                trace_state: t.state,
                flags: (1 + if root {
                    0
                } else {
                    HAS_REMOTE + IS_REMOTE
                }) as u32,
                name: match opt_str(e.path) {
                    Some(p) => method_name(e.method@) + " "@ + p,
                    None => method_name(e.method@),
                },
                kind: Kind::Server,
                start: t.start,
                end: later(e.now, t.start),
                attributes: closed_data(third, e.grpc, failure),
                failed: failure is Some,
            },
        )
    }
}

pub open spec fn stretch(s: Option<Span>) -> Option<Stretch> {
    match s {
        Some(s) => Some(s@),
        None => None,
    }
}

fn find_fault(error: Option<&str>, status: u16, grpc: Option<u16>) -> (r: Option<String>)
    ensures
        text::opt(r) == fault_of(opt_str(error), status, grpc),
{
    match error {
        Some(s) => Some(s.to_owned()),
        None => if status >= 500 {
            Some(text::decimal_string(status as u64))
        } else {
            grpc_error(grpc)
        },
    }
}

impl Trace {
    /// The span of the request, which is over; nothing where it is not exported.
    pub fn export(&self, e: &Ending) -> (r: Option<Span>)
        ensures
            stretch(r) == exported(self@, *e),
    {
        if !self.enabled || !self.sampled {
            return None;
        }
        let mut attributes = method_attributes(e.method);
        push_text(&mut attributes, "rgnix.route.id", e.route);
        if let Some(p) = e.path {
            push_text(&mut attributes, "http.route", p);
        }
        push_number(&mut attributes, "http.response.status_code", e.status as i64);
        let failure = find_fault(e.error, e.status, e.grpc);
        close(&mut attributes, e.grpc, &failure);
        let root = !usable_id(&self.parent);
        let parent_span_id = if root {
            let v: Vec<u8> = Vec::new();
            assert(v@ =~= Seq::<u8>::empty());
            v
        } else {
            copy_bytes(&self.parent)
        };
        let name = match e.path {
            Some(p) => text::concat3(known_method(e.method), " ", p),
            None => known_method(e.method).to_owned(),
        };
        let flags: u32 = if root {
            1
        } else {
            1 + HAS_REMOTE + IS_REMOTE
        };
        Some(
            Span {
                trace_id: copy_bytes(&self.trace_id),
                span_id: copy_bytes(&self.span_id),
                parent_span_id,
                trace_state: self.state.clone(),
                flags,
                name,
                kind: Kind::Server,
                start: self.start,
                end: if e.now < self.start {
                    self.start
                } else {
                    e.now
                },
                attributes,
                failed: failure.is_some(),
            },
        )
    }
}

// ---------------------------------------------------------------------------
// What is asked of a backend
// ---------------------------------------------------------------------------

/// The span of what is asked of a backend.
#[derive(Debug)]
pub struct ClientSpan {
    pub trace_id: Vec<u8>,
    pub span_id: Vec<u8>,
    pub parent: Vec<u8>,
    pub state: String,
    pub sampled: bool,
    pub name: String,
    pub attributes: Vec<Attribute>,
    pub start: u64,
    pub enabled: bool,
    pub forwarded_parent: Option<String>,
    pub status: Option<u16>,
}

/// What a `ClientSpan` holds.
#[verifier::ext_equal]
pub ghost struct Errand {
    pub trace_id: Seq<u8>,
    pub span_id: Seq<u8>,
    pub parent: Seq<u8>,
    pub state: Seq<char>,
    pub sampled: bool,
    pub name: Seq<char>,
    pub attributes: Seq<(Seq<char>, Datum)>,
    pub start: u64,
    pub enabled: bool,
    pub forwarded_parent: Option<Seq<char>>,
    pub status: Option<u16>,
}

impl View for ClientSpan {
    type V = Errand;

    open spec fn view(&self) -> Errand {
        Errand {
            trace_id: self.trace_id@,
            span_id: self.span_id@,
            parent: self.parent@,
            state: self.state@,
            sampled: self.sampled,
            name: self.name@,
            attributes: data(self.attributes@),
            start: self.start,
            enabled: self.enabled,
            forwarded_parent: text::opt(self.forwarded_parent),
            status: self.status,
        }
    }
}

/// The span of what is asked of a backend; `fresh` is its identifier where spans are exported.
pub open spec fn errand(
    t: Thread,
    method: Seq<char>,
    backend: Seq<char>,
    role: Seq<char>,
    fresh: Seq<u8>,
    now: u64,
) -> Errand {
    Errand {
        trace_id: t.trace_id,
        span_id: if t.enabled {
            fresh
        } else {
            t.span_id
        },
        parent: t.span_id,
        state: t.state,
        sampled: t.sampled,
        name: method_name(method) + " "@ + role,
        attributes: method_data(method).push(
            text_datum("rgnix.upstream.name"@, backend),
        ).push(text_datum("rgnix.upstream.role"@, role)),
        start: now,
        enabled: t.enabled,
        forwarded_parent: t.forwarded_parent,
        status: None,
    }
}

/// The fields with the trace that a request belongs to.
pub open spec fn injected(e: Errand, v: Seq<(Seq<char>, Seq<u8>)>) -> Seq<(Seq<char>, Seq<u8>)> {
    let parent = match e.forwarded_parent {
        Some(s) => s,
        None => written_parent(
            Parent { trace: e.trace_id, span: e.span_id, sampled: e.sampled },
        ),
    };
    let w = dropped(placed(v, "traceparent"@, encode_utf8(parent)), "tracestate"@);
    if e.state.len() > 0 {
        placed(w, "tracestate"@, encode_utf8(e.state))
    } else {
        w
    }
}

/// What is wrong with what was asked of a backend.
pub open spec fn errand_fault(e: Errand, error: Option<Seq<char>>, grpc: Option<u16>) -> Option<
    Seq<char>,
> {
    match error {
        Some(s) => Some(s),
        None => if e.status is Some && e.status->0 >= 400 {
            Some(text::decimal(e.status->0 as nat))
        } else {
            grpc_fault(grpc)
        },
    }
}

/// The span of what was asked of a backend; nothing where it is not exported.
pub open spec fn errand_exported(
    e: Errand,
    error: Option<Seq<char>>,
    grpc: Option<u16>,
    now: u64,
) -> Option<Stretch> {
    if !e.enabled || !e.sampled {
        None
    } else {
        let first = match e.status {
            Some(s) => e.attributes.push(
                ("http.response.status_code"@, Datum::Number(s as int)),
            ),
            None => e.attributes,
        };
        let failure = errand_fault(e, error, grpc);
        Some(
            Stretch {
                trace_id: e.trace_id,
                span_id: e.span_id,
                parent_span_id: e.parent,
                trace_state: e.state,
                flags: (1 + HAS_REMOTE) as u32,
                name: e.name,
                kind: Kind::Client,
                start: e.start,
                end: later(now, e.start),
                attributes: closed_data(first, grpc, failure),
                failed: failure is Some,
            },
        )
    }
}

impl Trace {
    /// The span of what is asked of a backend.
    pub fn client(&self, method: &str, backend: &str, role: &str, fresh: Vec<u8>, now: u64) -> (r:
        ClientSpan)
        ensures
            r@ == errand(self@, method@, backend@, role@, fresh@, now),
    {
        let mut attributes = method_attributes(method);
        push_text(&mut attributes, "rgnix.upstream.name", backend);
        push_text(&mut attributes, "rgnix.upstream.role", role);
        let span_id = if self.enabled {
            fresh
        } else {
            copy_bytes(&self.span_id)
        };
        ClientSpan {
            trace_id: copy_bytes(&self.trace_id),
            span_id,
            parent: copy_bytes(&self.span_id),
            state: self.state.clone(),
            sampled: self.sampled,
            name: text::concat3(known_method(method), " ", role),
            attributes,
            start: now,
            enabled: self.enabled,
            forwarded_parent: crate::model::copy_opt(&self.forwarded_parent),
            status: None,
        }
    }
}

fn write_parent(trace: &Vec<u8>, span: &Vec<u8>, sampled: bool) -> (out: String)
    ensures
        out@ == written_parent(Parent { trace: trace@, span: span@, sampled }),
{
    let mut out = text::concat3("00-", hex_text(trace).as_str(), "-");
    out.append(hex_text(span).as_str());
    out.append("-0");
    out.append(
        if sampled {
            "1"
        } else {
            "0"
        },
    );
    out
}

impl ClientSpan {
    /// The identifier of the span.
    pub fn id(&self) -> (out: String)
        ensures
            out@ == crate::digest::hex(self.span_id@),
    {
        hex_text(&self.span_id)
    }

    /// Puts the trace that the request belongs to among its fields.
    pub fn inject(&self, headers: &mut Headers)
        ensures
            final(headers).raw() == injected(self@, old(headers).raw()),
    {
        let parent = match &self.forwarded_parent {
            Some(s) => s.clone(),
            None => write_parent(&self.trace_id, &self.span_id, self.sampled),
        };
        headers.insert("traceparent".to_owned(), text::bytes(parent.as_str()));
        headers.remove("tracestate");
        if !self.state.as_str().is_empty() {
            headers.insert("tracestate".to_owned(), text::bytes(self.state.as_str()));
        }
    }

    fn find_fault(&self, error: Option<&str>, grpc: Option<u16>) -> (r: Option<String>)
        ensures
            text::opt(r) == errand_fault(self@, opt_str(error), grpc),
    {
        if let Some(s) = error {
            return Some(s.to_owned());
        }
        if let Some(s) = self.status {
            if s >= 400 {
                return Some(text::decimal_string(s as u64));
            }
        }
        grpc_error(grpc)
    }

    /// The span, which is over; nothing where it is not exported.
    pub fn export(self, error: Option<&str>, grpc: Option<u16>, now: u64) -> (r: Option<Span>)
        ensures
            stretch(r) == errand_exported(self@, opt_str(error), grpc, now),
    {
        if !self.enabled || !self.sampled {
            return None;
        }
        let failure = self.find_fault(error, grpc);
        let mut attributes = self.attributes;
        if let Some(s) = self.status {
            push_number(&mut attributes, "http.response.status_code", s as i64);
        }
        close(&mut attributes, grpc, &failure);
        Some(
            Span {
                trace_id: self.trace_id,
                span_id: self.span_id,
                parent_span_id: self.parent,
                trace_state: self.state,
                flags: 1 + HAS_REMOTE,
                name: self.name,
                kind: Kind::Client,
                start: self.start,
                end: if now < self.start {
                    self.start
                } else {
                    now
                },
                attributes,
                failed: failure.is_some(),
            },
        )
    }
}

// ---------------------------------------------------------------------------
// Laws
// ---------------------------------------------------------------------------

/// A backend belongs to the trace that the client belongs to, and is part of the span of the request.
pub proof fn law_traces_go_on(
    from: Origin,
    enabled: bool,
    trace_id: Seq<u8>,
    span_id: Seq<u8>,
    sampled: bool,
    start: u64,
    method: Seq<char>,
    backend: Seq<char>,
    role: Seq<char>,
    fresh: Seq<u8>,
    now: u64,
)
    ensures
        ({
            let t = traced(Some(from), enabled, trace_id, span_id, sampled, start)->0;
            let e = errand(t, method, backend, role, fresh, now);
            &&& e.trace_id == from.parent.trace
            &&& e.sampled == from.parent.sampled
            &&& e.parent == t.span_id
            &&& t.parent == from.parent.span
        }),
{
}

/// Where spans are not exported, a trace goes on as it came.
pub proof fn law_foreign_traces_pass(
    from: Origin,
    trace_id: Seq<u8>,
    span_id: Seq<u8>,
    sampled: bool,
    start: u64,
    method: Seq<char>,
    backend: Seq<char>,
    role: Seq<char>,
    fresh: Seq<u8>,
    now: u64,
)
    ensures
        ({
            let t = traced(Some(from), false, trace_id, span_id, sampled, start)->0;
            let e = errand(t, method, backend, role, fresh, now);
            e.forwarded_parent == Some(from.header) && errand_exported(e, None, None, now) is None
        }),
{
}

/// No span ends before it starts.
pub proof fn law_spans_end_after_they_start(t: Thread, e: Ending)
    requires
        exported(t, e) is Some,
    ensures
        exported(t, e)->0.start <= exported(t, e)->0.end,
{
}

/// A request without a parent begins a trace where tracing is on, and is not traced where it is off.
pub proof fn law_traces_begin(trace_id: Seq<u8>, span_id: Seq<u8>, sampled: bool, start: u64)
    ensures
        traced(None, false, trace_id, span_id, sampled, start) is None,
        traced(None, true, trace_id, span_id, sampled, start) matches Some(t) && t.trace_id == trace_id
            && t.span_id == span_id && t.sampled == sampled && all_zero(t.parent) && t.state.len() == 0
            && t.start == start,
{
}

/// A span is told where tracing is on and the trace is one of the sample.
pub proof fn law_sampled_spans_are_told(t: Thread, e: Ending)
    ensures
        !t.enabled || !t.sampled ==> exported(t, e) is None,
        t.enabled && t.sampled ==> (exported(t, e) matches Some(s) && s.trace_id == t.trace_id && s.span_id
            == t.span_id && s.kind == Kind::Server && s.start == t.start && s.trace_state == t.state && (e.now
            >= t.start ==> s.end == e.now) && (all_zero(t.parent) ==> s.parent_span_id.len() == 0 && s.flags
            == 1) && (!all_zero(t.parent) ==> s.parent_span_id == t.parent && s.flags == 769)),
{
}

/// A request fails by an error, by a status of the server's faults, or by the status of its call.
pub proof fn law_failures_are_named(status: u16, grpc: u16, error: Seq<char>, e: Errand)
    ensures
        fault_of(Some(error), status, None) == Some(error),
        status >= 500 ==> fault_of(None, status, None) == Some(text::decimal(status as nat)),
        status < 500 ==> fault_of(None, status, None) is None,
        status < 500 && grpc != 0 ==> fault_of(None, status, Some(grpc)) == Some("grpc_"@ + text::decimal(grpc as nat)),
        status < 500 ==> fault_of(None, status, Some(0)) is None,
        e.status == Some(status) && status >= 400 ==> errand_fault(e, None, None) == Some(
            text::decimal(status as nat),
        ),
        e.status == Some(status) && status < 400 ==> errand_fault(e, None, None) is None,
        e.status is None ==> errand_fault(e, None, None) is None,
{
}

/// A method that is known is told as it is, and any other as one of the others, with its name beside it.
pub proof fn law_methods_are_told(m: Seq<char>)
    ensures
        method_name("GET"@) == "GET"@,
        method_name("POST"@) == "POST"@,
        !method_known(m) ==> method_name(m) == "_OTHER"@ && method_data(m).len() == 2 && method_data(m)[1]
            == text_datum("http.request.method_original"@, m),
        method_known(m) && m != "_OTHER"@ ==> method_data(m) == seq![text_datum("http.request.method"@, m)],
{
}

/// A request to a backend is told of its trace: by the parent that came where tracing is off, by its own span
/// where it is on; its state goes with it.
pub proof fn law_backends_are_told_of_the_trace(e: Errand, v: Seq<(Seq<char>, Seq<u8>)>, s: Seq<char>)
    ensures
        e.forwarded_parent == Some(s) ==> crate::header::raw_values(injected(e, v), "traceparent"@) == seq![
            encode_utf8(s),
        ],
        e.forwarded_parent is None ==> crate::header::raw_values(injected(e, v), "traceparent"@) == seq![
            encode_utf8(
                "00-"@ + crate::digest::hex(e.trace_id) + "-"@ + crate::digest::hex(e.span_id) + "-0"@
                    + if e.sampled {
                    "1"@
                } else {
                    "0"@
                },
            ),
        ],
        e.state.len() > 0 ==> crate::header::raw_values(injected(e, v), "tracestate"@) == seq![encode_utf8(e.state)],
        e.state.len() == 0 ==> crate::header::raw_values(injected(e, v), "tracestate"@).len() == 0,
{
    reveal_strlit("traceparent");
    reveal_strlit("tracestate");
    assert("traceparent"@.len() != "tracestate"@.len());
    let parent = match e.forwarded_parent {
        Some(s) => s,
        None => written_parent(Parent { trace: e.trace_id, span: e.span_id, sampled: e.sampled }),
    };
    let a = placed(v, "traceparent"@, encode_utf8(parent));
    let w = dropped(a, "tracestate"@);
    crate::header::law_set_fields_have_one_value(v, "traceparent"@, encode_utf8(parent), "tracestate"@);
    crate::header::lemma_dropped(a, "tracestate"@, "tracestate"@);
    crate::header::lemma_dropped(a, "tracestate"@, "traceparent"@);
    crate::header::law_set_fields_have_one_value(w, "tracestate"@, encode_utf8(e.state), "traceparent"@);
}

/// A span of a request to a backend is part of the server's, and has an own name and time.
pub proof fn law_errands_are_parts(t: Thread, method: Seq<char>, backend: Seq<char>, role: Seq<char>, fresh: Seq<u8>, now: u64)
    ensures
        ({
            let e = errand(t, method, backend, role, fresh, now);
            &&& e.trace_id == t.trace_id && e.parent == t.span_id && e.start == now && e.status is None
            &&& t.enabled ==> e.span_id == fresh
            &&& !t.enabled ==> e.span_id == t.span_id
            &&& e.name == method_name(method) + " "@ + role
            &&& e.state == t.state && e.sampled == t.sampled
        }),
{
}

} // verus!

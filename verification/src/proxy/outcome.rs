//! How a request went: its status, whether it counts as failed, and what the logs say of it.
use crate::json::{lemma_tree, member_trees, Json, Tree};
use crate::logging::access::{Policy, Record};
use crate::proxy::responses::Side;
use crate::script::{Request, RequestData};
use crate::text;
use vstd::prelude::*;

verus! {

/// The status of a request: that of the response that was written, else the one that was meant, else that
/// of a bad gateway.
pub open spec fn final_status(written: Option<u16>, meant: u16) -> u16 {
    match written {
        Some(s) => s,
        None => if meant != 0 {
            meant
        } else {
            502
        },
    }
}

/// Whether a request is a gRPC call.
pub open spec fn is_grpc(r: Request) -> bool {
    r.header("content-type"@) is Some && text::starts(
        r.header("content-type"@)->0,
        "application/grpc"@,
    )
}

/// The gRPC status that an HTTP status stands for.
pub open spec fn grpc_equivalent(status: u16) -> u16 {
    if status == 401 {
        16
    } else if status == 403 {
        7
    } else if status == 429 || (502 <= status && status <= 504) {
        14
    } else {
        2
    }
}

/// How a request went.
#[derive(Clone, Copy, Debug, PartialEq, Eq, Structural)]
pub struct Outcome {
    pub status: u16,
    pub grpc_status: Option<u16>,
    /// Whether the backend is at fault.
    pub upstream_failed: bool,
    /// Whether the request counts as failed.
    pub failed: bool,
    /// Whether the result says something of the endpoint.
    pub counts: bool,
}

pub open spec fn concluded(
    written: Option<u16>,
    meant: u16,
    r: Request,
    grpc: Option<u16>,
    error: Option<Side>,
) -> Outcome {
    let status = final_status(written, meant);
    let grpc_status = if is_grpc(r) {
        Some(
            match grpc {
                Some(s) => s,
                None => grpc_equivalent(status),
            },
        )
    } else {
        None
    };
    let upstream_failed = error == Some(Side::Upstream);
    Outcome {
        status,
        grpc_status,
        upstream_failed,
        failed: upstream_failed || status >= 500 || (grpc_status is Some && grpc_status->0 != 0),
        counts: error is None || upstream_failed,
    }
}

/// How a request went: by the status that was written, the status that was meant, the gRPC status of the
/// response and the side on which it failed.
pub fn conclude(
    written: Option<u16>,
    meant: u16,
    request: &RequestData,
    grpc: Option<u16>,
    error: Option<Side>,
) -> (r: Outcome)
    requires
        request.wf(),
    ensures
        r == concluded(written, meant, request@, grpc, error),
{
    let status: u16 = match written {
        Some(s) => s,
        None => if meant != 0 {
            meant
        } else {
            502
        },
    };
    let call = match request.header("content-type") {
        Some(t) => text::starts_with(t, "application/grpc"),
        None => false,
    };
    let grpc_status: Option<u16> = if call {
        match grpc {
            Some(s) => Some(s),
            None => Some(
                if status == 401 {
                    16
                } else if status == 403 {
                    7
                } else if status == 429 || (502 <= status && status <= 504) {
                    14
                } else {
                    2
                },
            ),
        }
    } else {
        None
    };
    let upstream_failed = match error {
        Some(Side::Upstream) => true,
        _ => false,
    };
    let bad_call = match grpc_status {
        Some(s) => s != 0,
        None => false,
    };
    Outcome {
        status,
        grpc_status,
        upstream_failed,
        failed: upstream_failed || status >= 500 || bad_call,
        counts: error.is_none() || upstream_failed,
    }
}

/// The file that a request is logged to: the route's choice, which may be none, else the usual one.
pub open spec fn log_target(
    route: Option<Option<Seq<char>>>,
    usual: Option<Seq<char>>,
) -> Option<Seq<char>> {
    match route {
        Some(choice) => choice,
        None => usual,
    }
}

pub fn access_log<'a>(route: Option<&'a Option<String>>, usual: &'a Option<String>) -> (r: &'a Option<
    String,
>)
    ensures
        text::opt(*r) == log_target(
            match route {
                Some(c) => Some(text::opt(*c)),
                None => None,
            },
            text::opt(*usual),
        ),
{
    match route {
        Some(choice) => choice,
        None => usual,
    }
}

/// What the connection and the configuration add to a record.
pub struct Circumstances {
    pub timestamp: String,
    pub uri: String,
    pub protocol: String,
    pub bytes: u64,
    pub route: Option<String>,
    pub backend: Option<String>,
    pub upstream: Option<String>,
    pub config: Option<String>,
    pub trace_id: Option<String>,
    pub span_id: Option<String>,
    pub parent_span_id: Option<String>,
    pub upstream_span_id: Option<String>,
    pub trace_sampled: Option<bool>,
}

pub open spec fn or_dash(s: Option<Seq<char>>) -> Seq<char> {
    match s {
        Some(s) => s,
        None => "-"@,
    }
}

fn text_or_dash(s: &Option<String>) -> (out: String)
    ensures
        out@ == or_dash(text::opt(*s)),
{
    match s {
        Some(s) => s.clone(),
        None => "-".to_owned(),
    }
}

pub open spec fn or_null(s: Option<Seq<char>>) -> Seq<char> {
    match s {
        Some(s) => s,
        None => "null"@,
    }
}

fn text_or_null(s: &Option<String>) -> (out: String)
    ensures
        out@ == or_null(text::opt(*s)),
{
    match s {
        Some(s) => s.clone(),
        None => "null".to_owned(),
    }
}

fn header_or_dash(request: &RequestData, name: &str) -> (out: String)
    requires
        request.wf(),
    ensures
        out@ == or_dash(request@.header(name@)),
{
    match request.header(name) {
        Some(s) => s.to_owned(),
        None => "-".to_owned(),
    }
}

/// The record of a request.
pub open spec fn recorded(r: Record, q: Request, status: u16, c: Circumstances) -> bool {
    &&& r.timestamp@ == c.timestamp@
    &&& r.client@ == q.remote_addr
    &&& r.method@ == q.method
    &&& r.uri@ == c.uri@
    &&& r.protocol@ == c.protocol@
    &&& r.status@ == text::decimal(status as nat)
    &&& r.bytes@ == text::decimal(c.bytes as nat)
    &&& r.referer@ == or_dash(q.header("referer"@))
    &&& r.user_agent@ == or_dash(q.header("user-agent"@))
    &&& r.route@ == match c.route {
        Some(s) => s@,
        None => "_unmatched"@,
    }
    &&& r.backend@ == or_dash(text::opt(c.backend))
    &&& r.upstream@ == or_dash(text::opt(c.upstream))
    &&& r.config@ == or_dash(text::opt(c.config))
    &&& r.trace_id@ == or_dash(text::opt(c.trace_id))
    &&& r.span_id@ == or_dash(text::opt(c.span_id))
    &&& r.parent_span_id@ == or_null(text::opt(c.parent_span_id))
    &&& r.upstream_span_id@ == or_null(text::opt(c.upstream_span_id))
    &&& r.trace_sampled@ == match c.trace_sampled {
        Some(true) => "true"@,
        Some(false) => "false"@,
        None => "null"@,
    }
}

/// The record of a request.
pub fn record(request: &RequestData, status: u16, c: &Circumstances) -> (r: Record)
    requires
        request.wf(),
    ensures
        recorded(r, request@, status, *c),
{
    Record {
        timestamp: c.timestamp.clone(),
        client: request.remote_addr.clone(),
        method: request.method.clone(),
        uri: c.uri.clone(),
        protocol: c.protocol.clone(),
        status: text::decimal_string(status as u64),
        bytes: text::decimal_string(c.bytes),
        referer: header_or_dash(request, "referer"),
        user_agent: header_or_dash(request, "user-agent"),
        route: match &c.route {
            Some(s) => s.clone(),
            None => "_unmatched".to_owned(),
        },
        backend: text_or_dash(&c.backend),
        upstream: text_or_dash(&c.upstream),
        config: text_or_dash(&c.config),
        trace_id: text_or_dash(&c.trace_id),
        span_id: text_or_dash(&c.span_id),
        parent_span_id: text_or_null(&c.parent_span_id),
        upstream_span_id: text_or_null(&c.upstream_span_id),
        trace_sampled: match c.trace_sampled {
            Some(true) => "true".to_owned(),
            Some(false) => "false".to_owned(),
            None => "null".to_owned(),
        },
    }
}

/// The line that the access log gets for a request.
pub fn access_line(policy: &Policy, request: &RequestData, status: u16, c: &Circumstances) -> (out: String)
    requires
        request.wf(),
    ensures
        exists|r: Record| recorded(r, request@, status, *c) && out@ == #[trigger] policy.line(r),
{
    let r = record(request, status, c);
    let out = policy.render(&r);
    assert(recorded(r, request@, status, *c) && out@ == policy.line(r));
    out
}

/// What the access log gets for a request: a line, or an object that is written as JSON.
#[derive(Debug)]
pub enum Entry {
    Line(String),
    Object(Json),
}

/// The members of an object with one more, where there is a value and the policy shows the member.
pub open spec fn noted(p: Policy, v: Seq<(Seq<char>, Tree)>, name: Seq<char>, t: Option<Tree>) -> Seq<
    (Seq<char>, Tree),
> {
    if t is Some && (p.fields@.len() == 0 || text::texts(p.fields@).contains(name)) {
        v.push((name, t->0))
    } else {
        v
    }
}

fn note(p: &Policy, v: &mut Vec<(String, Json)>, name: &str, j: Option<Json>)
    ensures
        member_trees(final(v)@) == noted(
            *p,
            member_trees(old(v)@),
            name@,
            match j {
                Some(j) => Some(j.tree()),
                None => None,
            },
        ),
{
    if let Some(j) = j {
        if p.shows(name) {
            let ghost before = member_trees(v@);
            let ghost x = (name@, j.tree());
            v.push((name.to_owned(), j));
            assert(member_trees(v@) =~= before.push(x));
        }
    }
}

pub open spec fn text_tree(s: Seq<char>) -> Option<Tree> {
    Some(Tree::Text(s))
}

pub open spec fn opt_tree(s: Option<Seq<char>>) -> Option<Tree> {
    match s {
        Some(s) => Some(Tree::Text(s)),
        None => None,
    }
}

pub open spec fn number_tree(n: nat) -> Option<Tree> {
    Some(Tree::Number(text::decimal(n)))
}

/// The members of the object for a request, in the order of their names. What is not known of its spans is
/// left out.
pub open spec fn entry_members(
    p: Policy,
    q: Request,
    status: u16,
    grpc: Option<u16>,
    c: Circumstances,
) -> Seq<(Seq<char>, Tree)> {
    let v = noted(p, Seq::empty(), "backend"@, text_tree(or_dash(text::opt(c.backend))));
    let v = noted(p, v, "bytes"@, number_tree(c.bytes as nat));
    let v = noted(p, v, "client"@, text_tree(p.shown_client(q.remote_addr)));
    let v = noted(p, v, "config"@, text_tree(or_dash(text::opt(c.config))));
    let v = noted(
        p,
        v,
        "grpc_status"@,
        match grpc {
            Some(n) => number_tree(n as nat),
            None => Some(Tree::Null),
        },
    );
    let v = noted(p, v, "method"@, text_tree(q.method));
    let v = noted(p, v, "parent_span_id"@, opt_tree(text::opt(c.parent_span_id)));
    let v = noted(p, v, "protocol"@, text_tree(c.protocol@));
    let v = noted(
        p,
        v,
        "referer"@,
        text_tree(p.shown_referer(or_dash(q.header("referer"@)))),
    );
    let v = noted(
        p,
        v,
        "route"@,
        text_tree(
            match c.route {
                Some(s) => s@,
                None => "_unmatched"@,
            },
        ),
    );
    let v = noted(p, v, "span_id"@, text_tree(or_dash(text::opt(c.span_id))));
    let v = noted(p, v, "status"@, number_tree(status as nat));
    let v = noted(p, v, "timestamp"@, text_tree(c.timestamp@));
    let v = noted(p, v, "trace_id"@, text_tree(or_dash(text::opt(c.trace_id))));
    let v = noted(
        p,
        v,
        "trace_sampled"@,
        match c.trace_sampled {
            Some(b) => Some(Tree::Bool(b)),
            None => None,
        },
    );
    let v = noted(p, v, "upstream"@, text_tree(or_dash(text::opt(c.upstream))));
    let v = noted(p, v, "upstream_span_id"@, opt_tree(text::opt(c.upstream_span_id)));
    let v = noted(p, v, "uri"@, text_tree(p.shown_uri(c.uri@)));
    noted(p, v, "user_agent"@, text_tree(or_dash(q.header("user-agent"@))))
}

fn number_json(n: u64) -> (j: Json)
    ensures
        j.tree() == Tree::Number(text::decimal(n as nat)),
{
    Json::Number(text::decimal_string(n))
}

fn text_json(s: &str) -> (j: Json)
    ensures
        j.tree() == Tree::Text(s@),
{
    Json::Text(s.to_owned())
}

fn opt_json(s: &Option<String>) -> (j: Option<Json>)
    ensures
        match j {
            Some(j) => Some(j.tree()),
            None => None,
        } == opt_tree(text::opt(*s)),
{
    match s {
        Some(s) => Some(text_json(s.as_str())),
        None => None,
    }
}

/// The object for a request.
fn entry_object(p: &Policy, request: &RequestData, status: u16, grpc: Option<u16>, c: &Circumstances) -> (r:
    Json)
    requires
        request.wf(),
    ensures
        r.tree() == Tree::Object(entry_members(*p, request@, status, grpc, *c)),
{
    let mut v: Vec<(String, Json)> = Vec::new();
    assert(member_trees(v@) =~= Seq::empty());
    note(p, &mut v, "backend", Some(Json::Text(text_or_dash(&c.backend))));
    note(p, &mut v, "bytes", Some(number_json(c.bytes)));
    let client = if p.client {
        request.remote_addr.as_str()
    } else {
        "-"
    };
    note(p, &mut v, "client", Some(text_json(client)));
    note(p, &mut v, "config", Some(Json::Text(text_or_dash(&c.config))));
    let call = match grpc {
        Some(n) => number_json(n as u64),
        None => Json::Null,
    };
    note(p, &mut v, "grpc_status", Some(call));
    note(p, &mut v, "method", Some(text_json(request.method.as_str())));
    note(p, &mut v, "parent_span_id", opt_json(&c.parent_span_id));
    note(p, &mut v, "protocol", Some(text_json(c.protocol.as_str())));
    let referer = if p.referer {
        p.uri(header_or_dash(request, "referer").as_str())
    } else {
        "-".to_owned()
    };
    note(p, &mut v, "referer", Some(Json::Text(referer)));
    let route = match &c.route {
        Some(s) => s.as_str(),
        None => "_unmatched",
    };
    note(p, &mut v, "route", Some(text_json(route)));
    note(p, &mut v, "span_id", Some(Json::Text(text_or_dash(&c.span_id))));
    note(p, &mut v, "status", Some(number_json(status as u64)));
    note(p, &mut v, "timestamp", Some(text_json(c.timestamp.as_str())));
    note(p, &mut v, "trace_id", Some(Json::Text(text_or_dash(&c.trace_id))));
    let sampled = match c.trace_sampled {
        Some(b) => Some(Json::Bool(b)),
        None => None,
    };
    note(p, &mut v, "trace_sampled", sampled);
    note(p, &mut v, "upstream", Some(Json::Text(text_or_dash(&c.upstream))));
    note(p, &mut v, "upstream_span_id", opt_json(&c.upstream_span_id));
    note(p, &mut v, "uri", Some(Json::Text(p.uri(c.uri.as_str()))));
    note(p, &mut v, "user_agent", Some(Json::Text(header_or_dash(request, "user-agent"))));
    let r = Json::Object(v);
    proof {
        lemma_tree(r);
    }
    r
}

/// What the access log gets for a request, as a line or as JSON, whichever the policy asks for.
pub fn access_entry(
    policy: &Policy,
    request: &RequestData,
    status: u16,
    grpc: Option<u16>,
    c: &Circumstances,
) -> (r: Entry)
    requires
        request.wf(),
    ensures
        match r {
            Entry::Object(j) => policy.json && j.tree() == Tree::Object(
                entry_members(*policy, request@, status, grpc, *c),
            ),
            Entry::Line(s) => !policy.json && exists|x: Record|
                recorded(x, request@, status, *c) && s@ == #[trigger] policy.line(x),
        },
{
    if policy.json {
        Entry::Object(entry_object(policy, request, status, grpc, c))
    } else {
        Entry::Line(access_line(policy, request, status, c))
    }
}

/// The address of a client as it is exported: it is left out where the policy of the route hides clients.
pub fn exported_client<'a>(policy: Option<&Policy>, client: &'a str) -> (r: &'a str)
    ensures
        r@ == if policy is None || policy->0.client {
            client@
        } else {
            ""@
        },
{
    match policy {
        Some(p) => if p.client {
            client
        } else {
            ""
        },
        None => client,
    }
}

/// The path of a target, without its query.
pub open spec fn path_part(target: Seq<char>) -> Seq<char> {
    text::split_spec(target, '?')[0]
}

pub fn target_path(target: &str) -> (out: String)
    ensures
        out@ == path_part(target@),
{
    let pieces = text::split(target, '?');
    assert(text::texts(pieces@)[0] == pieces@[0]@);
    pieces[0].clone()
}

/// The side on which a request failed, in a word.
pub fn error_source(side: Side) -> (r: &'static str)
    ensures
        r@ == match side {
            Side::Upstream => "upstream"@,
            Side::Downstream => "downstream"@,
            Side::Internal => "internal"@,
        },
{
    match side {
        Side::Upstream => "upstream",
        Side::Downstream => "downstream",
        Side::Internal => "internal",
    }
}

/// Whatever a backend does wrong makes the request a failed one, and the result counts for the endpoint.
pub proof fn law_backend_faults_are_failures(
    written: Option<u16>,
    meant: u16,
    r: Request,
    grpc: Option<u16>,
)
    ensures
        concluded(written, meant, r, grpc, Some(Side::Upstream)).failed,
        concluded(written, meant, r, grpc, Some(Side::Upstream)).counts,
        !concluded(written, meant, r, grpc, Some(Side::Downstream)).counts,
{
}

/// The status that was written counts; where none was, the one that was meant, and 502 where none was meant.
pub proof fn law_written_statuses_count(written: u16, meant: u16)
    ensures
        final_status(Some(written), meant) == written,
        meant != 0 ==> final_status(None, meant) == meant,
        final_status(None, 0) == 502,
{
}

/// A request fails where its status is of the server's faults, where its call fails, or where its backend is at
/// fault, and in no other case.
pub proof fn law_failures_are_the_servers(
    written: Option<u16>,
    meant: u16,
    r: Request,
    grpc: Option<u16>,
    error: Option<Side>,
)
    ensures
        ({
            let o = concluded(written, meant, r, grpc, error);
            &&& o.status == final_status(written, meant)
            &&& o.status >= 500 ==> o.failed
            &&& o.status < 500 && !is_grpc(r) && error != Some(Side::Upstream) ==> !o.failed
            &&& is_grpc(r) && grpc is Some ==> o.grpc_status == grpc && (grpc->0 != 0 ==> o.failed)
            &&& is_grpc(r) && grpc == Some(0u16) && o.status < 500 && error != Some(Side::Upstream)
                ==> !o.failed
            &&& !is_grpc(r) ==> o.grpc_status is None
            &&& error is None ==> o.counts && !o.upstream_failed
        }),
{
}

/// A call that ended without a status of its own has one for its status of HTTP.
pub proof fn law_statuses_have_equivalents(status: u16)
    ensures
        grpc_equivalent(401) == 16,
        grpc_equivalent(403) == 7,
        grpc_equivalent(429) == 14,
        502 <= status <= 504 ==> grpc_equivalent(status) == 14,
        status != 401 && status != 403 && status != 429 && !(502 <= status <= 504) ==> grpc_equivalent(
            status,
        ) == 2,
{
}

/// The log of a route takes the place of the usual one, also where it is off.
pub proof fn law_routes_have_their_own_log(route: Option<Seq<char>>, usual: Option<Seq<char>>)
    ensures
        log_target(Some(route), usual) == route,
        log_target(None, usual) == usual,
{
}

/// The path of a target is what stands before its query.
pub proof fn law_paths_end_before_the_query(path: Seq<char>, query: Seq<char>)
    requires
        !path.contains('?'),
    ensures
        path_part(path + seq!['?'] + query) == path,
        path_part(path) == path,
{
    text::lemma_split_first(path, '?', query);
    assert(path.push('?') + query =~= path + seq!['?'] + query);
}

/// A member is noted where the policy names no members, or names this one, and there is something to note.
pub proof fn law_members_are_those_of_the_policy(p: Policy, v: Seq<(Seq<char>, Tree)>, name: Seq<char>, t: Tree)
    ensures
        p.fields@.len() == 0 ==> noted(p, v, name, Some(t)) == v.push((name, t)),
        p.fields@.len() > 0 && text::texts(p.fields@).contains(name) ==> noted(p, v, name, Some(t))
            == v.push((name, t)),
        p.fields@.len() > 0 && !text::texts(p.fields@).contains(name) ==> noted(p, v, name, Some(t)) == v,
        noted(p, v, name, None) == v,
{
}

/// With all members the record of a request holds what is known of it, each under its name.
pub proof fn law_records_hold_what_is_known(
    p: Policy,
    q: Request,
    status: u16,
    grpc: Option<u16>,
    c: Circumstances,
)
    requires
        p.fields@.len() == 0,
    ensures
        ({
            let v = entry_members(p, q, status, grpc, c);
            &&& v.contains(("status"@, Tree::Number(text::decimal(status as nat))))
            &&& v.contains(("bytes"@, Tree::Number(text::decimal(c.bytes as nat))))
            &&& v.contains(("method"@, Tree::Text(q.method)))
            &&& v.contains(("client"@, Tree::Text(p.shown_client(q.remote_addr))))
            &&& v.contains(("uri"@, Tree::Text(p.shown_uri(c.uri@))))
            &&& v.contains(("protocol"@, Tree::Text(c.protocol@)))
            &&& v.contains(("timestamp"@, Tree::Text(c.timestamp@)))
            &&& c.backend matches Some(s) ==> v.contains(("backend"@, Tree::Text(s@)))
            &&& c.upstream matches Some(s) ==> v.contains(("upstream"@, Tree::Text(s@)))
            &&& c.route matches Some(s) ==> v.contains(("route"@, Tree::Text(s@)))
            &&& grpc matches Some(n) ==> v.contains(
                ("grpc_status"@, Tree::Number(text::decimal(n as nat))),
            )
            &&& q.header("user-agent"@) matches Some(s) ==> v.contains(("user_agent"@, Tree::Text(s)))
        }),
{
    let v = entry_members(p, q, status, grpc, c);
    let a: int = if c.parent_span_id is Some {
        1
    } else {
        0
    };
    let b: int = a + if c.trace_sampled is Some {
        1int
    } else {
        0
    };
    let d: int = b + if c.upstream_span_id is Some {
        1int
    } else {
        0
    };
    assert(v[0] == ("backend"@, Tree::Text(or_dash(text::opt(c.backend)))));
    assert(v[1] == ("bytes"@, Tree::Number(text::decimal(c.bytes as nat))));
    assert(v[2] == ("client"@, Tree::Text(p.shown_client(q.remote_addr))));
    assert(v[4] == ("grpc_status"@, match grpc {
        Some(n) => Tree::Number(text::decimal(n as nat)),
        None => Tree::Null,
    }));
    assert(v[5] == ("method"@, Tree::Text(q.method)));
    assert(v[6 + a] == ("protocol"@, Tree::Text(c.protocol@)));
    assert(v[8 + a].0 == "route"@);
    assert(v[10 + a] == ("status"@, Tree::Number(text::decimal(status as nat))));
    assert(v[11 + a] == ("timestamp"@, Tree::Text(c.timestamp@)));
    assert(v[13 + b] == ("upstream"@, Tree::Text(or_dash(text::opt(c.upstream)))));
    assert(v[14 + d] == ("uri"@, Tree::Text(p.shown_uri(c.uri@))));
    assert(v[15 + d] == ("user_agent"@, Tree::Text(or_dash(q.header("user-agent"@)))));
}

} // verus!

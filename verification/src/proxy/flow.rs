//! The way of a request through the checks of its route, from the choice of the route to an answer or a
//! backend.
//!
//! Each check that others decide is asked for in turn; `next` says what the decision leads to.
use crate::header;
use crate::header::{first_text_of, values, visible_text, Headers};
use crate::model::{copy_opt, Action, Deed};
use crate::proxy::paths::encode_path;
use crate::proxy::planning::{expanded, line_path, Scene, Variables};
use crate::proxy::request::{https_redirect, is_v6, secure_address, Progress};
use crate::script::{all_edited, edited, Changes, Decision, Edits, Request};
use crate::table::Table;
use crate::text;
use crate::net::parsed_ip;
use crate::uri::uri_target;
use vstd::prelude::*;

verus! {

/// What the route of a request asks for.
#[derive(Debug)]
pub struct Gate {
    /// The secure port to which plain requests are sent.
    pub secure_port: Option<u16>,
    /// Whether the quotas of a namespace apply.
    pub tenant: bool,
    /// Whether a bearer token is asked for.
    pub jwt: bool,
    /// The fields that an external authorization sets.
    pub external: Option<Vec<String>>,
    /// Whether the client is sent to the path with `/` at its end.
    pub slash: bool,
    /// The longest body, or 0 for no limit.
    pub max_body: u64,
    /// Whether a script runs.
    pub script: bool,
    /// The backends that the script may choose, by the names that it knows.
    pub backends: Table,
    pub action: Action,
}

/// A check that others decide.
#[derive(Clone, Copy, Debug, PartialEq, Eq, Structural)]
pub enum Stage {
    Certificate,
    TenantRequest,
    TenantRate,
    PreAuth,
    Token,
    AuthQuota,
    External,
    Traffic,
    PluginQuota,
    PluginPermit,
    Body,
    Script,
}

/// How a check was decided.
#[derive(Debug)]
pub enum Event {
    Passed,
    Denied(u16),
    /// What a token that holds says.
    Claims(Table),
    /// The fields that an external authorization sets.
    Authorized(Vec<(String, String)>),
    /// What a script changes and decides.
    Scripted(Edits, Decision),
}

/// What happens to a request next.
#[derive(Debug)]
pub enum Next {
    Ask(Stage),
    /// Ask whether the token holds.
    Verify(String),
    Reply { status: u16, body: String, location: Option<String> },
    Fail(u16),
    Backend { key: String, uri: Option<String>, scripted: bool },
    Files,
}

/// What a `Next` holds.
#[verifier::ext_equal]
pub ghost enum Goal {
    Ask(Stage),
    Verify(Seq<char>),
    Reply { status: u16, body: Seq<char>, location: Option<Seq<char>> },
    Fail(u16),
    Backend { key: Seq<char>, uri: Option<Seq<char>>, scripted: bool },
    Files,
}

impl View for Next {
    type V = Goal;

    open spec fn view(&self) -> Goal {
        match self {
            Next::Ask(s) => Goal::Ask(*s),
            Next::Verify(t) => Goal::Verify(t@),
            Next::Reply { status, body, location } => Goal::Reply {
                status: *status,
                body: body@,
                location: text::opt(*location),
            },
            Next::Fail(s) => Goal::Fail(*s),
            Next::Backend { key, uri, scripted } => Goal::Backend {
                key: key@,
                uri: text::opt(*uri),
                scripted: *scripted,
            },
            Next::Files => Goal::Files,
        }
    }
}

impl Gate {
    pub open spec fn wf(&self) -> bool {
        self.backends.wf()
    }
}

/// The one bearer token of a request.
pub open spec fn bearer(v: Seq<Seq<u8>>) -> Option<Seq<char>> {
    if v.len() != 1 {
        None
    } else {
        match visible_text(v[0]) {
            None => None,
            Some(s) => if text::starts(s, "Bearer "@) {
                Some(s.skip("Bearer "@.len() as int))
            } else {
                None
            },
        }
    }
}

fn bearer_token(headers: &Headers) -> (r: Option<String>)
    ensures
        text::opt(r) == bearer(values(headers.fields@, "authorization"@)),
{
    let fields = headers.all("authorization");
    if fields.len() != 1 {
        return None;
    }
    match header::to_text(fields[0]) {
        None => None,
        Some(s) => match text::strip_prefix(s.as_str(), "Bearer ") {
            Some(t) => Some(t.to_owned()),
            None => None,
        },
    }
}

/// Whether the length that a request gives for its body exceeds a limit.
pub open spec fn too_long(fields: Seq<header::Field>, max: u64) -> bool {
    max > 0 && match first_text_of(fields, "content-length"@) {
        None => false,
        Some(s) => match text::decimal_upto(s, u64::MAX as nat) {
            None => false,
            Some(n) => n > max,
        },
    }
}

pub fn body_too_long(headers: &Headers, max: u64) -> (r: bool)
    ensures
        r == too_long(headers.fields@, max),
{
    if max == 0 {
        return false;
    }
    match headers.first_text("content-length") {
        None => false,
        Some(s) => match text::parse_u64(s.as_str()) {
            None => false,
            Some(n) => n > max,
        },
    }
}

/// A time in whole seconds, rounded up; nothing where it is 0.
pub open spec fn whole_seconds(milliseconds: u64) -> Option<u64> {
    if milliseconds == 0 {
        None
    } else if milliseconds % 1000 == 0 {
        Some((milliseconds / 1000) as u64)
    } else {
        Some((milliseconds / 1000 + 1) as u64)
    }
}

/// How long a connection is kept after an answer, in whole seconds, where its state allows that at all:
/// parts of a second count as one, and a time of 0 ends the connection.
pub fn keepalive_seconds(milliseconds: u64) -> (r: Option<u64>)
    ensures
        r == if milliseconds == 0 {
            None::<u64>
        } else if milliseconds % 1000 == 0 {
            Some((milliseconds / 1000) as u64)
        } else {
            Some((milliseconds / 1000 + 1) as u64)
        },
        r == whole_seconds(milliseconds),
{
    if milliseconds == 0 {
        None
    } else if milliseconds % 1000 == 0 {
        Some(milliseconds / 1000)
    } else {
        Some(milliseconds / 1000 + 1)
    }
}

/// The request without the fields that an external authorization sets.
pub open spec fn cleared(s: Scene, names: Seq<Seq<char>>) -> Scene
    decreases names.len(),
{
    if names.len() == 0 {
        s
    } else {
        let t = cleared(s, names.drop_last());
        Scene {
            request: Request { headers: t.request.headers.remove(names.last()), ..t.request },
            edits: Changes { headers: edited(t.edits.headers, names.last(), None), ..t.edits },
            ..t
        }
    }
}

/// The request with the fields that an external authorization set.
pub open spec fn vouched(s: Scene, fields: Seq<(Seq<char>, Seq<char>)>) -> Scene
    decreases fields.len(),
{
    if fields.len() == 0 {
        s
    } else {
        let t = vouched(s, fields.drop_last());
        let (name, value) = fields.last();
        Scene {
            request: Request { headers: t.request.headers.insert(name, value), ..t.request },
            edits: Changes { headers: edited(t.edits.headers, name, Some(value)), ..t.edits },
            ..t
        }
    }
}

/// The answer of a route that a request reached.
pub open spec fn finished(s: Scene, d: Deed) -> Goal {
    match d {
        Deed::Proxy { backend, uri } => Goal::Backend { key: backend, uri, scripted: false },
        Deed::Static => Goal::Files,
        Deed::Unavailable => Goal::Fail(503),
        Deed::Return { status, text } => {
            let body = expanded(s, text, Seq::empty(), 0);
            if 300 <= status < 400 && body.len() > 0 {
                Goal::Reply { status, body: Seq::empty(), location: Some(body) }
            } else {
                Goal::Reply { status, body, location: None }
            }
        },
    }
}

/// The address with `/` at the end of its path.
pub open spec fn slash_address(r: Request) -> Seq<char> {
    line_path(r.path.push('/')) + if r.query.len() == 0 {
        Seq::empty()
    } else {
        "?"@ + r.query
    }
}

/// What a request does first.
pub open spec fn entered(s: Scene, g: Gate) -> Goal {
    if s.scheme != "https"@ && g.secure_port is Some {
        Goal::Reply {
            status: 308,
            body: Seq::empty(),
            location: Some(
                secure_address(
                    s.request.host,
                    is_v6(parsed_ip(s.request.host)),
                    uri_target(s.original_uri),
                    g.secure_port->0,
                ),
            ),
        }
    } else {
        Goal::Ask(Stage::Certificate)
    }
}

/// What comes after the token.
pub open spec fn after_token(s: Scene, g: Gate) -> (Scene, Goal) {
    match g.external {
        None => (s, Goal::Ask(Stage::Traffic)),
        Some(names) => if g.tenant {
            (s, Goal::Ask(Stage::AuthQuota))
        } else {
            (cleared(s, text::texts(names@)), Goal::Ask(Stage::External))
        },
    }
}

/// What comes after the quotas of the route.
pub open spec fn after_traffic(s: Scene, g: Gate, fields: Seq<header::Field>) -> Goal {
    if g.slash {
        Goal::Reply {
            status: 301,
            body: Seq::empty(),
            location: Some(slash_address(s.request)),
        }
    } else if too_long(fields, g.max_body) {
        Goal::Fail(413)
    } else if g.script {
        if g.tenant {
            Goal::Ask(Stage::PluginQuota)
        } else {
            Goal::Ask(Stage::PluginPermit)
        }
    } else {
        finished(s, g.action@)
    }
}

/// The request with what a script changed.
pub open spec fn scripted(s: Scene, e: Changes) -> Scene {
    Scene {
        edits: Changes {
            path: e.path,
            query: e.query,
            headers: all_edited(s.edits.headers, e.headers),
        },
        ..s
    }
}

pub open spec fn decided(s: Scene, g: Gate, d: Decision) -> Goal {
    match d {
        Decision::Pass => finished(s, g.action@),
        Decision::Proxy(name) => if g.backends@.dom().contains(name@) {
            Goal::Backend { key: g.backends@[name@], uri: None, scripted: true }
        } else {
            Goal::Fail(500)
        },
        Decision::Reply(status, body) => Goal::Reply { status, body: body@, location: None },
    }
}

/// The status with which a request that a check denies is answered.
pub open spec fn denial(stage: Stage, status: u16) -> u16 {
    match stage {
        Stage::Certificate => 403,
        Stage::Token => 401,
        Stage::PluginPermit => 503,
        Stage::Script => 500,
        _ => status,
    }
}

/// What a decision on a check leads to. One that does not belong to the check fails the request.
pub open spec fn advanced(
    s: Scene,
    g: Gate,
    fields: Seq<header::Field>,
    stage: Stage,
    event: Event,
) -> (Scene, Goal) {
    match (stage, event) {
        (_, Event::Denied(status)) => (s, Goal::Fail(denial(stage, status))),
        (Stage::Certificate, Event::Passed) => (
            s,
            Goal::Ask(
                if g.tenant {
                    Stage::TenantRequest
                } else {
                    Stage::PreAuth
                },
            ),
        ),
        (Stage::TenantRequest, Event::Passed) => (s, Goal::Ask(Stage::TenantRate)),
        (Stage::TenantRate, Event::Passed) => (s, Goal::Ask(Stage::PreAuth)),
        (Stage::PreAuth, Event::Passed) => if g.jwt {
            match bearer(values(fields, "authorization"@)) {
                Some(t) => (s, Goal::Verify(t)),
                None => (s, Goal::Fail(401)),
            }
        } else {
            after_token(s, g)
        },
        (Stage::Token, Event::Claims(c)) => after_token(
            Scene { request: Request { claims: c@, ..s.request }, ..s },
            g,
        ),
        (Stage::AuthQuota, Event::Passed) => match g.external {
            Some(names) => (cleared(s, text::texts(names@)), Goal::Ask(Stage::External)),
            None => (s, Goal::Ask(Stage::External)),
        },
        (Stage::External, Event::Authorized(v)) => (
            vouched(s, text::pairs(v@)),
            Goal::Ask(Stage::Traffic),
        ),
        (Stage::Traffic, Event::Passed) => (s, after_traffic(s, g, fields)),
        (Stage::PluginQuota, Event::Passed) => (s, Goal::Ask(Stage::PluginPermit)),
        (Stage::PluginPermit, Event::Passed) => (s, Goal::Ask(Stage::Body)),
        (Stage::Body, Event::Passed) => (s, Goal::Ask(Stage::Script)),
        (Stage::Script, Event::Scripted(e, d)) => (scripted(s, e@), decided(scripted(s, e@), g, d)),
        _ => (s, Goal::Fail(500)),
    }
}

/// What a request does first.
pub fn enter(p: &Progress, gate: &Gate) -> (r: Next)
    ensures
        r@ == entered(p@, *gate),
{
    if !text::same(p.scheme.as_str(), "https") {
        if let Some(port) = gate.secure_port {
            let location = https_redirect(p.request.host.as_str(), p.original_uri.as_str(), port);
            let r = Next::Reply { status: 308, body: String::new(), location: Some(location) };
            assert(r@ =~= entered(p@, *gate));
            return r;
        }
    }
    Next::Ask(Stage::Certificate)
}

fn clear(p: &mut Progress, names: &Vec<String>)
    requires
        old(p).request.wf(),
    ensures
        final(p).request.wf(),
        final(p)@ == cleared(old(p)@, text::texts(names@)),
{
    let ghost all = text::texts(names@);
    let mut i: usize = 0;
    while i < names.len()
        invariant
            i <= names.len(),
            all == text::texts(names@),
            p.request.wf(),
            p@ == cleared(old(p)@, all.take(i as int)),
        decreases names.len() - i,
    {
        assert(all.take(i + 1).drop_last() =~= all.take(i as int));
        p.request.headers.remove(names[i].as_str());
        p.edits.edit(names[i].clone(), None);
        i += 1;
    }
    assert(all.take(i as int) =~= all);
}

fn vouch(p: &mut Progress, fields: &Vec<(String, String)>)
    requires
        old(p).request.wf(),
    ensures
        final(p).request.wf(),
        final(p)@ == vouched(old(p)@, text::pairs(fields@)),
{
    let ghost all = text::pairs(fields@);
    let mut i: usize = 0;
    while i < fields.len()
        invariant
            i <= fields.len(),
            all == text::pairs(fields@),
            p.request.wf(),
            p@ == vouched(old(p)@, all.take(i as int)),
        decreases fields.len() - i,
    {
        assert(all.take(i + 1).drop_last() =~= all.take(i as int));
        p.request.headers.insert(fields[i].0.clone(), fields[i].1.clone());
        p.edits.edit(fields[i].0.clone(), Some(fields[i].1.clone()));
        i += 1;
    }
    assert(all.take(i as int) =~= all);
}

fn finish(p: &Progress, action: &Action) -> (r: Next)
    requires
        p.request.wf(),
    ensures
        r@ == finished(p@, action@),
{
    match action {
        Action::Proxy { backend, uri } => Next::Backend {
            key: backend.clone(),
            uri: copy_opt(uri),
            scripted: false,
        },
        Action::Static => Next::Files,
        Action::Unavailable => Next::Fail(503),
        Action::Return { status, text } => {
            let v = Variables {
                request: &p.request,
                edits: &p.edits,
                original_uri: p.original_uri.as_str(),
                original_peer: p.original_peer.as_str(),
                scheme: p.scheme.as_str(),
                server_name: p.server_name.as_str(),
            };
            assert(v@ =~= p@);
            proof {
                reveal_strlit("");
                assert(""@ =~= Seq::<char>::empty());
            }
            let body = v.expand(text.as_str(), "");
            if 300 <= *status && *status < 400 && !body.as_str().is_empty() {
                let r = Next::Reply { status: *status, body: String::new(), location: Some(body) };
                assert(r@ =~= finished(p@, action@));
                r
            } else {
                Next::Reply { status: *status, body, location: None }
            }
        },
    }
}

fn pass_token(p: &mut Progress, gate: &Gate) -> (r: Next)
    requires
        old(p).request.wf(),
    ensures
        final(p).request.wf(),
        (final(p)@, r@) == after_token(old(p)@, *gate),
{
    match &gate.external {
        None => Next::Ask(Stage::Traffic),
        Some(names) => {
            if gate.tenant {
                Next::Ask(Stage::AuthQuota)
            } else {
                clear(p, names);
                Next::Ask(Stage::External)
            }
        },
    }
}

fn pass_traffic(p: &Progress, gate: &Gate, headers: &Headers) -> (r: Next)
    requires
        p.request.wf(),
    ensures
        r@ == after_traffic(p@, *gate, headers.fields@),
{
    if gate.slash {
        let mut path = p.request.path.clone();
        path.push('/');
        let mut location = encode_path(path.as_str());
        if !p.request.query.as_str().is_empty() {
            location.append(text::concat("?", p.request.query.as_str()).as_str());
        } else {
            assert(location@ =~= location@ + Seq::<char>::empty());
        }
        let r = Next::Reply { status: 301, body: String::new(), location: Some(location) };
        assert(r@ =~= after_traffic(p@, *gate, headers.fields@));
        r
    } else if body_too_long(headers, gate.max_body) {
        Next::Fail(413)
    } else if gate.script {
        if gate.tenant {
            Next::Ask(Stage::PluginQuota)
        } else {
            Next::Ask(Stage::PluginPermit)
        }
    } else {
        finish(p, &gate.action)
    }
}

fn decide(p: &Progress, gate: &Gate, decision: &Decision) -> (r: Next)
    requires
        p.request.wf(),
        gate.wf(),
    ensures
        r@ == decided(p@, *gate, *decision),
{
    match decision {
        Decision::Pass => finish(p, &gate.action),
        Decision::Proxy(name) => match gate.backends.get(name.as_str()) {
            Some(key) => Next::Backend { key: key.to_owned(), uri: None, scripted: true },
            None => Next::Fail(500),
        },
        Decision::Reply(status, body) => Next::Reply {
            status: *status,
            body: body.clone(),
            location: None,
        },
    }
}

/// What a decision on a check leads to.
pub fn next(p: &mut Progress, gate: &Gate, headers: &Headers, stage: Stage, event: &Event) -> (r: Next)
    requires
        old(p).request.wf(),
        gate.wf(),
        event is Claims ==> event->Claims_0.wf(),
    ensures
        final(p).request.wf(),
        (final(p)@, r@) == advanced(old(p)@, *gate, headers.fields@, stage, *event),
{
    match (stage, event) {
        (_, Event::Denied(status)) => Next::Fail(
            match stage {
                Stage::Certificate => 403,
                Stage::Token => 401,
                Stage::PluginPermit => 503,
                Stage::Script => 500,
                _ => *status,
            },
        ),
        (Stage::Certificate, Event::Passed) => Next::Ask(
            if gate.tenant {
                Stage::TenantRequest
            } else {
                Stage::PreAuth
            },
        ),
        (Stage::TenantRequest, Event::Passed) => Next::Ask(Stage::TenantRate),
        (Stage::TenantRate, Event::Passed) => Next::Ask(Stage::PreAuth),
        (Stage::PreAuth, Event::Passed) => {
            if gate.jwt {
                match bearer_token(headers) {
                    Some(t) => Next::Verify(t),
                    None => Next::Fail(401),
                }
            } else {
                pass_token(p, gate)
            }
        },
        (Stage::Token, Event::Claims(c)) => {
            p.request.claims = c.copy();
            pass_token(p, gate)
        },
        (Stage::AuthQuota, Event::Passed) => {
            if let Some(names) = &gate.external {
                clear(p, names);
            }
            Next::Ask(Stage::External)
        },
        (Stage::External, Event::Authorized(v)) => {
            vouch(p, v);
            Next::Ask(Stage::Traffic)
        },
        (Stage::Traffic, Event::Passed) => pass_traffic(p, gate, headers),
        (Stage::PluginQuota, Event::Passed) => Next::Ask(Stage::PluginPermit),
        (Stage::PluginPermit, Event::Passed) => Next::Ask(Stage::Body),
        (Stage::Body, Event::Passed) => Next::Ask(Stage::Script),
        (Stage::Script, Event::Scripted(e, d)) => {
            p.edits.path = copy_opt(&e.path);
            p.edits.query = copy_opt(&e.query);
            p.edits.extend(&e.headers);
            assert(p@ =~= scripted(old(p)@, e@));
            decide(p, gate, d)
        },
        _ => Next::Fail(500),
    }
}

// ---------------------------------------------------------------------------
// Laws
// ---------------------------------------------------------------------------

/// The place of a check on the way.
pub open spec fn place(stage: Stage) -> int {
    match stage {
        Stage::Certificate => 0,
        Stage::TenantRequest => 1,
        Stage::TenantRate => 2,
        Stage::PreAuth => 3,
        Stage::Token => 4,
        Stage::AuthQuota => 5,
        Stage::External => 6,
        Stage::Traffic => 7,
        Stage::PluginQuota => 8,
        Stage::PluginPermit => 9,
        Stage::Body => 10,
        Stage::Script => 11,
    }
}

/// The check that a request is at, where it is at one.
pub open spec fn waiting(g: Goal) -> Option<Stage> {
    match g {
        Goal::Ask(s) => Some(s),
        Goal::Verify(_) => Some(Stage::Token),
        _ => None,
    }
}

/// A request only moves on: no check is asked for twice.
pub proof fn law_requests_move_on(
    s: Scene,
    g: Gate,
    fields: Seq<header::Field>,
    stage: Stage,
    event: Event,
)
    ensures
        waiting(advanced(s, g, fields, stage, event).1) is Some ==> place(
            waiting(advanced(s, g, fields, stage, event).1)->0,
        ) > place(stage),
{
}

/// A request that a check denies fails there, and goes nowhere else.
pub proof fn law_denied_requests_fail(
    s: Scene,
    g: Gate,
    fields: Seq<header::Field>,
    stage: Stage,
    status: u16,
)
    ensures
        advanced(s, g, fields, stage, Event::Denied(status)) == (
            s,
            Goal::Fail(denial(stage, status)),
        ),
{
}

/// A check that the route asks for.
pub open spec fn applies(g: Gate, stage: Stage) -> bool {
    match stage {
        Stage::TenantRequest | Stage::TenantRate => g.tenant,
        Stage::Token => g.jwt,
        Stage::AuthQuota => g.external is Some && g.tenant,
        Stage::External => g.external is Some,
        Stage::PluginQuota => g.script && g.tenant,
        Stage::PluginPermit | Stage::Body | Stage::Script => g.script,
        _ => true,
    }
}

/// No check that the route asks for is left out: from one to the next there is none between that applies,
/// and a backend or a file is only reached after the last.
pub proof fn law_no_check_is_left_out(
    s: Scene,
    g: Gate,
    fields: Seq<header::Field>,
    stage: Stage,
    event: Event,
    other: Stage,
)
    requires
        applies(g, stage),
        applies(g, other),
        place(stage) < place(other),
    ensures
        ({
            let goal = advanced(s, g, fields, stage, event).1;
            match waiting(goal) {
                Some(t) => place(t) <= place(other),
                None => goal is Fail || goal is Reply,
            }
        }),
{
}

/// A field that an external authorization sets never comes from the client: it is removed before the
/// authorization is asked.
pub proof fn law_vouched_fields_are_not_the_clients(s: Scene, names: Seq<Seq<char>>, name: Seq<char>)
    requires
        names.contains(name),
    ensures
        !cleared(s, names).request.headers.dom().contains(name),
    decreases names.len(),
{
    let w = names.drop_last();
    if names.last() != name {
        let i = choose|i: int| 0 <= i < names.len() && names[i] == name;
        assert(w[i] == name);
        law_vouched_fields_are_not_the_clients(s, w, name);
    }
}

/// What a route does is done: it asks its backend, serves files, replies, or fails where it has nothing.
pub proof fn law_routes_do_their_deed(s: Scene, backend: Seq<char>, uri: Option<Seq<char>>, status: u16, t: Seq<char>)
    ensures
        finished(s, Deed::Proxy { backend, uri }) == (Goal::Backend { key: backend, uri, scripted: false }),
        finished(s, Deed::Static) == Goal::Files,
        finished(s, Deed::Unavailable) == Goal::Fail(503),
        finished(s, Deed::Return { status, text: t }) matches Goal::Reply { status: n, body, location }
            && n == status && {
            let e = expanded(s, t, Seq::empty(), 0);
            &&& 300 <= status < 400 && e.len() > 0 ==> body.len() == 0 && location == Some(e)
            &&& !(300 <= status < 400) ==> body == e && location is None
        },
{
}

/// A plain request to a route that is secure is sent to its secure address, and no other is.
pub proof fn law_plain_requests_are_sent_to_the_secure_port(s: Scene, g: Gate)
    ensures
        s.scheme == "https"@ ==> entered(s, g) == Goal::Ask(Stage::Certificate),
        g.secure_port is None ==> entered(s, g) == Goal::Ask(Stage::Certificate),
        s.scheme != "https"@ && g.secure_port is Some ==> (entered(s, g) matches Goal::Reply {
            status,
            body,
            location,
        } && status == 308 && body.len() == 0 && location is Some),
{
}

/// A route that asks for a token lets no request pass without one.
pub proof fn law_tokens_are_asked_for(s: Scene, g: Gate, fields: Seq<header::Field>, event: Event)
    requires
        g.jwt,
    ensures
        values(fields, "authorization"@).len() != 1 ==> advanced(s, g, fields, Stage::PreAuth, event).1
            is Fail,
        bearer(values(fields, "authorization"@)) is None ==> advanced(
            s,
            g,
            fields,
            Stage::PreAuth,
            Event::Passed,
        ).1 == Goal::Fail(401),
        bearer(values(fields, "authorization"@)) matches Some(t) ==> advanced(
            s,
            g,
            fields,
            Stage::PreAuth,
            Event::Passed,
        ).1 == Goal::Verify(t),
{
}

/// A token is what follows `Bearer ` in the one field.
pub proof fn law_tokens_follow_their_word(v: Seq<u8>, token: Seq<char>)
    requires
        visible_text(v) == Some("Bearer "@ + token),
    ensures
        bearer(seq![v]) == Some(token),
        bearer(seq![v, v]) is None,
        bearer(Seq::empty()) is None,
{
    let s = "Bearer "@ + token;
    assert(s.take("Bearer "@.len() as int) =~= "Bearer "@);
    assert(s.skip("Bearer "@.len() as int) =~= token);
}

/// A body that says that it is longer than the limit is refused, and one that is not is let in; a limit of 0
/// is none.
pub proof fn law_long_bodies_are_refused(fields: Seq<header::Field>, max: u64, n: u64)
    requires
        first_text_of(fields, "content-length"@) == Some(text::decimal(n as nat)),
    ensures
        too_long(fields, max) <==> max > 0 && n > max,
        too_long(fields, max) ==> forall|s: Scene, g: Gate|
            #![trigger after_traffic(s, g, fields)]
            !g.slash && g.max_body == max ==> after_traffic(s, g, fields) == Goal::Fail(413),
{
    text::lemma_decimal_reads_back(n as nat);
}

/// A script replies, chooses one of its backends, or lets the route do its deed; a backend that it does not
/// have is a failure.
pub proof fn law_scripts_decide(s: Scene, g: Gate, name: String, status: u16, body: String)
    ensures
        decided(s, g, Decision::Pass) == finished(s, g.action@),
        decided(s, g, Decision::Reply(status, body)) == (Goal::Reply {
            status,
            body: body@,
            location: None,
        }),
        g.backends@.dom().contains(name@) ==> decided(s, g, Decision::Proxy(name)) == (Goal::Backend {
            key: g.backends@[name@],
            uri: None,
            scripted: true,
        }),
        !g.backends@.dom().contains(name@) ==> decided(s, g, Decision::Proxy(name)) == Goal::Fail(500),
{
}

/// The fields that an authorization vouches for are taken from the client, and those that it sets are as it
/// set them.
pub proof fn law_clients_do_not_vouch_for_themselves(s: Scene, names: Seq<Seq<char>>, i: int)
    requires
        0 <= i < names.len(),
    ensures
        cleared(s, names).request.header(names[i]) is None,
        crate::script::standing(cleared(s, names).edits.headers, names[i]) == Some(None::<Seq<char>>),
        cleared(s, names).scheme == s.scheme,
        cleared(s, names).request.path == s.request.path,
    decreases names.len(),
{
    let l = names.drop_last();
    let t = cleared(s, l);
    crate::script::law_later_edits_stand(t.edits.headers, names.last(), None, names[i]);
    if i < l.len() {
        assert(l[i] == names[i]);
        law_clients_do_not_vouch_for_themselves(s, l, i);
    } else {
        lemma_cleared_keeps(s, l);
    }
}

proof fn lemma_cleared_keeps(s: Scene, names: Seq<Seq<char>>)
    ensures
        cleared(s, names).scheme == s.scheme,
        cleared(s, names).request.path == s.request.path,
    decreases names.len(),
{
    if names.len() > 0 {
        lemma_cleared_keeps(s, names.drop_last());
    }
}

/// The last field that an authorization sets of a name is the one that goes on.
pub proof fn law_vouched_fields_go_on(s: Scene, fields: Seq<(Seq<char>, Seq<char>)>)
    requires
        fields.len() > 0,
    ensures
        vouched(s, fields).request.header(fields.last().0) == Some(fields.last().1),
        crate::script::standing(vouched(s, fields).edits.headers, fields.last().0) == Some(
            Some(fields.last().1),
        ),
{
    let t = vouched(s, fields.drop_last());
    crate::script::law_later_edits_stand(
        t.edits.headers,
        fields.last().0,
        Some(fields.last().1),
        fields.last().0,
    );
}

/// A refusal is told with the status of its stage.
pub proof fn law_refusals_have_their_status(s: Scene, g: Gate, fields: Seq<header::Field>, status: u16)
    ensures
        advanced(s, g, fields, Stage::Certificate, Event::Denied(status)).1 == Goal::Fail(403),
        advanced(s, g, fields, Stage::Token, Event::Denied(status)).1 == Goal::Fail(401),
        advanced(s, g, fields, Stage::PluginPermit, Event::Denied(status)).1 == Goal::Fail(503),
        advanced(s, g, fields, Stage::Script, Event::Denied(status)).1 == Goal::Fail(500),
        advanced(s, g, fields, Stage::TenantRate, Event::Denied(status)).1 == Goal::Fail(status),
        advanced(s, g, fields, Stage::Traffic, Event::Denied(status)).1 == Goal::Fail(status),
        advanced(s, g, fields, Stage::External, Event::Denied(status)).1 == Goal::Fail(status),
{
}

/// A time is rounded up to the next whole second.
pub proof fn law_times_are_rounded_up(milliseconds: u64)
    ensures
        whole_seconds(milliseconds) is None <==> milliseconds == 0,
        milliseconds > 0 ==> {
            let s = whole_seconds(milliseconds)->0;
            (s - 1) * 1000 < milliseconds <= s * 1000
        },
{
}

} // verus!

//! What would go to a backend, told without sending anything.
use crate::model::{copy_opt, Action, Deed, Matcher, PathMatch};
use crate::proxy::planning::{expanded, outbound, outbound_uri, Scene, Variables};
use crate::proxy::request::{elements, hop_fields, list_elements};
use crate::proxy::upstream::{takes_trailers, wants_socket};
use crate::script::{field_edits, Edits, Request, RequestData};
use crate::table::Table;
use crate::text;
use crate::uri::{parse_uri, read_uri};
use vstd::prelude::*;

verus! {

/// Where copies of requests go.
#[derive(Debug)]
pub struct MirrorRule {
    pub service: String,
    pub max_body_bytes: usize,
    pub percent: u8,
}

/// What a `MirrorRule` holds.
#[verifier::ext_equal]
pub ghost struct Copies {
    pub service: Seq<char>,
    pub max_body_bytes: usize,
    pub percent: u8,
}

impl View for MirrorRule {
    type V = Copies;

    open spec fn view(&self) -> Copies {
        Copies {
            service: self.service@,
            max_body_bytes: self.max_body_bytes,
            percent: self.percent,
        }
    }
}

/// A request that a route took, and what the route makes of it.
pub struct Preview<'a> {
    pub request: &'a RequestData,
    pub edits: &'a Edits,
    pub original_uri: &'a str,
    pub original_peer: &'a str,
    pub scheme: &'a str,
    /// The name of the server that takes requests without a host, at the listener.
    pub server_name: &'a str,
    pub action: &'a Action,
    pub matcher: &'a PathMatch,
    pub root: &'a str,
    pub request_headers: &'a Vec<(String, String)>,
    /// The backend that a script chose.
    pub chosen: &'a Option<String>,
    /// The backend that the route's rollout makes of the choice, where the route has a rollout.
    pub rollout: &'a Option<String>,
    /// The host that each backend is asked for.
    pub backends: &'a Table,
    pub mirror: &'a Option<MirrorRule>,
    pub body_len: usize,
    pub sample: u64,
}

/// What a `Preview` holds.
#[verifier::ext_equal]
pub ghost struct Prospect {
    pub scene: Scene,
    pub action: Deed,
    pub matcher: Matcher,
    pub root: Seq<char>,
    pub request_headers: Seq<(Seq<char>, Seq<char>)>,
    pub chosen: Option<Seq<char>>,
    pub rollout: Option<Seq<char>>,
    pub backends: Map<Seq<char>, Seq<char>>,
    pub mirror: Option<Copies>,
    pub body_len: usize,
    pub sample: u64,
}

pub open spec fn copies(m: Option<MirrorRule>) -> Option<Copies> {
    match m {
        Some(m) => Some(m@),
        None => None,
    }
}

impl<'a> View for Preview<'a> {
    type V = Prospect;

    open spec fn view(&self) -> Prospect {
        Prospect {
            scene: Scene {
                request: self.request@,
                edits: self.edits@,
                original_uri: self.original_uri@,
                original_peer: self.original_peer@,
                scheme: self.scheme@,
                server_name: self.server_name@,
            },
            action: self.action@,
            matcher: self.matcher@,
            root: self.root@,
            request_headers: text::pairs(self.request_headers@),
            chosen: text::opt(*self.chosen),
            rollout: text::opt(*self.rollout),
            backends: self.backends@,
            mirror: copies(*self.mirror),
            body_len: self.body_len,
            sample: self.sample,
        }
    }
}

/// Why a request is copied or not.
#[derive(Clone, Copy, Debug, PartialEq, Eq, Structural)]
pub enum Reason {
    StreamingProtocol,
    BodyTooLong,
    Sampling,
}

impl Reason {
    pub open spec fn spec_text(self) -> Seq<char> {
        match self {
            Reason::StreamingProtocol => "streaming protocol"@,
            Reason::BodyTooLong => "body exceeds mirror cap"@,
            Reason::Sampling => "sampling"@,
        }
    }

    pub fn text(&self) -> (r: &'static str)
        ensures
            r@ == self.spec_text(),
    {
        match self {
            Reason::StreamingProtocol => "streaming protocol",
            Reason::BodyTooLong => "body exceeds mirror cap",
            Reason::Sampling => "sampling",
        }
    }
}

/// Whether a request would be copied.
#[derive(Debug)]
pub struct Mirroring {
    pub backend: String,
    pub eligible: bool,
    pub selected: bool,
    pub percent: u8,
    pub reason: Reason,
}

/// What a `Mirroring` holds.
#[verifier::ext_equal]
pub ghost struct MirrorPlan {
    pub backend: Seq<char>,
    pub eligible: bool,
    pub selected: bool,
    pub percent: u8,
    pub reason: Reason,
}

impl View for Mirroring {
    type V = MirrorPlan;

    open spec fn view(&self) -> MirrorPlan {
        MirrorPlan {
            backend: self.backend@,
            eligible: self.eligible,
            selected: self.selected,
            percent: self.percent,
            reason: self.reason,
        }
    }
}

pub open spec fn mirror_plan(m: Option<Mirroring>) -> Option<MirrorPlan> {
    match m {
        Some(m) => Some(m@),
        None => None,
    }
}

/// What would be done for a request.
#[derive(Debug)]
pub enum Outbound {
    Return { status: u16, value: String },
    Static { root: String, path: String },
    Unavailable,
    Proxy { backend: String, uri: String, headers: Table, mirror: Option<Mirroring> },
}

/// What an `Outbound` holds.
#[verifier::ext_equal]
pub ghost enum Plan {
    Return { status: u16, value: Seq<char> },
    Static { root: Seq<char>, path: Seq<char> },
    Unavailable,
    Proxy {
        backend: Seq<char>,
        uri: Seq<char>,
        headers: Map<Seq<char>, Seq<char>>,
        mirror: Option<MirrorPlan>,
    },
}

impl View for Outbound {
    type V = Plan;

    open spec fn view(&self) -> Plan {
        match self {
            Outbound::Return { status, value } => Plan::Return { status: *status, value: value@ },
            Outbound::Static { root, path } => Plan::Static { root: root@, path: path@ },
            Outbound::Unavailable => Plan::Unavailable,
            Outbound::Proxy { backend, uri, headers, mirror } => Plan::Proxy {
                backend: backend@,
                uri: uri@,
                headers: headers@,
                mirror: mirror_plan(*mirror),
            },
        }
    }
}

#[derive(Clone, Copy, Debug, PartialEq, Eq, Structural)]
pub enum PreviewError {
    InvalidUri,
    UnknownBackend,
}

// ---------------------------------------------------------------------------
// The fields
// ---------------------------------------------------------------------------

/// The fields without those of some names.
pub open spec fn without_all(m: Map<Seq<char>, Seq<char>>, names: Seq<Seq<char>>) -> Map<
    Seq<char>,
    Seq<char>,
>
    decreases names.len(),
{
    if names.len() == 0 {
        m
    } else {
        without_all(m, names.drop_last()).remove(names.last())
    }
}

fn remove_all(t: &mut Table, names: &Vec<String>)
    requires
        old(t).wf(),
    ensures
        final(t).wf(),
        final(t)@ == without_all(old(t)@, text::texts(names@)),
{
    let ghost all = text::texts(names@);
    let mut i: usize = 0;
    while i < names.len()
        invariant
            i <= names.len(),
            t.wf(),
            all == text::texts(names@),
            t@ == without_all(old(t)@, all.take(i as int)),
        decreases names.len() - i,
    {
        assert(all.take(i + 1).drop_last() =~= all.take(i as int));
        t.remove(names[i].as_str());
        i += 1;
    }
    assert(all.take(i as int) =~= all);
}

/// The fields that go further than the connection.
pub open spec fn stripped(m: Map<Seq<char>, Seq<char>>) -> Map<Seq<char>, Seq<char>> {
    let named = if m.dom().contains("connection"@) {
        without_all(m, elements(m["connection"@]))
    } else {
        m
    };
    without_all(named, hop_fields())
}

fn strip(t: &mut Table)
    requires
        old(t).wf(),
    ensures
        final(t).wf(),
        final(t)@ == stripped(old(t)@),
{
    let named = match t.get("connection") {
        Some(s) => Some(list_elements(s)),
        None => None,
    };
    if let Some(names) = &named {
        remove_all(t, names);
    }
    let mut fixed: Vec<String> = Vec::new();
    fixed.push("connection".to_owned());
    fixed.push("keep-alive".to_owned());
    fixed.push("proxy-connection".to_owned());
    fixed.push("proxy-authenticate".to_owned());
    fixed.push("proxy-authorization".to_owned());
    fixed.push("upgrade".to_owned());
    fixed.push("te".to_owned());
    fixed.push("trailer".to_owned());
    assert(text::texts(fixed@) =~= hop_fields());
    remove_all(t, &fixed);
}

/// The fields by the rules of the route.
pub open spec fn ruled(
    m: Map<Seq<char>, Seq<char>>,
    s: Scene,
    host: Seq<char>,
    rules: Seq<(Seq<char>, Seq<char>)>,
) -> Map<Seq<char>, Seq<char>>
    decreases rules.len(),
{
    if rules.len() == 0 {
        m
    } else {
        let before = ruled(m, s, host, rules.drop_last());
        let name = text::lowercase(rules.last().0);
        let value = expanded(s, rules.last().1, host, 0);
        if value.len() == 0 {
            before.remove(name)
        } else {
            before.insert(name, value)
        }
    }
}

fn rule(t: &mut Table, v: &Variables, host: &str, rules: &Vec<(String, String)>)
    requires
        old(t).wf(),
        v.request.wf(),
    ensures
        final(t).wf(),
        final(t)@ == ruled(old(t)@, v@, host@, text::pairs(rules@)),
{
    let ghost all = text::pairs(rules@);
    let mut i: usize = 0;
    while i < rules.len()
        invariant
            i <= rules.len(),
            t.wf(),
            v.request.wf(),
            all == text::pairs(rules@),
            t@ == ruled(old(t)@, v@, host@, all.take(i as int)),
        decreases rules.len() - i,
    {
        proof {
            assert(all.take(i + 1).drop_last() =~= all.take(i as int));
            assert(all.take(i + 1).last() == (rules@[i as int].0@, rules@[i as int].1@));
        }
        let value = v.expand(rules[i].1.as_str(), host);
        let name = text::to_lowercase(rules[i].0.as_str());
        if value.as_str().is_empty() {
            t.remove(name.as_str());
        } else {
            t.insert(name, value);
        }
        i += 1;
    }
    assert(all.take(i as int) =~= all);
}

/// The fields as a script asks for them.
pub open spec fn scripted(
    m: Map<Seq<char>, Seq<char>>,
    v: Seq<(Seq<char>, Option<Seq<char>>)>,
) -> Map<Seq<char>, Seq<char>>
    decreases v.len(),
{
    if v.len() == 0 {
        m
    } else {
        let before = scripted(m, v.drop_last());
        match v.last().1 {
            Some(x) => before.insert(v.last().0, x),
            None => before.remove(v.last().0),
        }
    }
}

fn edit(t: &mut Table, v: &Vec<(String, Option<String>)>)
    requires
        old(t).wf(),
    ensures
        final(t).wf(),
        final(t)@ == scripted(old(t)@, field_edits(v@)),
{
    let ghost all = field_edits(v@);
    let mut i: usize = 0;
    while i < v.len()
        invariant
            i <= v.len(),
            t.wf(),
            all == field_edits(v@),
            t@ == scripted(old(t)@, all.take(i as int)),
        decreases v.len() - i,
    {
        assert(all.take(i + 1).drop_last() =~= all.take(i as int));
        match &v[i].1 {
            Some(x) => t.insert(v[i].0.clone(), x.clone()),
            None => t.remove(v[i].0.as_str()),
        }
        i += 1;
    }
    assert(all.take(i as int) =~= all);
}

/// The fields whose values are shown.
pub open spec fn shown(name: Seq<char>) -> bool {
    ||| name == "host"@
    ||| name == "content-type"@
    ||| name == "content-length"@
    ||| name == "x-forwarded-for"@
    ||| name == "x-forwarded-proto"@
    ||| name == "x-real-ip"@
    ||| name == "te"@
    ||| name == "upgrade"@
    ||| name == "connection"@
}

fn shows(name: &str) -> (r: bool)
    ensures
        r == shown(name@),
{
    text::same(name, "host") || text::same(name, "content-type") || text::same(
        name,
        "content-length",
    ) || text::same(name, "x-forwarded-for") || text::same(name, "x-forwarded-proto")
        || text::same(name, "x-real-ip") || text::same(name, "te") || text::same(name, "upgrade")
        || text::same(name, "connection")
}

/// The fields with the values of most hidden.
pub open spec fn redacted(m: Map<Seq<char>, Seq<char>>) -> Map<Seq<char>, Seq<char>> {
    Map::new(
        |k: Seq<char>| m.dom().contains(k),
        |k: Seq<char>|
            if shown(k) {
                m[k]
            } else {
                "[redacted]"@
            },
    )
}

fn redact(t: &Table) -> (r: Table)
    requires
        t.wf(),
    ensures
        r.wf(),
        r@ == redacted(t@),
{
    let mut r = Table::new();
    let ghost all = text::pairs(t.entries@);
    let mut i: usize = 0;
    assert(all.take(0) =~= Seq::empty());
    assert(crate::table::mapping(all.take(0)) == Map::<Seq<char>, Seq<char>>::empty());
    assert(r@ =~= redacted(crate::table::mapping(all.take(0))));
    while i < t.entries.len()
        invariant
            i <= t.entries.len(),
            r.wf(),
            all == text::pairs(t.entries@),
            r@ == redacted(crate::table::mapping(all.take(i as int))),
        decreases t.entries.len() - i,
    {
        let e = &t.entries[i];
        let ghost before = crate::table::mapping(all.take(i as int));
        let value = if shows(e.0.as_str()) {
            e.1.clone()
        } else {
            "[redacted]".to_owned()
        };
        let ghost x = value@;
        r.insert(e.0.clone(), value);
        proof {
            assert(all.take(i + 1).drop_last() =~= all.take(i as int));
            assert(all.take(i + 1).last() == (e.0@, e.1@));
            assert(crate::table::mapping(all.take(i + 1)) == before.insert(e.0@, e.1@));
            assert(redacted(before.insert(e.0@, e.1@)) =~= redacted(before).insert(e.0@, x));
        }
        i += 1;
    }
    assert(all.take(i as int) =~= all);
    r
}

/// The fields that would go to a backend.
pub open spec fn planned_fields(p: Prospect, host: Seq<char>) -> Map<Seq<char>, Seq<char>> {
    let r = p.scene.request;
    let first = stripped(r.headers);
    let second = if takes_trailers(r) {
        first.insert("te"@, "trailers"@)
    } else {
        first
    };
    let third = ruled(second.insert("host"@, host), p.scene, host, p.request_headers);
    let fourth = scripted(third, p.scene.edits.headers);
    redacted(
        if wants_socket(r) {
            fourth.insert("upgrade"@, "websocket"@).insert("connection"@, "upgrade"@)
        } else {
            fourth
        },
    )
}

/// Whether a request opens a stream that is not copied.
pub open spec fn streams(r: Request) -> bool {
    (match r.header("content-type"@) {
        Some(s) => text::starts(s, "application/grpc"@),
        None => false,
    }) || wants_socket(r)
}

pub open spec fn planned_copy(m: Copies, r: Request, body_len: usize, sample: u64) -> MirrorPlan {
    let eligible = !streams(r) && body_len <= m.max_body_bytes;
    MirrorPlan {
        backend: m.service,
        eligible,
        selected: eligible && sample % 100 < m.percent,
        percent: m.percent,
        reason: if streams(r) {
            Reason::StreamingProtocol
        } else if body_len > m.max_body_bytes {
            Reason::BodyTooLong
        } else {
            Reason::Sampling
        },
    }
}

/// The backend that is asked, and the address that the configuration gives it; nothing where the route
/// asks none.
pub open spec fn asked(p: Prospect) -> Option<(Seq<char>, Option<Seq<char>>)> {
    let picked = |b: Seq<char>|
        match p.rollout {
            Some(r) => r,
            None => b,
        };
    match p.chosen {
        Some(b) => Some((picked(b), None)),
        None => match p.action {
            Deed::Proxy { backend, uri } => Some((picked(backend), uri)),
            _ => None,
        },
    }
}

/// What would be done for a request.
pub open spec fn planned(p: Prospect) -> Result<Plan, PreviewError> {
    match asked(p) {
        None => match p.action {
            Deed::Return { status, text } => Ok(
                Plan::Return { status, value: expanded(p.scene, text, Seq::empty(), 0) },
            ),
            Deed::Static => Ok(Plan::Static { root: p.root, path: p.scene.request.path }),
            _ => Ok(Plan::Unavailable),
        },
        Some((backend, uri)) => {
            let target = outbound(
                p.scene.original_uri,
                p.scene.request,
                p.scene.edits,
                p.matcher,
                uri,
            );
            if read_uri(target) is None {
                Err(PreviewError::InvalidUri)
            } else if !p.backends.dom().contains(backend) {
                Err(PreviewError::UnknownBackend)
            } else {
                Ok(
                    Plan::Proxy {
                        backend,
                        uri: target,
                        headers: planned_fields(p, p.backends[backend]),
                        mirror: match p.mirror {
                            Some(m) => Some(
                                planned_copy(m, p.scene.request, p.body_len, p.sample),
                            ),
                            None => None,
                        },
                    },
                )
            }
        },
    }
}

pub open spec fn plan_of(r: Result<Outbound, PreviewError>) -> Result<Plan, PreviewError> {
    match r {
        Ok(o) => Ok(o@),
        Err(e) => Err(e),
    }
}

impl<'a> Preview<'a> {
    pub open spec fn wf(&self) -> bool {
        self.request.wf() && self.backends.wf()
    }

    fn variables(&self) -> (v: Variables<'a>)
        requires
            self.wf(),
        ensures
            v.request.wf(),
            v@ == self@.scene,
    {
        Variables {
            request: self.request,
            edits: self.edits,
            original_uri: self.original_uri,
            original_peer: self.original_peer,
            scheme: self.scheme,
            server_name: self.server_name,
        }
    }

    fn fields(&self, host: &str) -> (t: Table)
        requires
            self.wf(),
        ensures
            t.wf(),
            t@ == planned_fields(self@, host@),
    {
        let mut t = self.request.headers.copy();
        strip(&mut t);
        let trailers = match self.request.header("te") {
            None => false,
            Some(s) => {
                let v = list_elements(s);
                text::contains(&v, "trailers")
            },
        };
        if trailers {
            t.insert("te".to_owned(), "trailers".to_owned());
        }
        t.insert("host".to_owned(), host.to_owned());
        let v = self.variables();
        rule(&mut t, &v, host, self.request_headers);
        edit(&mut t, &self.edits.headers);
        if self.socket() {
            t.insert("upgrade".to_owned(), "websocket".to_owned());
            t.insert("connection".to_owned(), "upgrade".to_owned());
        }
        redact(&t)
    }

    fn socket(&self) -> (r: bool)
        requires
            self.wf(),
        ensures
            r == wants_socket(self@.scene.request),
    {
        match self.request.header("upgrade") {
            None => false,
            Some(s) => text::same(text::to_lowercase(s).as_str(), "websocket"),
        }
    }

    fn copying(&self, m: &MirrorRule) -> (r: Mirroring)
        requires
            self.wf(),
        ensures
            r@ == planned_copy(m@, self@.scene.request, self.body_len, self.sample),
    {
        let grpc = match self.request.header("content-type") {
            Some(s) => text::starts_with(s, "application/grpc"),
            None => false,
        };
        let protocol = grpc || self.socket();
        let eligible = !protocol && self.body_len <= m.max_body_bytes;
        Mirroring {
            backend: m.service.clone(),
            eligible,
            selected: eligible && self.sample % 100 < m.percent as u64,
            percent: m.percent,
            reason: if protocol {
                Reason::StreamingProtocol
            } else if self.body_len > m.max_body_bytes {
                Reason::BodyTooLong
            } else {
                Reason::Sampling
            },
        }
    }

    /// The backend that is asked, and the address that the configuration gives it.
    fn backend(&self) -> (r: Option<(String, Option<String>)>)
        ensures
            match r {
                Some((b, u)) => asked(self@) == Some((b@, text::opt(u))),
                None => asked(self@) is None,
            },
    {
        match self.chosen {
            Some(b) => Some(
                (
                    match self.rollout {
                        Some(r) => r.clone(),
                        None => b.clone(),
                    },
                    None,
                ),
            ),
            None => match self.action {
                Action::Proxy { backend, uri } => Some(
                    (
                        match self.rollout {
                            Some(r) => r.clone(),
                            None => backend.clone(),
                        },
                        copy_opt(uri),
                    ),
                ),
                _ => None,
            },
        }
    }

    /// What would be done for the request.
    pub fn finish(&self) -> (r: Result<Outbound, PreviewError>)
        requires
            self.wf(),
        ensures
            plan_of(r) == planned(self@),
    {
        match self.backend() {
            None => match self.action {
                Action::Return { status, text } => {
                    let v = self.variables();
                    let value = v.expand(text.as_str(), "");
                    proof {
                        reveal_strlit("");
                        assert(""@ =~= Seq::<char>::empty());
                    }
                    Ok(Outbound::Return { status: *status, value })
                },
                Action::Static => Ok(
                    Outbound::Static {
                        root: self.root.to_owned(),
                        path: self.request.path.clone(),
                    },
                ),
                _ => Ok(Outbound::Unavailable),
            },
            Some((backend, uri)) => {
                let target = outbound_uri(
                    self.original_uri,
                    self.request,
                    self.edits,
                    self.matcher,
                    &uri,
                );
                if parse_uri(target.as_str()).is_none() {
                    return Err(PreviewError::InvalidUri);
                }
                match self.backends.get(backend.as_str()) {
                    None => Err(PreviewError::UnknownBackend),
                    Some(host) => {
                        let headers = self.fields(host);
                        let mirror = match self.mirror {
                            Some(m) => Some(self.copying(m)),
                            None => None,
                        };
                        Ok(Outbound::Proxy { backend, uri: target, headers, mirror })
                    },
                }
            },
        }
    }
}

// ---------------------------------------------------------------------------
// Laws
// ---------------------------------------------------------------------------

/// No value of a field that is not shown comes out of a preview.
pub proof fn law_previews_hide_values(p: Prospect, name: Seq<char>)
    requires
        planned(p) matches Ok(Plan::Proxy { headers, .. }) && headers.dom().contains(name),
        !shown(name),
    ensures
        planned(p)->Ok_0->headers[name] == "[redacted]"@,
{
}

/// A request that is no stream and whose body fits is copied by its place in the sample alone.
pub proof fn law_copies_go_by_the_sample(m: Copies, r: Request, body_len: usize, sample: u64)
    requires
        !streams(r),
        body_len <= m.max_body_bytes,
    ensures
        planned_copy(m, r, body_len, sample).selected == (sample % 100 < m.percent),
        planned_copy(m, r, body_len, sample).reason == Reason::Sampling,
{
}

/// The fields of the connection are taken out, those that `connection` names among them; every other field
/// keeps its value.
pub proof fn law_connection_fields_are_taken_out(m: Map<Seq<char>, Seq<char>>, name: Seq<char>)
    ensures
        stripped(m).dom().contains(name) <==> m.dom().contains(name) && !hop_fields().contains(name) && !(m.dom().contains(
            "connection"@,
        ) && elements(m["connection"@]).contains(name)),
        stripped(m).dom().contains(name) ==> stripped(m)[name] == m[name],
        !stripped(m).dom().contains("connection"@),
        !stripped(m).dom().contains("upgrade"@),
        !stripped(m).dom().contains("te"@),
        !stripped(m).dom().contains("proxy-authorization"@),
{
    let named = if m.dom().contains("connection"@) {
        without_all(m, elements(m["connection"@]))
    } else {
        m
    };
    if m.dom().contains("connection"@) {
        lemma_without_all(m, elements(m["connection"@]), name);
    }
    lemma_without_all(named, hop_fields(), name);
    let h = hop_fields();
    lemma_without_all(named, h, "connection"@);
    lemma_without_all(named, h, "upgrade"@);
    lemma_without_all(named, h, "te"@);
    lemma_without_all(named, h, "proxy-authorization"@);
    assert(h[0] == "connection"@ && h[5] == "upgrade"@ && h[6] == "te"@ && h[4] == "proxy-authorization"@);
}

proof fn lemma_without_all(m: Map<Seq<char>, Seq<char>>, names: Seq<Seq<char>>, name: Seq<char>)
    ensures
        without_all(m, names).dom().contains(name) <==> m.dom().contains(name) && !names.contains(name),
        without_all(m, names).dom().contains(name) ==> without_all(m, names)[name] == m[name],
    decreases names.len(),
{
    if names.len() > 0 {
        let u = names.drop_last();
        lemma_without_all(m, u, name);
        assert(names[names.len() - 1] == names.last());
        if names.contains(name) && names.last() != name {
            let k = choose|k: int| 0 <= k < names.len() && names[k] == name;
            assert(u[k] == name);
        }
        if u.contains(name) {
            let k = choose|k: int| 0 <= k < u.len() && u[k] == name;
            assert(names[k] == name);
        }
    }
}

/// The last edit of a field by a script is the one that stands.
pub proof fn law_last_edits_stand(
    m: Map<Seq<char>, Seq<char>>,
    v: Seq<(Seq<char>, Option<Seq<char>>)>,
    name: Seq<char>,
    value: Option<Seq<char>>,
    other: Seq<char>,
)
    requires
        other != name,
    ensures
        value is Some ==> scripted(m, v.push((name, value))).dom().contains(name) && scripted(m, v.push((name, value)))[name]
            == value->0,
        value is None ==> !scripted(m, v.push((name, value))).dom().contains(name),
        scripted(m, v.push((name, value))).dom().contains(other) <==> scripted(m, v).dom().contains(other),
        scripted(m, v).dom().contains(other) ==> scripted(m, v.push((name, value)))[other] == scripted(m, v)[other],
        scripted(m, Seq::empty()) == m,
{
    assert(v.push((name, value)).drop_last() =~= v);
}

/// A rule on a field sets it to what its value stands for, and takes it out where that is nothing.
pub proof fn law_rules_set_fields(
    m: Map<Seq<char>, Seq<char>>,
    s: Scene,
    host: Seq<char>,
    rules: Seq<(Seq<char>, Seq<char>)>,
    name: Seq<char>,
    value: Seq<char>,
)
    ensures
        expanded(s, value, host, 0).len() == 0 ==> !ruled(m, s, host, rules.push((name, value))).dom().contains(
            text::lowercase(name),
        ),
        expanded(s, value, host, 0).len() > 0 ==> ruled(m, s, host, rules.push((name, value))).dom().contains(
            text::lowercase(name),
        ) && ruled(m, s, host, rules.push((name, value)))[text::lowercase(name)] == expanded(s, value, host, 0),
        ruled(m, s, host, Seq::empty()) == m,
{
    assert(rules.push((name, value)).drop_last() =~= rules);
}

/// Only the fields that tell nothing of a client are shown; all others are there without their value.
pub proof fn law_only_plain_fields_are_shown(m: Map<Seq<char>, Seq<char>>, name: Seq<char>)
    ensures
        redacted(m).dom().contains(name) <==> m.dom().contains(name),
        m.dom().contains(name) && (name == "host"@ || name == "content-type"@ || name == "content-length"@ || name
            == "x-forwarded-for"@ || name == "x-forwarded-proto"@ || name == "x-real-ip"@ || name == "te"@ || name
            == "upgrade"@ || name == "connection"@) ==> redacted(m)[name] == m[name],
        m.dom().contains(name) && (name == "authorization"@ || name == "cookie"@) ==> redacted(m)[name]
            == "[redacted]"@,
{
    if name == "authorization"@ {
        reveal_strlit("authorization");
        reveal_strlit("host");
        assert("authorization"@.len() != "host"@.len());
        reveal_strlit("content-type");
        assert("authorization"@.len() != "content-type"@.len());
        reveal_strlit("content-length");
        assert("authorization"@.len() != "content-length"@.len());
        reveal_strlit("x-forwarded-for");
        assert("authorization"@.len() != "x-forwarded-for"@.len());
        reveal_strlit("x-forwarded-proto");
        assert("authorization"@.len() != "x-forwarded-proto"@.len());
        reveal_strlit("x-real-ip");
        assert("authorization"@.len() != "x-real-ip"@.len());
        reveal_strlit("te");
        assert("authorization"@.len() != "te"@.len());
        reveal_strlit("upgrade");
        assert("authorization"@.len() != "upgrade"@.len());
        reveal_strlit("connection");
        assert("authorization"@.len() != "connection"@.len());
    }
    if name == "cookie"@ {
        reveal_strlit("cookie");
        reveal_strlit("host");
        assert("cookie"@.len() != "host"@.len());
        reveal_strlit("content-type");
        assert("cookie"@.len() != "content-type"@.len());
        reveal_strlit("content-length");
        assert("cookie"@.len() != "content-length"@.len());
        reveal_strlit("x-forwarded-for");
        assert("cookie"@.len() != "x-forwarded-for"@.len());
        reveal_strlit("x-forwarded-proto");
        assert("cookie"@.len() != "x-forwarded-proto"@.len());
        reveal_strlit("x-real-ip");
        assert("cookie"@.len() != "x-real-ip"@.len());
        reveal_strlit("te");
        assert("cookie"@.len() != "te"@.len());
        reveal_strlit("upgrade");
        assert("cookie"@.len() != "upgrade"@.len());
        reveal_strlit("connection");
        assert("cookie"@.len() != "connection"@.len());
    }
}

/// No copy is made of a stream or of a body that is too long, and the reason tells which.
pub proof fn law_copies_are_refused_with_a_reason(m: Copies, r: Request, body_len: usize, sample: u64)
    ensures
        planned_copy(m, r, body_len, sample).selected ==> planned_copy(m, r, body_len, sample).eligible,
        streams(r) ==> !planned_copy(m, r, body_len, sample).eligible && planned_copy(m, r, body_len, sample).reason
            == Reason::StreamingProtocol,
        !streams(r) && body_len > m.max_body_bytes ==> !planned_copy(m, r, body_len, sample).eligible && planned_copy(
            m,
            r,
            body_len,
            sample,
        ).reason == Reason::BodyTooLong,
        !streams(r) && body_len <= m.max_body_bytes ==> planned_copy(m, r, body_len, sample).eligible,
        planned_copy(m, r, body_len, sample).backend == m.service,
        m.percent == 0 ==> !planned_copy(m, r, body_len, sample).selected,
        m.percent == 100 && planned_copy(m, r, body_len, sample).eligible ==> planned_copy(
            m,
            r,
            body_len,
            sample,
        ).selected,
{
}

/// What a script chose goes before what the route says, and the rollout before both; without a backend
/// nothing is sent.
pub proof fn law_backends_are_chosen_in_order(p: Prospect, chosen: Seq<char>, of: Seq<char>, uri: Option<Seq<char>>)
    ensures
        p.rollout is Some && p.chosen is Some ==> asked(p) == Some((p.rollout->0, None::<Seq<char>>)),
        p.rollout is None && p.chosen == Some(chosen) ==> asked(p) == Some((chosen, None::<Seq<char>>)),
        p.rollout is None && p.chosen is None && p.action == (Deed::Proxy { backend: of, uri }) ==> asked(p) == Some(
            (of, uri),
        ),
        p.rollout is Some && p.chosen is None && p.action == (Deed::Proxy { backend: of, uri }) ==> asked(p) == Some(
            (p.rollout->0, uri),
        ),
        p.chosen is None && p.action is Static ==> planned(p) == Ok::<Plan, PreviewError>(
            Plan::Static { root: p.root, path: p.scene.request.path },
        ),
        planned(p) is Ok && planned(p)->Ok_0 is Proxy ==> asked(p) is Some && planned(p)->Ok_0->backend == (asked(p)->0).0
            && p.backends.dom().contains((asked(p)->0).0),
        asked(p) is Some && !p.backends.dom().contains((asked(p)->0).0) ==> planned(p) is Err,
{
}

} // verus!

//! Requests that are played through the rules of a route without going anywhere.
use crate::body::MAX_INSPECT_BYTES;
use crate::config::load::Listener;
use crate::header;
use crate::identity::IdentityPolicy;
use crate::net;
use crate::net::{ip_text, parsed_ip, Ip, Socket};
use crate::proxy::paths::{normal_path, normalized_path, PathError};
use crate::proxy::request::{is_v6, secure_address, https_redirect};
use crate::script::{Request, RequestData};
use crate::table::Table;
use crate::text;
use crate::uri::uri_target;
use vstd::prelude::*;
use vstd::utf8::encode_utf8;

verus! {

/// The longest address of a request that is played through, in bytes.
pub const MAX_ADDRESS: usize = 8192;

/// How often a request can be played through at once.
pub const MAX_REPEAT: usize = 1000;

/// The answer that an authentication service is taken to give.
#[derive(Debug)]
pub struct AuthFixture {
    pub status: u16,
    pub headers: Vec<(String, String)>,
}

/// A request to play through.
#[derive(Debug)]
pub struct Simulation {
    pub listener: Option<Socket>,
    pub method: String,
    pub host: String,
    pub path: String,
    pub headers: Vec<(String, String)>,
    pub client: String,
    pub body: String,
    pub client_certificate: Option<String>,
    pub external_auth: Option<AuthFixture>,
    pub repeat: usize,
    pub hold_permits: bool,
}

/// What a `Simulation` holds.
#[verifier::ext_equal]
pub ghost struct Fixture {
    pub listener: Option<Socket>,
    pub method: Seq<char>,
    pub host: Seq<char>,
    pub path: Seq<char>,
    pub headers: Seq<(Seq<char>, Seq<char>)>,
    pub client: Seq<char>,
    pub body: Seq<char>,
    pub client_certificate: Option<Seq<char>>,
    pub external_auth: Option<(u16, Seq<(Seq<char>, Seq<char>)>)>,
    pub repeat: usize,
    pub hold_permits: bool,
}

pub open spec fn fixture_view(v: Option<AuthFixture>) -> Option<
    (u16, Seq<(Seq<char>, Seq<char>)>),
> {
    match v {
        Some(f) => Some((f.status, text::pairs(f.headers@))),
        None => None,
    }
}

impl View for Simulation {
    type V = Fixture;

    open spec fn view(&self) -> Fixture {
        Fixture {
            listener: self.listener,
            method: self.method@,
            host: self.host@,
            path: self.path@,
            headers: text::pairs(self.headers@),
            client: self.client@,
            body: self.body@,
            client_certificate: text::opt(self.client_certificate),
            external_auth: fixture_view(self.external_auth),
            repeat: self.repeat,
            hold_permits: self.hold_permits,
        }
    }
}

#[derive(Clone, Copy, Debug, PartialEq, Eq, Structural)]
pub enum SimulationError {
    Limits,
    MissingListener,
    InvalidMethod,
    InvalidName,
    InvalidValue,
    InvalidPath(PathError),
    InvalidClient,
    NotText,
    InvalidCertificate,
}

/// The method of a request that names none.
pub fn default_method() -> (s: String)
    ensures
        s@ == "GET"@,
{
    "GET".to_owned()
}

/// The client of a request that names none.
pub fn default_client() -> (s: String)
    ensures
        s@ == "127.0.0.1"@,
{
    "127.0.0.1".to_owned()
}

// ---------------------------------------------------------------------------
// The request
// ---------------------------------------------------------------------------

/// The fields of a request; of two whose names differ in case only the later counts.
pub open spec fn fields_of(v: Seq<(Seq<char>, Seq<char>)>) -> Result<
    Map<Seq<char>, Seq<char>>,
    SimulationError,
>
    decreases v.len(),
{
    if v.len() == 0 {
        Ok(Map::empty())
    } else {
        match fields_of(v.drop_last()) {
            Err(e) => Err(e),
            Ok(m) => if !header::valid_name(v.last().0) {
                Err(SimulationError::InvalidName)
            } else if !header::valid_value(v.last().1) {
                Err(SimulationError::InvalidValue)
            } else {
                Ok(m.insert(text::lowercase(v.last().0), v.last().1))
            },
        }
    }
}

proof fn lemma_fields_error(v: Seq<(Seq<char>, Seq<char>)>, i: int)
    requires
        0 <= i <= v.len(),
        fields_of(v.take(i)) is Err,
    ensures
        fields_of(v) == fields_of(v.take(i)),
    decreases v.len(),
{
    if i < v.len() {
        assert(v.drop_last().take(i) =~= v.take(i));
        lemma_fields_error(v.drop_last(), i);
    } else {
        assert(v.take(i) =~= v);
    }
}

fn read_fields(v: &Vec<(String, String)>) -> (r: Result<Table, SimulationError>)
    ensures
        match r {
            Ok(t) => t.wf() && fields_of(text::pairs(v@)) == Ok::<
                Map<Seq<char>, Seq<char>>,
                SimulationError,
            >(t@),
            Err(e) => fields_of(text::pairs(v@)) == Err::<
                Map<Seq<char>, Seq<char>>,
                SimulationError,
            >(e),
        },
{
    let ghost all = text::pairs(v@);
    let mut t = Table::new();
    let mut i: usize = 0;
    while i < v.len()
        invariant
            i <= v.len(),
            t.wf(),
            all == text::pairs(v@),
            fields_of(all.take(i as int)) == Ok::<Map<Seq<char>, Seq<char>>, SimulationError>(t@),
        decreases v.len() - i,
    {
        proof {
            assert(all.take(i + 1).drop_last() =~= all.take(i as int));
            assert(all.take(i + 1).last() == (v@[i as int].0@, v@[i as int].1@));
        }
        match header::name(v[i].0.as_str()) {
            None => {
                proof {
                    lemma_fields_error(all, i + 1);
                }
                return Err(SimulationError::InvalidName);
            },
            Some(name) => {
                if !header::value_accepted(v[i].1.as_str()) {
                    proof {
                        lemma_fields_error(all, i + 1);
                    }
                    return Err(SimulationError::InvalidValue);
                }
                t.insert(name, v[i].1.clone());
            },
        }
        i += 1;
    }
    assert(all.take(i as int) =~= all);
    Ok(t)
}

/// The fields with the host, where they do not name it themselves.
pub open spec fn with_host(m: Map<Seq<char>, Seq<char>>, host: Seq<char>) -> Result<
    Map<Seq<char>, Seq<char>>,
    SimulationError,
> {
    if m.dom().contains("host"@) || host.len() == 0 {
        Ok(m)
    } else if !header::valid_value(host) {
        Err(SimulationError::InvalidValue)
    } else {
        Ok(m.insert("host"@, host))
    }
}

/// The path and the query of an address.
pub open spec fn split_address(s: Seq<char>) -> (Seq<char>, Seq<char>) {
    match text::split_once_spec(s, '?') {
        Some(p) => p,
        None => (s, Seq::empty()),
    }
}

/// The request by which a route is looked for.
pub open spec fn routed(f: Fixture) -> Result<Request, SimulationError> {
    let (path, query) = split_address(f.path);
    if !header::token(f.method) {
        Err(SimulationError::InvalidMethod)
    } else {
        match fields_of(f.headers) {
            Err(e) => Err(e),
            Ok(m) => match with_host(m, f.host) {
                Err(e) => Err(e),
                Ok(headers) => match normal_path(path) {
                    Err(e) => Err(SimulationError::InvalidPath(e)),
                    Ok(path) => Ok(
                        Request {
                            method: f.method,
                            path,
                            query,
                            host: f.host,
                            remote_addr: f.client,
                            headers,
                            claims: Map::empty(),
                        },
                    ),
                },
            },
        }
    }
}

impl Simulation {
    /// The request by which a route is looked for.
    pub fn routing_request(&self) -> (r: Result<RequestData, SimulationError>)
        ensures
            match r {
                Ok(q) => q.wf() && routed(self@) == Ok::<Request, SimulationError>(q@),
                Err(e) => routed(self@) == Err::<Request, SimulationError>(e),
            },
    {
        let (path, query) = match text::split_once(self.path.as_str(), '?') {
            Some(p) => p,
            None => {
                let q = String::new();
                assert(q@ =~= Seq::<char>::empty());
                (self.path.clone(), q)
            },
        };
        if !header::method_accepted(self.method.as_str()) {
            return Err(SimulationError::InvalidMethod);
        }
        let mut headers = match read_fields(&self.headers) {
            Ok(t) => t,
            Err(e) => return Err(e),
        };
        if headers.get("host").is_none() && !self.host.as_str().is_empty() {
            if !header::value_accepted(self.host.as_str()) {
                return Err(SimulationError::InvalidValue);
            }
            headers.insert("host".to_owned(), self.host.clone());
        }
        match normalized_path(path.as_str()) {
            Err(e) => Err(SimulationError::InvalidPath(e)),
            Ok(path) => Ok(
                RequestData {
                    method: self.method.clone(),
                    path,
                    query,
                    host: self.host.clone(),
                    remote_addr: self.client.clone(),
                    headers,
                    claims: Table::new(),
                },
            ),
        }
    }
}

/// All the values are visible ASCII, spaces and tabs.
pub open spec fn all_text(m: Map<Seq<char>, Seq<char>>) -> bool {
    forall|k: Seq<char>| #[trigger] m.dom().contains(k) ==> text::ascii(m[k])
}

fn is_ascii(s: &str) -> (r: bool)
    ensures
        r == text::ascii(s@),
{
    let v = text::chars(s);
    let mut i: usize = 0;
    while i < v.len()
        invariant
            i <= v.len(),
            v@ == s@,
            forall|j: int| 0 <= j < i ==> '\0' <= (#[trigger] s@[j]) <= '\u{7f}',
        decreases v.len() - i,
    {
        let c = v[i];
        if !('\0' <= c && c <= '\u{7f}') {
            assert(s@[i as int] == c);
            return false;
        }
        i += 1;
    }
    true
}

fn are_text(t: &Table) -> (r: bool)
    requires
        t.wf(),
    ensures
        r == all_text(t@),
{
    let ghost all = text::pairs(t.entries@);
    proof {
        crate::table::lemma_mapping(all);
    }
    let mut i: usize = 0;
    while i < t.entries.len()
        invariant
            i <= t.entries.len(),
            all == text::pairs(t.entries@),
            forall|j: int| 0 <= j < i ==> text::ascii((#[trigger] all[j]).1),
            forall|j: int|
                0 <= j < all.len() ==> t@.dom().contains((#[trigger] all[j]).0) && t@[all[j].0]
                    == all[j].1,
        decreases t.entries.len() - i,
    {
        if !is_ascii(t.entries[i].1.as_str()) {
            proof {
                assert(t@.dom().contains(all[i as int].0));
            }
            return false;
        }
        assert(text::ascii(all[i as int].1));
        i += 1;
    }
    proof {
        assert forall|k: Seq<char>| #[trigger] t@.dom().contains(k) implies text::ascii(t@[k]) by {
            let j = choose|j: int| 0 <= j < all.len() && (#[trigger] all[j]).0 == k;
            assert(text::ascii(all[j].1));
        }
    }
    true
}

/// A request that is ready to be played through.
#[derive(Debug)]
pub struct Ready {
    pub listener: Socket,
    pub request: RequestData,
    pub peer: Ip,
}

/// What a `Ready` holds.
#[verifier::ext_equal]
pub ghost struct Prepared {
    pub listener: Socket,
    pub request: Request,
    pub peer: Ip,
}

impl View for Ready {
    type V = Prepared;

    open spec fn view(&self) -> Prepared {
        Prepared { listener: self.listener, request: self.request@, peer: self.peer }
    }
}

/// The listener at which a request is taken to arrive: the one that it names, or the first.
pub open spec fn listener_of(named: Option<Socket>, listeners: Seq<Listener>) -> Option<Socket> {
    if named is Some {
        named
    } else if listeners.len() > 0 {
        Some(listeners[0].address)
    } else {
        None
    }
}

pub fn pick_listener(named: Option<Socket>, listeners: &Vec<Listener>) -> (r: Option<Socket>)
    ensures
        r == listener_of(named, listeners@),
{
    match named {
        Some(l) => Some(l),
        None => if listeners.len() > 0 {
            Some(listeners[0].address)
        } else {
            None
        },
    }
}

pub open spec fn within_limits(f: Fixture) -> bool {
    text::byte_len(f.path) <= MAX_ADDRESS && text::byte_len(f.body) <= MAX_INSPECT_BYTES && 1
        <= f.repeat <= MAX_REPEAT
}

/// The request that is played through, the listener and the peer.
pub open spec fn prepared(f: Fixture, listeners: Seq<Listener>) -> Result<
    Prepared,
    SimulationError,
> {
    if !within_limits(f) {
        Err(SimulationError::Limits)
    } else {
        match listener_of(f.listener, listeners) {
            None => Err(SimulationError::MissingListener),
            Some(listener) => match routed(f) {
                Err(e) => Err(e),
                Ok(request) => match parsed_ip(f.client) {
                    None => Err(SimulationError::InvalidClient),
                    Some(peer) => if !all_text(request.headers) {
                        Err(SimulationError::NotText)
                    } else {
                        Ok(Prepared { listener, request, peer })
                    },
                },
            },
        }
    }
}

/// The request that is played through, the listener and the peer.
pub fn prepare(input: &Simulation, listeners: &Vec<Listener>) -> (r: Result<Ready, SimulationError>)
    ensures
        match r {
            Ok(q) => q.request.wf() && prepared(input@, listeners@) == Ok::<
                Prepared,
                SimulationError,
            >(q@),
            Err(e) => prepared(input@, listeners@) == Err::<Prepared, SimulationError>(e),
        },
{
    if text::len(input.path.as_str()) > MAX_ADDRESS || text::len(input.body.as_str())
        > MAX_INSPECT_BYTES || input.repeat < 1 || input.repeat > MAX_REPEAT {
        return Err(SimulationError::Limits);
    }
    let listener = match pick_listener(input.listener, listeners) {
        Some(l) => l,
        None => return Err(SimulationError::MissingListener),
    };
    let request = match input.routing_request() {
        Ok(q) => q,
        Err(e) => return Err(e),
    };
    let peer = match net::parse_ip(input.client.as_str()) {
        Some(ip) => ip,
        None => return Err(SimulationError::InvalidClient),
    };
    if !are_text(&request.headers) {
        return Err(SimulationError::NotText);
    }
    Ok(Ready { listener, request, peer })
}

/// The fields of a request with one value each.
pub open spec fn single_fields(
    v: Seq<header::Field>,
    m: Map<Seq<char>, Seq<char>>,
) -> bool {
    forall|name: Seq<char>| #[trigger]
        header::values(v, name) == if m.dom().contains(name) {
            seq![encode_utf8(m[name])]
        } else {
            Seq::empty()
        }
}

/// The fields of a request as they would arrive.
pub fn arriving(t: &Table) -> (h: header::Headers)
    requires
        t.wf(),
    ensures
        single_fields(h.fields@, t@),
{
    let ghost all = text::pairs(t.entries@);
    proof {
        crate::table::lemma_mapping(all);
    }
    let mut fields: Vec<header::Field> = Vec::new();
    let mut i: usize = 0;
    assert(all.take(0) =~= Seq::empty());
    assert(single_fields(fields@, crate::table::mapping(all.take(0)))) by {
        assert forall|name: Seq<char>| #[trigger] header::values(fields@, name) == Seq::<
            Seq<u8>,
        >::empty() by {
            assert(fields@ =~= Seq::empty());
        }
    }
    while i < t.entries.len()
        invariant
            i <= t.entries.len(),
            t.wf(),
            all == text::pairs(t.entries@),
            single_fields(fields@, crate::table::mapping(all.take(i as int))),
        decreases t.entries.len() - i,
    {
        let e = &t.entries[i];
        let ghost before = fields@;
        let ghost m = crate::table::mapping(all.take(i as int));
        let f = header::Field { name: e.0.clone(), value: text::bytes(e.1.as_str()) };
        let ghost g = f;
        fields.push(f);
        proof {
            assert(fields@ =~= before.push(g));
            assert(all.take(i + 1).drop_last() =~= all.take(i as int));
            assert(all.take(i + 1).last() == (e.0@, e.1@));
            let n = crate::table::mapping(all.take(i + 1));
            assert(n == m.insert(e.0@, e.1@));
            assert(!m.dom().contains(e.0@)) by {
                let w = all.take(i as int);
                assert(crate::table::distinct(w)) by {
                    assert forall|a: int, b: int| 0 <= a < b < w.len() implies (
                    #[trigger] w[a]).0 != (#[trigger] w[b]).0 by {
                        assert(all[a].0 != all[b].0);
                    }
                }
                crate::table::lemma_mapping(w);
                if m.dom().contains(e.0@) {
                    let j = choose|j: int| 0 <= j < w.len() && (#[trigger] w[j]).0 == e.0@;
                    assert(all[j].0 != all[i as int].0);
                }
            }
            assert forall|name: Seq<char>| #[trigger]
                header::values(fields@, name) == if n.dom().contains(name) {
                    seq![encode_utf8(n[name])]
                } else {
                    Seq::empty()
                } by {
                assert(fields@.drop_last() =~= before);
                assert(header::values(before, name) == if m.dom().contains(name) {
                    seq![encode_utf8(m[name])]
                } else {
                    Seq::<Seq<u8>>::empty()
                });
                if name == e.0@ {
                    assert(Seq::<Seq<u8>>::empty().push(g.value@) =~= seq![encode_utf8(e.1@)]);
                }
            }
        }
        i += 1;
    }
    assert(all.take(i as int) =~= all);
    header::Headers { fields }
}

// ---------------------------------------------------------------------------
// The client
// ---------------------------------------------------------------------------

/// Who asks, and how, by the rules of a route.
#[derive(Debug)]
pub struct Party {
    pub client: Ip,
    pub scheme: &'static str,
    pub allowed: bool,
}

/// Whether a listener is secure.
pub open spec fn is_secure(listeners: Seq<Listener>, address: Socket) -> bool {
    exists|i: int|
        0 <= i < listeners.len() && (#[trigger] listeners[i]).address == address
            && listeners[i].tls
}

pub fn secure(listeners: &Vec<Listener>, address: Socket) -> (r: bool)
    ensures
        r == is_secure(listeners@, address),
{
    let mut i: usize = 0;
    while i < listeners.len()
        invariant
            i <= listeners.len(),
            forall|j: int|
                0 <= j < i ==> !((#[trigger] listeners@[j]).address == address
                    && listeners@[j].tls),
        decreases listeners.len() - i,
    {
        if listeners[i].address == address && listeners[i].tls {
            return true;
        }
        i += 1;
    }
    false
}

/// Who asks, and how; the request carries the client's address from then on.
pub fn identify(ready: &mut Ready, policy: &IdentityPolicy, tls: bool) -> (p: Party)
    requires
        old(ready).request.wf(),
        policy.valid_networks(),
    ensures
        final(ready).request.wf(),
        forall|fields: Seq<header::Field>| #[trigger]
            single_fields(fields, old(ready)@.request.headers) ==> p.client == policy.resolved(
                old(ready).peer,
                fields,
                None,
            ) && p.scheme@ == policy.scheme_of(old(ready).peer, fields, tls),
        p.allowed == crate::identity::allowed_by(policy.access@, p.client),
        final(ready)@ == (Prepared {
            request: Request { remote_addr: ip_text(p.client), ..old(ready)@.request },
            ..old(ready)@
        }),
{
    let headers = arriving(&ready.request.headers);
    let client = policy.resolve(ready.peer, &headers, None);
    let scheme = policy.scheme(ready.peer, &headers, tls);
    proof {
        let m = ready@.request.headers;
        assert forall|fields: Seq<header::Field>| #[trigger] single_fields(fields, m) implies client
            == policy.resolved(ready.peer, fields, None) && scheme@ == policy.scheme_of(
            ready.peer,
            fields,
            tls,
        ) by {
            assert(header::values(fields, policy.header@) == header::values(
                headers.fields@,
                policy.header@,
            ));
            assert(header::values(fields, "x-forwarded-proto"@) == header::values(
                headers.fields@,
                "x-forwarded-proto"@,
            ));
        }
    }
    ready.request.remote_addr = net::ip_string(client);
    Party { client, scheme, allowed: policy.allows(client) }
}

/// Where a client is sent that has to ask securely; nothing where it is not sent away.
pub fn redirect(party: &Party, port: Option<u16>, host: &str, path: &str) -> (r: Option<String>)
    ensures
        match r {
            Some(s) => party.scheme@ != "https"@ && party.allowed && port is Some && s@
                == secure_address(host@, is_v6(parsed_ip(host@)), uri_target(path@), port->0),
            None => party.scheme@ == "https"@ || !party.allowed || port is None,
        },
{
    if !text::same(party.scheme, "https") && party.allowed {
        match port {
            Some(port) => Some(https_redirect(host, path, port)),
            None => None,
        }
    } else {
        None
    }
}

/// A request that is tried has the path, the query, the host and the fields that are given.
pub proof fn law_tried_requests_are_as_given(
    f: Fixture,
    path: Seq<char>,
    query: Seq<char>,
    p: Seq<char>,
)
    requires
        header::token(f.method),
        f.path == path + seq!['?'] + query,
        !path.contains('?'),
        f.headers.len() == 0,
        header::valid_value(f.host),
        f.host.len() > 0,
        normal_path(path) == Ok::<Seq<char>, PathError>(p),
    ensures
        routed(f) matches Ok(r) && r.method == f.method && r.path == p && r.query == query && r.host == f.host
            && r.remote_addr == f.client && r.header("host"@) == Some(f.host),
{
    let s = f.path;
    assert forall|i: int| 0 <= i < path.len() implies s[i] != '?' by {
        assert(path.contains(path[i]));
    }
    text::lemma_position_is(s, '?', path.len() as int);
    assert(s.take(path.len() as int) =~= path);
    assert(s.skip(path.len() as int + 1) =~= query);
}

/// A trial is refused with a path that is too long, a body that is too long, or too many or no rounds; without a
/// listener; and with a client that is no address.
pub proof fn law_trials_have_bounds(f: Fixture, listeners: Seq<Listener>)
    ensures
        text::byte_len(f.path) > 8192 ==> prepared(f, listeners) == Err::<Prepared, SimulationError>(
            SimulationError::Limits,
        ),
        f.repeat == 0 || f.repeat > 1000 ==> prepared(f, listeners) == Err::<Prepared, SimulationError>(
            SimulationError::Limits,
        ),
        text::byte_len(f.body) > 262144 ==> prepared(f, listeners) == Err::<Prepared, SimulationError>(
            SimulationError::Limits,
        ),
        within_limits(f) && f.listener is None && listeners.len() == 0 ==> prepared(f, listeners) == Err::<
            Prepared,
            SimulationError,
        >(SimulationError::MissingListener),
        prepared(f, listeners) matches Ok(r) ==> parsed_ip(f.client) == Some(r.peer) && (f.listener matches Some(l)
            ==> r.listener == l) && (f.listener is None ==> r.listener == listeners[0].address),
{
}

/// A field is put in lower case; one that is none is refused.
pub proof fn law_tried_fields_are_checked(
    v: Seq<(Seq<char>, Seq<char>)>,
    m: Map<Seq<char>, Seq<char>>,
    name: Seq<char>,
    value: Seq<char>,
)
    requires
        fields_of(v) == Ok::<Map<Seq<char>, Seq<char>>, SimulationError>(m),
    ensures
        !header::valid_name(name) ==> fields_of(v.push((name, value))) == Err::<
            Map<Seq<char>, Seq<char>>,
            SimulationError,
        >(SimulationError::InvalidName),
        header::valid_name(name) && !header::valid_value(value) ==> fields_of(v.push((name, value))) == Err::<
            Map<Seq<char>, Seq<char>>,
            SimulationError,
        >(SimulationError::InvalidValue),
        header::valid_name(name) && header::valid_value(value) ==> fields_of(v.push((name, value))) == Ok::<
            Map<Seq<char>, Seq<char>>,
            SimulationError,
        >(m.insert(text::lowercase(name), value)),
{
    assert(v.push((name, value)).drop_last() =~= v);
}

/// A request is secure where the listener that it comes to speaks TLS.
pub proof fn law_secure_listeners_speak_tls(listeners: Seq<Listener>, address: Socket, i: int)
    ensures
        0 <= i < listeners.len() && listeners[i].address == address && listeners[i].tls ==> is_secure(listeners, address),
        (forall|k: int|
            0 <= k < listeners.len() && (#[trigger] listeners[k]).address == address ==> !listeners[k].tls) ==> !is_secure(
            listeners,
            address,
        ),
{
}

} // verus!

//! What a request is: its checks on arrival, the host it is for, and where the client is.
use crate::header;
use crate::header::{raw_values, text_map, visible_text, Headers};
use crate::identity::IdentityPolicy;
use crate::model::{Action, Deed, Matcher, PathMatch};
use crate::net;
use crate::net::{ip_text, parsed_ip, Ip};
use crate::proxy::paths::{normal_path, normalized_path, PathError};
use crate::proxy::planning::Scene;
use crate::script::{Changes, Edits, Request, RequestData};
use crate::table::Table;
use crate::text;
use crate::uri::{authority_host, parse_authority, target, uri_target};
use vstd::prelude::*;

verus! {

// ---------------------------------------------------------------------------
// Fields of the connection
// ---------------------------------------------------------------------------

/// The elements of a list field: its pieces between commas, trimmed and in lower case.
pub open spec fn elements(value: Seq<char>) -> Seq<Seq<char>> {
    let pieces = text::split_spec(value, ',');
    Seq::new(pieces.len(), |i: int| text::lowercase(text::trim_spec(pieces[i])))
}

/// The elements of the fields that are visible text, one after the other.
pub open spec fn all_elements(v: Seq<Seq<u8>>) -> Seq<Seq<char>>
    decreases v.len(),
{
    if v.len() == 0 {
        Seq::empty()
    } else {
        all_elements(v.drop_last()) + match visible_text(v.last()) {
            Some(s) => elements(s),
            None => Seq::empty(),
        }
    }
}

/// The options that a message's `Connection` fields name.
pub open spec fn connection_options(fields: Seq<(Seq<char>, Seq<u8>)>) -> Seq<Seq<char>> {
    all_elements(raw_values(fields, "connection"@))
}

/// The elements of a list field.
pub fn list_elements(value: &str) -> (out: Vec<String>)
    ensures
        text::texts(out@) == elements(value@),
{
    let pieces = text::split(value, ',');
    let mut out: Vec<String> = Vec::new();
    let mut i: usize = 0;
    while i < pieces.len()
        invariant
            i <= pieces.len(),
            text::texts(pieces@) == text::split_spec(value@, ','),
            text::texts(out@) == elements(value@).take(i as int),
        decreases pieces.len() - i,
    {
        let ghost before = text::texts(out@);
        let e = text::to_lowercase(text::trim(pieces[i].as_str()));
        proof {
            assert(text::texts(pieces@)[i as int] == pieces@[i as int]@);
            assert(elements(value@).take(i + 1) =~= elements(value@).take(i as int).push(e@));
        }
        let ghost x = e@;
        out.push(e);
        assert(text::texts(out@) =~= before.push(x));
        i += 1;
    }
    assert(elements(value@).take(i as int) =~= elements(value@));
    out
}

fn append_all(out: &mut Vec<String>, v: Vec<String>)
    ensures
        text::texts(final(out)@) == text::texts(old(out)@) + text::texts(v@),
{
    let mut i: usize = 0;
    let ghost start = text::texts(out@);
    assert(start + text::texts(v@).take(0) =~= start);
    while i < v.len()
        invariant
            i <= v.len(),
            text::texts(out@) == start + text::texts(v@).take(i as int),
        decreases v.len() - i,
    {
        let ghost before = text::texts(out@);
        out.push(v[i].clone());
        proof {
            assert(text::texts(out@) =~= before.push(v@[i as int]@));
            assert(text::texts(v@).take(i + 1) =~= text::texts(v@).take(i as int).push(
                v@[i as int]@,
            ));
            assert(before.push(v@[i as int]@) =~= start + text::texts(v@).take(i + 1));
        }
        i += 1;
    }
    assert(text::texts(v@).take(i as int) =~= text::texts(v@));
}

/// The options that a message's `Connection` fields name.
pub fn read_connection(headers: &Headers) -> (out: Vec<String>)
    ensures
        text::texts(out@) == connection_options(headers.raw()),
{
    let ghost name = "connection"@;
    let fields = headers.all("connection");
    let ghost vals = raw_values(headers.raw(), name);
    proof {
        header::lemma_raw_values(headers.fields@, name);
    }
    let mut out: Vec<String> = Vec::new();
    let mut i: usize = 0;
    assert(text::texts(out@) =~= Seq::empty());
    while i < fields.len()
        invariant
            i <= fields.len(),
            fields@.len() == vals.len(),
            forall|j: int| 0 <= j < fields@.len() ==> (#[trigger] fields@[j])@ == vals[j],
            text::texts(out@) == all_elements(vals.take(i as int)),
        decreases fields.len() - i,
    {
        assert(vals.take(i + 1).drop_last() =~= vals.take(i as int));
        match header::to_text(fields[i]) {
            Some(s) => {
                append_all(&mut out, list_elements(s.as_str()));
            },
            None => {
                assert(text::texts(out@) + Seq::<Seq<char>>::empty() =~= text::texts(out@));
            },
        }
        i += 1;
    }
    assert(vals.take(i as int) =~= vals);
    out
}

/// A field that frames or routes a message.
pub open spec fn framing(name: Seq<char>) -> bool {
    name == "content-length"@ || name == "transfer-encoding"@ || name == "host"@
}

pub open spec fn names_framing(fields: Seq<(Seq<char>, Seq<u8>)>) -> bool {
    exists|i: int|
        0 <= i < connection_options(fields).len() && framing(
            #[trigger] connection_options(fields)[i],
        )
}

/// Whether the `Connection` fields name a field that frames or routes the message.
pub fn connection_names_framing(headers: &Headers) -> (r: bool)
    ensures
        r == names_framing(headers.raw()),
{
    let options = read_connection(headers);
    let ghost all = connection_options(headers.raw());
    let mut i: usize = 0;
    while i < options.len()
        invariant
            i <= options.len(),
            text::texts(options@) == all,
            all == connection_options(headers.raw()),
            forall|j: int| 0 <= j < i ==> !framing(#[trigger] all[j]),
        decreases options.len() - i,
    {
        let o = options[i].as_str();
        assert(all[i as int] == o@);
        if text::same(o, "content-length") || text::same(o, "transfer-encoding") || text::same(
            o,
            "host",
        ) {
            assert(framing(connection_options(headers.raw())[i as int]));
            return true;
        }
        i += 1;
    }
    false
}

pub open spec fn all_removed(v: Seq<(Seq<char>, Seq<u8>)>, names: Seq<Seq<char>>) -> Seq<
    (Seq<char>, Seq<u8>),
>
    decreases names.len(),
{
    if names.len() == 0 {
        v
    } else {
        header::dropped(all_removed(v, names.drop_last()), names.last())
    }
}

/// The fields that belong to one connection and go no further.
pub open spec fn hop_fields() -> Seq<Seq<char>> {
    seq![
        "connection"@,
        "keep-alive"@,
        "proxy-connection"@,
        "proxy-authenticate"@,
        "proxy-authorization"@,
        "upgrade"@,
        "te"@,
        "trailer"@,
    ]
}

/// Removes the fields of the connection: those that `Connection` names, and those that always are.
pub fn strip_hop_headers(headers: &mut Headers)
    ensures
        final(headers).raw() == all_removed(
            all_removed(old(headers).raw(), connection_options(old(headers).raw())),
            hop_fields(),
        ),
{
    let options = read_connection(headers);
    remove_all(headers, &options);
    let mut fixed: Vec<String> = Vec::new();
    fixed.push("connection".to_owned());
    fixed.push("keep-alive".to_owned());
    fixed.push("proxy-connection".to_owned());
    fixed.push("proxy-authenticate".to_owned());
    fixed.push("proxy-authorization".to_owned());
    fixed.push("upgrade".to_owned());
    fixed.push("te".to_owned());
    fixed.push("trailer".to_owned());
    assert(text::texts(fixed@) =~= hop_fields());
    remove_all(headers, &fixed);
}

/// Removes the fields of names that are in lower case.
pub fn remove_all(headers: &mut Headers, names: &Vec<String>)
    ensures
        final(headers).raw() == all_removed(old(headers).raw(), text::texts(names@)),
{
    let ghost start = headers.raw();
    let ghost all = text::texts(names@);
    let mut i: usize = 0;
    while i < names.len()
        invariant
            i <= names.len(),
            all == text::texts(names@),
            headers.raw() == all_removed(start, all.take(i as int)),
        decreases names.len() - i,
    {
        assert(all.take(i + 1).drop_last() =~= all.take(i as int));
        headers.remove(names[i].as_str());
        i += 1;
    }
    assert(all.take(i as int) =~= all);
}

// ---------------------------------------------------------------------------
// The host
// ---------------------------------------------------------------------------

#[derive(Clone, Copy, Debug, PartialEq, Eq, Structural)]
pub enum HostError {
    InvalidAuthority,
    InvalidField,
    NotExactlyOne,
}

/// The host of an authority, in lower case; one with a user is refused.
pub open spec fn authority_checked(value: Seq<char>, host: Option<Seq<char>>) -> Result<
    Seq<char>,
    HostError,
> {
    match host {
        None => Err(HostError::InvalidAuthority),
        Some(h) => if h.len() == 0 || value.contains('@') {
            Err(HostError::InvalidAuthority)
        } else {
            Ok(text::lowercase(h))
        },
    }
}

/// The host of an authority, in lower case; one with a user is refused.
pub fn check_authority(value: &str, host: &Option<String>) -> (r: Result<String, HostError>)
    ensures
        match r {
            Ok(h) => authority_checked(value@, text::opt(*host)) == Ok::<Seq<char>, HostError>(h@),
            Err(e) => authority_checked(value@, text::opt(*host)) == Err::<Seq<char>, HostError>(e),
        },
{
    match host {
        None => Err(HostError::InvalidAuthority),
        Some(h) => if h.as_str().is_empty() || text::has_char(value, '@') {
            Err(HostError::InvalidAuthority)
        } else {
            Ok(text::to_lowercase(h.as_str()))
        },
    }
}

pub open spec fn host_of_authority(value: Seq<char>) -> Result<Seq<char>, HostError> {
    authority_checked(value, authority_host(value))
}

fn read_authority(value: &str) -> (r: Result<String, HostError>)
    ensures
        match r {
            Ok(h) => host_of_authority(value@) == Ok::<Seq<char>, HostError>(h@),
            Err(e) => host_of_authority(value@) == Err::<Seq<char>, HostError>(e),
        },
{
    let host = parse_authority(value);
    check_authority(value, &host)
}

/// The host that the first `Host` field names.
pub open spec fn host_of_fields(v: Seq<Seq<u8>>) -> Result<Option<Seq<char>>, HostError> {
    if v.len() == 0 {
        Ok(None)
    } else {
        match visible_text(v[0]) {
            None => Err(HostError::InvalidField),
            Some(s) => match host_of_authority(s) {
                Err(e) => Err(e),
                Ok(h) => Ok(Some(h)),
            },
        }
    }
}

/// The host that a request is for: that of its target where it has one, else that of its `Host` field,
/// of which HTTP/1.1 wants exactly one and others at most one.
pub open spec fn host_of(
    fields: Seq<(Seq<char>, Seq<u8>)>,
    http11: bool,
    authority: Option<Seq<char>>,
) -> Result<Seq<char>, HostError> {
    let v = raw_values(fields, "host"@);
    match host_of_fields(v) {
        Err(e) => Err(e),
        Ok(host) => if v.len() > 1 || (http11 && host is None) {
            Err(HostError::NotExactlyOne)
        } else {
            match authority {
                Some(a) => host_of_authority(a),
                None => match host {
                    Some(h) => Ok(h),
                    None => Ok(Seq::empty()),
                },
            }
        },
    }
}

/// The host that a request is for.
pub fn request_host(headers: &Headers, http11: bool, authority: &Option<String>) -> (r: Result<
    String,
    HostError,
>)
    ensures
        match r {
            Ok(h) => host_of(headers.raw(), http11, text::opt(*authority)) == Ok::<
                Seq<char>,
                HostError,
            >(h@),
            Err(e) => host_of(headers.raw(), http11, text::opt(*authority)) == Err::<
                Seq<char>,
                HostError,
            >(e),
        },
{
    let fields = headers.all("host");
    proof {
        header::lemma_raw_values(headers.fields@, "host"@);
    }
    let host: Option<String> = if fields.len() == 0 {
        None
    } else {
        match header::to_text(fields[0]) {
            None => return Err(HostError::InvalidField),
            Some(s) => match read_authority(s.as_str()) {
                Err(e) => return Err(e),
                Ok(h) => Some(h),
            },
        }
    };
    if fields.len() > 1 || (http11 && host.is_none()) {
        return Err(HostError::NotExactlyOne);
    }
    match authority {
        Some(a) => read_authority(a.as_str()),
        None => match host {
            Some(h) => Ok(h),
            None => {
                let h = String::new();
                assert(h@ =~= Seq::<char>::empty());
                Ok(h)
            },
        },
    }
}

// ---------------------------------------------------------------------------
// Arrival
// ---------------------------------------------------------------------------

/// A request as it comes in.
#[derive(Debug)]
pub struct Arrival {
    pub method: String,
    /// The path of the target, as it is written.
    pub path: String,
    pub query: Option<String>,
    /// The path and the query of the target, as they are written.
    pub target: Option<String>,
    pub authority: Option<String>,
    pub http11: bool,
    /// The address at the other end of the connection.
    pub peer: String,
    pub headers: Headers,
}

#[derive(Clone, Copy, Debug, PartialEq, Eq, Structural)]
pub enum Refusal {
    FramingNamed,
    Path(PathError),
    Host(HostError),
}

/// What is known of a request on its way through.
#[derive(Debug)]
pub struct Progress {
    pub request: RequestData,
    pub original_uri: String,
    pub original_peer: String,
    pub scheme: String,
    pub server_name: String,
    pub edits: Edits,
}

impl View for Progress {
    type V = Scene;

    open spec fn view(&self) -> Scene {
        Scene {
            request: self.request@,
            edits: self.edits@,
            original_uri: self.original_uri@,
            original_peer: self.original_peer@,
            scheme: self.scheme@,
            server_name: self.server_name@,
        }
    }
}

pub open spec fn or_root(s: Option<Seq<char>>) -> Seq<char> {
    match s {
        Some(s) => s,
        None => "/"@,
    }
}

/// What a request that comes in is; every refusal is answered with status 400.
pub open spec fn received(a: Arrival, tls: bool, server_name: Seq<char>) -> Result<Scene, Refusal> {
    if names_framing(a.headers.raw()) {
        Err(Refusal::FramingNamed)
    } else {
        match normal_path(a.path@) {
            Err(e) => Err(Refusal::Path(e)),
            Ok(path) => match host_of(a.headers.raw(), a.http11, text::opt(a.authority)) {
                Err(e) => Err(Refusal::Host(e)),
                Ok(host) => Ok(
                    Scene {
                        request: Request {
                            method: a.method@,
                            path,
                            query: match a.query {
                                Some(q) => q@,
                                None => Seq::empty(),
                            },
                            host,
                            remote_addr: a.peer@,
                            headers: text_map(a.headers.raw()),
                            claims: Map::empty(),
                        },
                        edits: Changes { path: None, query: None, headers: Seq::empty() },
                        original_uri: or_root(text::opt(a.target)),
                        original_peer: a.peer@,
                        scheme: if tls {
                            "https"@
                        } else {
                            "http"@
                        },
                        server_name: if host.len() == 0 {
                            server_name
                        } else {
                            Seq::empty()
                        },
                    },
                ),
            },
        }
    }
}

/// What a request that comes in is. `server_name` is that of the server which takes requests without a
/// host at the listener.
pub fn receive(arrival: &Arrival, tls: bool, server_name: &str) -> (r: Result<Progress, Refusal>)
    ensures
        match r {
            Ok(p) => p.request.wf() && received(*arrival, tls, server_name@) == Ok::<Scene, Refusal>(
                p@,
            ),
            Err(e) => received(*arrival, tls, server_name@) == Err::<Scene, Refusal>(e),
        },
{
    if connection_names_framing(&arrival.headers) {
        return Err(Refusal::FramingNamed);
    }
    let path = match normalized_path(arrival.path.as_str()) {
        Ok(p) => p,
        Err(e) => return Err(Refusal::Path(e)),
    };
    let host = match request_host(&arrival.headers, arrival.http11, &arrival.authority) {
        Ok(h) => h,
        Err(e) => return Err(Refusal::Host(e)),
    };
    let name = if host.as_str().is_empty() {
        server_name.to_owned()
    } else {
        String::new()
    };
    let query = match &arrival.query {
        Some(q) => q.clone(),
        None => String::new(),
    };
    let p = Progress {
        request: RequestData {
            method: arrival.method.clone(),
            path,
            query,
            host,
            remote_addr: arrival.peer.clone(),
            headers: arrival.headers.text_table(),
            claims: Table::new(),
        },
        original_uri: match &arrival.target {
            Some(t) => t.clone(),
            None => "/".to_owned(),
        },
        original_peer: arrival.peer.clone(),
        scheme: if tls {
            "https".to_owned()
        } else {
            "http".to_owned()
        },
        server_name: name,
        edits: Edits::default(),
    };
    assert(p@ =~= received(*arrival, tls, server_name@)->Ok_0);
    Ok(p)
}

// ---------------------------------------------------------------------------
// The route
// ---------------------------------------------------------------------------

/// The path with `/` at its end, where a route for it might take the place of the one that was found.
pub open spec fn slashed(path: Seq<char>, m: Matcher) -> Option<Seq<char>> {
    if !text::ends(path, "/"@) && !(m is Exact) {
        Some(path.push('/'))
    } else {
        None
    }
}

pub fn slash_path(path: &str, matcher: &PathMatch) -> (r: Option<String>)
    ensures
        text::opt(r) == slashed(path@, matcher@),
{
    if text::ends_with(path, "/") {
        return None;
    }
    match matcher {
        PathMatch::Exact(_) => None,
        _ => {
            let mut p = path.to_owned();
            p.push('/');
            Some(p)
        },
    }
}

/// Whether the client is sent to the path with `/`: there a proxied location begins.
pub open spec fn slash_redirects(slash: Seq<char>, m: Matcher, d: Deed) -> bool {
    m == Matcher::NginxPrefix(slash) && d is Proxy
}

pub fn redirects_to_slash(slash: &str, matcher: &PathMatch, action: &Action) -> (r: bool)
    ensures
        r == slash_redirects(slash@, matcher@, action@),
{
    match (matcher, action) {
        (PathMatch::NginxPrefix(p), Action::Proxy { .. }) => text::same(p.as_str(), slash),
        _ => false,
    }
}

/// Where the client is and which scheme it used, by the route's rules.
pub open spec fn identified(
    s: Scene,
    peer: Option<Ip>,
    policy: IdentityPolicy,
    fields: Seq<header::Field>,
    proxy: Option<Ip>,
    tls: bool,
) -> Scene {
    match peer {
        None => s,
        Some(peer) => Scene {
            request: Request {
                remote_addr: ip_text(policy.resolved(peer, fields, proxy)),
                ..s.request
            },
            scheme: policy.scheme_of(peer, fields, tls),
            ..s
        },
    }
}

/// Whether the client may go on; one without an address always may.
pub open spec fn let_in(
    peer: Option<Ip>,
    policy: IdentityPolicy,
    fields: Seq<header::Field>,
    proxy: Option<Ip>,
) -> bool {
    peer is None || crate::identity::allowed_by(
        policy.access@,
        policy.resolved(peer->0, fields, proxy),
    )
}

/// Where the client is and which scheme it used; `false` where it is denied.
pub fn identify_peer(
    p: &mut Progress,
    peer: Option<Ip>,
    policy: &IdentityPolicy,
    headers: &Headers,
    proxy: Option<Ip>,
    tls: bool,
) -> (r: bool)
    requires
        policy.valid_networks(),
        old(p).request.wf(),
    ensures
        final(p).request.wf(),
        final(p)@ == identified(old(p)@, peer, *policy, headers.fields@, proxy, tls),
        r == let_in(peer, *policy, headers.fields@, proxy),
{
    let peer = match peer {
        Some(ip) => ip,
        None => return true,
    };
    let client = policy.resolve(peer, headers, proxy);
    p.request.remote_addr = net::ip_string(client);
    p.scheme = policy.scheme(peer, headers, tls).to_owned();
    policy.allows(client)
}

/// Where the client of a request is, by the address that it came from.
pub fn identify(
    p: &mut Progress,
    policy: &IdentityPolicy,
    headers: &Headers,
    proxy: Option<Ip>,
    tls: bool,
) -> (r: bool)
    requires
        policy.valid_networks(),
        old(p).request.wf(),
    ensures
        final(p).request.wf(),
        final(p)@ == identified(
            old(p)@,
            parsed_ip(old(p)@.original_peer),
            *policy,
            headers.fields@,
            proxy,
            tls,
        ),
        r == let_in(parsed_ip(old(p)@.original_peer), *policy, headers.fields@, proxy),
{
    let peer = net::parse_ip(p.original_peer.as_str());
    identify_peer(p, peer, policy, headers, proxy, tls)
}

/// The address of a request at the secure port.
pub open spec fn secure_address(
    host: Seq<char>,
    v6: bool,
    target: Option<Seq<char>>,
    port: u16,
) -> Seq<char> {
    let name = if v6 {
        "["@ + host + "]"@
    } else {
        host
    };
    let end = if port == 443 {
        Seq::empty()
    } else {
        ":"@ + text::decimal(port as nat)
    };
    "https://"@ + name + end + or_root(target)
}

pub open spec fn is_v6(ip: Option<Ip>) -> bool {
    ip is Some && ip->0 is V6
}

/// The address of a request at the secure port, by what its host and its target were read as.
pub fn secure_redirect(host: &str, ip: Option<Ip>, target: &Option<String>, port: u16) -> (out: String)
    ensures
        out@ == secure_address(host@, is_v6(ip), text::opt(*target), port),
{
    let v6 = match ip {
        Some(Ip::V6(_)) => true,
        _ => false,
    };
    let mut out = "https://".to_owned();
    if v6 {
        out.append(text::concat3("[", host, "]").as_str());
    } else {
        out.append(host);
    }
    if port != 443 {
        out.append(text::concat(":", text::decimal_string(port as u64).as_str()).as_str());
    } else {
        assert(out@ =~= out@ + Seq::<char>::empty());
    }
    match target {
        Some(t) => out.append(t.as_str()),
        None => out.append("/"),
    }
    out
}

/// The address of a request at the secure port.
pub fn https_redirect(host: &str, uri: &str, port: u16) -> (out: String)
    ensures
        out@ == secure_address(host@, is_v6(parsed_ip(host@)), uri_target(uri@), port),
{
    let ip = net::parse_ip(host);
    secure_redirect(host, ip, &target(uri), port)
}

// ---------------------------------------------------------------------------
// Laws
// ---------------------------------------------------------------------------

proof fn lemma_all_removed(v: Seq<(Seq<char>, Seq<u8>)>, names: Seq<Seq<char>>, name: Seq<char>)
    ensures
        names.contains(name) ==> raw_values(all_removed(v, names), name).len() == 0,
        !names.contains(name) ==> raw_values(all_removed(v, names), name) == raw_values(v, name),
    decreases names.len(),
{
    if names.len() > 0 {
        let w = names.drop_last();
        lemma_all_removed(v, w, name);
        header::lemma_dropped(all_removed(v, w), names.last(), name);
        if names.contains(name) && names.last() != name {
            let i = choose|i: int| 0 <= i < names.len() && names[i] == name;
            assert(w[i] == name);
        }
        if w.contains(name) {
            let i = choose|i: int| 0 <= i < w.len() && w[i] == name;
            assert(names[i] == name);
        }
        if names.last() == name {
            assert(names[names.len() - 1] == name);
        }
    }
}

/// No field of the connection goes on, and no other field is lost.
pub proof fn law_fields_of_the_connection_stop(v: Seq<(Seq<char>, Seq<u8>)>, name: Seq<char>)
    ensures
        ({
            let left = all_removed(all_removed(v, connection_options(v)), hop_fields());
            if connection_options(v).contains(name) || hop_fields().contains(name) {
                raw_values(left, name).len() == 0
            } else {
                raw_values(left, name) == raw_values(v, name)
            }
        }),
{
    let first = all_removed(v, connection_options(v));
    lemma_all_removed(v, connection_options(v), name);
    lemma_all_removed(first, hop_fields(), name);
}

/// None of the fields that are for one connection goes on to the next.
pub proof fn law_hop_fields_stop(v: Seq<(Seq<char>, Seq<u8>)>)
    ensures
        ({
            let left = all_removed(all_removed(v, connection_options(v)), hop_fields());
            &&& raw_values(left, "connection"@).len() == 0
            &&& raw_values(left, "keep-alive"@).len() == 0
            &&& raw_values(left, "proxy-connection"@).len() == 0
            &&& raw_values(left, "proxy-authenticate"@).len() == 0
            &&& raw_values(left, "proxy-authorization"@).len() == 0
            &&& raw_values(left, "upgrade"@).len() == 0
            &&& raw_values(left, "te"@).len() == 0
            &&& raw_values(left, "trailer"@).len() == 0
        }),
{
    let f = hop_fields();
    assert(f[0] == "connection"@ && f[1] == "keep-alive"@ && f[2] == "proxy-connection"@ && f[3]
        == "proxy-authenticate"@ && f[4] == "proxy-authorization"@ && f[5] == "upgrade"@ && f[6]
        == "te"@ && f[7] == "trailer"@);
    law_fields_of_the_connection_stop(v, "connection"@);
    law_fields_of_the_connection_stop(v, "keep-alive"@);
    law_fields_of_the_connection_stop(v, "proxy-connection"@);
    law_fields_of_the_connection_stop(v, "proxy-authenticate"@);
    law_fields_of_the_connection_stop(v, "proxy-authorization"@);
    law_fields_of_the_connection_stop(v, "upgrade"@);
    law_fields_of_the_connection_stop(v, "te"@);
    law_fields_of_the_connection_stop(v, "trailer"@);
}

/// The options of a connection are the words of its fields, whatever their case and the space around them.
pub proof fn law_options_are_words_of_the_connection(value: Seq<char>, i: int)
    requires
        0 <= i < text::split_spec(value, ',').len(),
    ensures
        elements(value).contains(text::lowercase(text::trim_spec(text::split_spec(value, ',')[i]))),
{
    assert(elements(value)[i] == text::lowercase(text::trim_spec(text::split_spec(value, ',')[i])));
}

/// A request that names a field of its framing as one of the connection is refused.
pub proof fn law_framing_is_not_of_the_connection(a: Arrival, tls: bool, server_name: Seq<char>)
    requires
        connection_options(a.headers.raw()).contains("content-length"@) || connection_options(
            a.headers.raw(),
        ).contains("transfer-encoding"@) || connection_options(a.headers.raw()).contains("host"@),
    ensures
        received(a, tls, server_name) == Err::<Scene, Refusal>(Refusal::FramingNamed),
{
    let v = connection_options(a.headers.raw());
    if v.contains("content-length"@) {
        let i = choose|i: int| 0 <= i < v.len() && v[i] == "content-length"@;
        assert(framing(v[i]));
    } else if v.contains("transfer-encoding"@) {
        let i = choose|i: int| 0 <= i < v.len() && v[i] == "transfer-encoding"@;
        assert(framing(v[i]));
    } else {
        let i = choose|i: int| 0 <= i < v.len() && v[i] == "host"@;
        assert(framing(v[i]));
    }
}

/// A request names one host at most, and with HTTP/1.1 exactly one.
pub proof fn law_requests_name_one_host(
    fields: Seq<(Seq<char>, Seq<u8>)>,
    http11: bool,
    authority: Option<Seq<char>>,
)
    ensures
        raw_values(fields, "host"@).len() > 1 ==> host_of(fields, http11, authority) is Err,
        http11 && raw_values(fields, "host"@).len() == 0 ==> host_of(fields, http11, authority) is Err,
        !http11 && raw_values(fields, "host"@).len() == 0 && authority is None ==> host_of(
            fields,
            http11,
            authority,
        ) == Ok::<Seq<char>, HostError>(Seq::empty()),
{
}

/// The host of a request is that of its target where that names one, else that of its field, in lower case.
pub proof fn law_targets_name_the_host(
    fields: Seq<(Seq<char>, Seq<u8>)>,
    http11: bool,
    authority: Option<Seq<char>>,
)
    requires
        host_of(fields, http11, authority) is Ok,
    ensures
        authority matches Some(a) ==> authority_host(a) is Some && host_of(fields, http11, authority)
            == Ok::<Seq<char>, HostError>(text::lowercase(authority_host(a)->0)) && !a.contains('@'),
        authority is None && raw_values(fields, "host"@).len() == 1 ==> {
            let s = visible_text(raw_values(fields, "host"@)[0])->0;
            authority_host(s) is Some && host_of(fields, http11, authority) == Ok::<
                Seq<char>,
                HostError,
            >(text::lowercase(authority_host(s)->0)) && !s.contains('@')
        },
{
}

/// What arrives is kept as it is: method, query, fields, and the address at the other end, which is the client
/// until more is known. The path is the normal one.
pub proof fn law_arrivals_are_kept(a: Arrival, tls: bool, server_name: Seq<char>)
    requires
        received(a, tls, server_name) is Ok,
    ensures
        ({
            let s = received(a, tls, server_name)->Ok_0;
            &&& s.request.method == a.method@
            &&& normal_path(a.path@) == Ok::<Seq<char>, PathError>(s.request.path)
            &&& a.query matches Some(q) ==> s.request.query == q@
            &&& a.query is None ==> s.request.query.len() == 0
            &&& s.request.remote_addr == a.peer@
            &&& s.original_peer == a.peer@
            &&& s.request.headers == text_map(a.headers.raw())
            &&& a.target matches Some(t) ==> s.original_uri == t@
            &&& s.edits.path is None && s.edits.query is None && s.edits.headers.len() == 0
            &&& tls ==> s.scheme == "https"@
            &&& !tls ==> s.scheme == "http"@
            &&& s.request.host.len() == 0 ==> s.server_name == server_name
        }),
{
}

/// The client of a request is the one that the policy finds, and it is let in by the rules for that address;
/// what else is known of the request stays.
pub proof fn law_clients_are_let_in_by_their_address(
    s: Scene,
    peer: Ip,
    policy: IdentityPolicy,
    fields: Seq<header::Field>,
    proxy: Option<Ip>,
    tls: bool,
)
    ensures
        ({
            let t = identified(s, Some(peer), policy, fields, proxy, tls);
            &&& t.request.remote_addr == ip_text(policy.resolved(peer, fields, proxy))
            &&& t.request.path == s.request.path && t.request.method == s.request.method
                && t.request.host == s.request.host && t.request.headers == s.request.headers
            &&& t.original_peer == s.original_peer && t.original_uri == s.original_uri
            &&& t.scheme == policy.scheme_of(peer, fields, tls)
        }),
        let_in(Some(peer), policy, fields, proxy) == crate::identity::allowed_by(
            policy.access@,
            policy.resolved(peer, fields, proxy),
        ),
        identified(s, None, policy, fields, proxy, tls) == s,
        let_in(None, policy, fields, proxy),
{
}

/// A redirect to HTTPS leads to the same host and target, and names the port unless it is the usual one. An
/// IPv6 address stands in brackets.
pub proof fn law_secure_addresses_keep_the_target(host: Seq<char>, target: Seq<char>, port: u16)
    ensures
        port == 443 ==> secure_address(host, false, Some(target), port) == "https://"@ + host + target,
        port != 443 ==> secure_address(host, false, Some(target), port) == "https://"@ + host + (":"@
            + text::decimal(port as nat)) + target,
        port == 443 ==> secure_address(host, true, Some(target), port) == "https://"@ + ("["@ + host
            + "]"@) + target,
        port == 443 ==> secure_address(host, false, None, port) == "https://"@ + host + "/"@,
{
    let e = Seq::<char>::empty();
    assert("https://"@ + host + e =~= "https://"@ + host);
    assert("https://"@ + ("["@ + host + "]"@) + e =~= "https://"@ + ("["@ + host + "]"@));
}

/// A location that ends with a slash has requests for it without the slash sent there, where it passes them
/// on; a path with a slash is sent nowhere.
pub proof fn law_slashes_are_added_once(path: Seq<char>, m: Matcher, d: Deed)
    ensures
        text::ends(path, "/"@) ==> slashed(path, m) is None,
        m is Exact ==> slashed(path, m) is None,
        !text::ends(path, "/"@) && !(m is Exact) ==> slashed(path, m) == Some(path + seq!['/']),
        d is Proxy ==> slash_redirects(path, Matcher::NginxPrefix(path), d),
        d !is Proxy ==> !slash_redirects(path, m, d),
{
    assert(path.push('/') =~= path + seq!['/']);
}

} // verus!

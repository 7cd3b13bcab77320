//! The endpoints of the services that an Ingress names.
use crate::backend::{
    before, is_before, Endpoint, Manner, Options, Profile, Rules, Setup, Shape, Spread,
};
use crate::ingress::spec::{PortName, PortRef, ServiceBackend, Target};
use crate::net;
use crate::net::{parsed_ip, Ip, Socket};
use crate::text;
use vstd::prelude::*;

verus! {

/// A number with its sign.
pub open spec fn signed(n: i32) -> Seq<char> {
    if n < 0 {
        "-"@ + text::decimal((-n) as nat)
    } else {
        text::decimal(n as nat)
    }
}

fn signed_string(n: i32) -> (out: String)
    ensures
        out@ == signed(n),
{
    if n < 0 {
        let m: u64 = (-(n as i64)) as u64;
        text::concat("-", text::decimal_string(m).as_str())
    } else {
        text::decimal_string(n as u64)
    }
}

pub open spec fn port_alias(p: Option<PortName>) -> Seq<char> {
    match p {
        None => Seq::empty(),
        Some(p) => match p.name {
            Some(s) => s,
            None => match p.number {
                Some(n) => signed(n),
                None => Seq::empty(),
            },
        },
    }
}

/// The name under which a service with a port is known: `name:port`.
pub open spec fn alias_of(t: Target) -> Seq<char> {
    t.name + ":"@ + port_alias(t.port)
}

pub fn backend_alias(service: &ServiceBackend) -> (out: String)
    ensures
        out@ == alias_of(service@),
{
    let mut out = text::concat(service.name.as_str(), ":");
    if let Some(p) = &service.port {
        match &p.name {
            Some(s) => out.append(s.as_str()),
            None => match p.number {
                Some(n) => out.append(signed_string(n).as_str()),
                None => {
                    assert(out@ =~= out@ + Seq::<char>::empty());
                },
            },
        }
    } else {
        assert(out@ =~= out@ + Seq::<char>::empty());
    }
    out
}

// ---------------------------------------------------------------------------
// Services
// ---------------------------------------------------------------------------

#[derive(Debug)]
pub struct ServicePort {
    pub name: Option<String>,
    pub port: i32,
    pub protocol: Option<String>,
    /// What is spoken at the port, where that is said.
    pub app_protocol: Option<String>,
}

#[derive(Debug)]
pub struct ServiceSpec {
    pub type_: Option<String>,
    pub ports: Option<Vec<ServicePort>>,
}

#[derive(Debug)]
pub struct ServiceObject {
    pub namespace: Option<String>,
    pub name: String,
    pub uid: Option<String>,
    pub spec: Option<ServiceSpec>,
}

#[derive(Debug)]
pub struct Owner {
    pub api_version: String,
    pub kind: String,
    pub name: String,
    pub uid: String,
}

#[derive(Debug)]
pub struct SlicePort {
    pub name: Option<String>,
    pub protocol: Option<String>,
    pub port: Option<i32>,
}

#[derive(Debug)]
pub struct SliceEndpoint {
    pub addresses: Vec<String>,
    pub ready: Option<bool>,
    pub terminating: Option<bool>,
}

/// A part of the endpoints of a service.
#[derive(Debug)]
pub struct SliceObject {
    pub namespace: Option<String>,
    /// The service that the slice's label names.
    pub service: Option<String>,
    pub address_type: String,
    pub owners: Vec<Owner>,
    pub ports: Vec<SlicePort>,
    pub endpoints: Vec<SliceEndpoint>,
}

/// Why a service cannot be used.
#[derive(Clone, Copy, Debug, PartialEq, Eq, Structural)]
pub enum BackendProblem {
    ServiceMissing,
    SpecMissing,
    ExternalName,
    PortMissing,
    NoPorts,
    PortNotFound,
    NotTcp,
}

/// The first service of a name in a namespace.
pub open spec fn service_at(v: Seq<ServiceObject>, namespace: Seq<char>, name: Seq<char>) -> Option<
    ServiceObject,
>
    decreases v.len(),
{
    if v.len() == 0 {
        None
    } else if text::opt(v[0].namespace) == Some(namespace) && v[0].name@ == name {
        Some(v[0])
    } else {
        service_at(v.drop_first(), namespace, name)
    }
}

pub fn is_named(actual: &Option<String>, wanted: &str) -> (r: bool)
    ensures
        r == (text::opt(*actual) == Some(wanted@)),
{
    match actual {
        Some(s) => text::same(s.as_str(), wanted),
        None => false,
    }
}

fn find_service<'a>(v: &'a Vec<ServiceObject>, namespace: &str, name: &str) -> (r: Option<
    &'a ServiceObject,
>)
    ensures
        match r {
            Some(s) => service_at(v@, namespace@, name@) == Some(*s),
            None => service_at(v@, namespace@, name@) is None,
        },
{
    let mut i: usize = 0;
    assert(v@.skip(0) =~= v@);
    while i < v.len()
        invariant
            i <= v.len(),
            service_at(v@.skip(i as int), namespace@, name@) == service_at(v@, namespace@, name@),
        decreases v.len() - i,
    {
        assert(v@.skip(i as int).drop_first() =~= v@.skip(i + 1));
        if is_named(&v[i].namespace, namespace) && text::same(v[i].name.as_str(), name) {
            return Some(&v[i]);
        }
        i += 1;
    }
    None
}

/// Whether a port is the one that is asked for, by its number or by its name.
pub open spec fn port_fits(p: ServicePort, wanted: PortName) -> bool {
    wanted.number == Some(p.port) || (wanted.name is Some && text::opt(p.name) == wanted.name)
}

pub open spec fn port_at(v: Seq<ServicePort>, wanted: PortName) -> Option<ServicePort>
    decreases v.len(),
{
    if v.len() == 0 {
        None
    } else if port_fits(v[0], wanted) {
        Some(v[0])
    } else {
        port_at(v.drop_first(), wanted)
    }
}

fn find_port<'a>(v: &'a Vec<ServicePort>, wanted: &PortRef) -> (r: Option<&'a ServicePort>)
    ensures
        match r {
            Some(p) => port_at(v@, wanted@) == Some(*p),
            None => port_at(v@, wanted@) is None,
        },
{
    let mut i: usize = 0;
    assert(v@.skip(0) =~= v@);
    while i < v.len()
        invariant
            i <= v.len(),
            port_at(v@.skip(i as int), wanted@) == port_at(v@, wanted@),
        decreases v.len() - i,
    {
        assert(v@.skip(i as int).drop_first() =~= v@.skip(i + 1));
        let by_number = match wanted.number {
            Some(n) => n == v[i].port,
            None => false,
        };
        let by_name = match &wanted.name {
            Some(n) => is_named(&v[i].name, n.as_str()),
            None => false,
        };
        if by_number || by_name {
            return Some(&v[i]);
        }
        i += 1;
    }
    None
}

pub open spec fn or_tcp(p: Option<Seq<char>>) -> Seq<char> {
    match p {
        Some(s) => s,
        None => "TCP"@,
    }
}

pub open spec fn or_none(p: Option<Seq<char>>) -> Seq<char> {
    match p {
        Some(s) => s,
        None => Seq::empty(),
    }
}

fn is_tcp(p: &Option<String>) -> (r: bool)
    ensures
        r == (or_tcp(text::opt(*p)) == "TCP"@),
{
    match p {
        Some(s) => text::same(s.as_str(), "TCP"),
        None => true,
    }
}

/// The port of a service that a backend names.
pub open spec fn service_port(
    services: Seq<ServiceObject>,
    namespace: Seq<char>,
    t: Target,
) -> Result<(ServiceObject, ServicePort), BackendProblem> {
    match service_at(services, namespace, t.name) {
        None => Err(BackendProblem::ServiceMissing),
        Some(s) => match s.spec {
            None => Err(BackendProblem::SpecMissing),
            Some(spec) => if text::opt(spec.type_) == Some("ExternalName"@) {
                Err(BackendProblem::ExternalName)
            } else {
                match (t.port, spec.ports) {
                    (None, _) => Err(BackendProblem::PortMissing),
                    (_, None) => Err(BackendProblem::NoPorts),
                    (Some(wanted), Some(ports)) => match port_at(ports@, wanted) {
                        None => Err(BackendProblem::PortNotFound),
                        Some(p) => if or_tcp(text::opt(p.protocol)) != "TCP"@ {
                            Err(BackendProblem::NotTcp)
                        } else {
                            Ok((s, p))
                        },
                    },
                }
            },
        },
    }
}

// ---------------------------------------------------------------------------
// Endpoints
// ---------------------------------------------------------------------------

/// The addresses with one more, in order and none twice.
pub open spec fn inserted(v: Seq<Socket>, a: Socket) -> Seq<Socket>
    decreases v.len(),
{
    if v.len() == 0 {
        seq![a]
    } else if v[0] == a {
        v
    } else if before(a, v[0]) {
        seq![a] + v
    } else {
        seq![v[0]] + inserted(v.drop_first(), a)
    }
}

/// Puts an address in its place, unless it is there already.
pub fn insert_socket(v: &mut Vec<Socket>, a: Socket)
    ensures
        final(v)@ == inserted(old(v)@, a),
{
    let ghost all = v@;
    let mut i: usize = 0;
    proof {
        assert(all.take(0) + inserted(all.skip(0), a) =~= inserted(all, a)) by {
            assert(all.skip(0) =~= all);
        }
    }
    while i < v.len() && v[i] != a && !is_before(a, v[i])
        invariant
            i <= v.len(),
            v@ == all,
            all.take(i as int) + inserted(all.skip(i as int), a) == inserted(all, a),
        decreases v.len() - i,
    {
        proof {
            let rest = all.skip(i as int);
            assert(rest.drop_first() =~= all.skip(i + 1));
            assert(all.take(i + 1) + inserted(all.skip(i + 1), a) =~= all.take(i as int) + inserted(
                rest,
                a,
            ));
        }
        i += 1;
    }
    if i < v.len() && v[i] == a {
        assert(all.take(i as int) + all.skip(i as int) =~= all);
        return;
    }
    v.insert(i, a);
    proof {
        let rest = all.skip(i as int);
        if i < all.len() {
            assert(inserted(rest, a) == seq![a] + rest);
        } else {
            assert(rest =~= Seq::empty());
            assert(seq![a] + rest =~= seq![a]);
        }
        assert(v@ =~= all.take(i as int) + (seq![a] + rest));
    }
}

/// The addresses with one that a text stands for, where it is an address.
pub open spec fn with_address(v: Seq<Socket>, ip: Option<Ip>, port: u16) -> Seq<Socket> {
    match ip {
        Some(ip) => inserted(v, Socket { ip, scope: 0, port }),
        None => v,
    }
}

/// Puts the address that a text was read as in its place.
pub fn insert_address(v: &mut Vec<Socket>, ip: Option<Ip>, port: u16)
    ensures
        final(v)@ == with_address(old(v)@, ip, port),
{
    if let Some(ip) = ip {
        insert_socket(v, Socket { ip, scope: 0, port });
    }
}

pub open spec fn with_addresses(v: Seq<Socket>, texts: Seq<Seq<char>>, port: u16) -> Seq<Socket>
    decreases texts.len(),
{
    if texts.len() == 0 {
        v
    } else {
        with_address(
            with_addresses(v, texts.drop_last(), port),
            parsed_ip(texts.last()),
            port,
        )
    }
}

fn insert_addresses(v: &mut Vec<Socket>, texts: &Vec<String>, port: u16)
    ensures
        final(v)@ == with_addresses(old(v)@, text::texts(texts@), port),
{
    let ghost all = text::texts(texts@);
    let ghost start = v@;
    let mut i: usize = 0;
    while i < texts.len()
        invariant
            i <= texts.len(),
            all == text::texts(texts@),
            v@ == with_addresses(start, all.take(i as int), port),
        decreases texts.len() - i,
    {
        assert(all.take(i + 1).drop_last() =~= all.take(i as int));
        let ip = net::parse_ip(texts[i].as_str());
        insert_address(v, ip, port);
        i += 1;
    }
    assert(all.take(i as int) =~= all);
}

/// An endpoint that takes requests: not one that is not ready or is going away.
pub open spec fn takes_requests(e: SliceEndpoint) -> bool {
    e.ready != Some(false) && e.terminating != Some(true)
}

pub open spec fn with_endpoints(v: Seq<Socket>, endpoints: Seq<SliceEndpoint>, port: u16) -> Seq<Socket>
    decreases endpoints.len(),
{
    if endpoints.len() == 0 {
        v
    } else {
        let w = with_endpoints(v, endpoints.drop_last(), port);
        if takes_requests(endpoints.last()) {
            with_addresses(w, text::texts(endpoints.last().addresses@), port)
        } else {
            w
        }
    }
}

fn insert_endpoints(v: &mut Vec<Socket>, endpoints: &Vec<SliceEndpoint>, port: u16)
    ensures
        final(v)@ == with_endpoints(old(v)@, endpoints@, port),
{
    let ghost start = v@;
    let mut i: usize = 0;
    while i < endpoints.len()
        invariant
            i <= endpoints.len(),
            v@ == with_endpoints(start, endpoints@.take(i as int), port),
        decreases endpoints.len() - i,
    {
        assert(endpoints@.take(i + 1).drop_last() =~= endpoints@.take(i as int));
        let e = &endpoints[i];
        let unready = match e.ready {
            Some(b) => !b,
            None => false,
        };
        let leaving = match e.terminating {
            Some(b) => b,
            None => false,
        };
        if !unready && !leaving {
            insert_addresses(v, &e.addresses, port);
        }
        i += 1;
    }
    assert(endpoints@.take(i as int) =~= endpoints@);
}

/// The number of a slice's port, where it is the one that is asked for.
pub open spec fn slice_port(p: SlicePort, name: Seq<char>) -> Option<u16> {
    if or_none(text::opt(p.name)) == name && or_tcp(text::opt(p.protocol)) == "TCP"@ {
        match p.port {
            Some(n) => if 0 < n <= 65535 {
                Some(n as u16)
            } else {
                None
            },
            None => None,
        }
    } else {
        None
    }
}

fn read_slice_port(p: &SlicePort, name: &str) -> (r: Option<u16>)
    ensures
        r == slice_port(*p, name@),
{
    let same = match &p.name {
        Some(s) => text::same(s.as_str(), name),
        None => name.is_empty(),
    };
    proof {
        if p.name is None {
            assert(or_none(text::opt(p.name)) == name@ <==> name@.len() == 0) by {
                if name@.len() == 0 {
                    assert(name@ =~= Seq::<char>::empty());
                }
            }
        }
    }
    if same && is_tcp(&p.protocol) {
        match p.port {
            Some(n) => if 0 < n && n <= 65535 {
                Some(n as u16)
            } else {
                None
            },
            None => None,
        }
    } else {
        None
    }
}

pub open spec fn with_ports(
    v: Seq<Socket>,
    ports: Seq<SlicePort>,
    name: Seq<char>,
    endpoints: Seq<SliceEndpoint>,
) -> Seq<Socket>
    decreases ports.len(),
{
    if ports.len() == 0 {
        v
    } else {
        let w = with_ports(v, ports.drop_last(), name, endpoints);
        match slice_port(ports.last(), name) {
            Some(n) => with_endpoints(w, endpoints, n),
            None => w,
        }
    }
}

fn insert_ports(v: &mut Vec<Socket>, s: &SliceObject, name: &str)
    ensures
        final(v)@ == with_ports(old(v)@, s.ports@, name@, s.endpoints@),
{
    let ghost start = v@;
    let mut i: usize = 0;
    while i < s.ports.len()
        invariant
            i <= s.ports.len(),
            v@ == with_ports(start, s.ports@.take(i as int), name@, s.endpoints@),
        decreases s.ports.len() - i,
    {
        assert(s.ports@.take(i + 1).drop_last() =~= s.ports@.take(i as int));
        if let Some(n) = read_slice_port(&s.ports[i], name) {
            insert_endpoints(v, &s.endpoints, n);
        }
        i += 1;
    }
    assert(s.ports@.take(i as int) =~= s.ports@);
}

/// An owner that makes a slice another service's: one of the same name but another identity, too.
pub open spec fn foreign(o: Owner, name: Seq<char>, uid: Option<Seq<char>>) -> bool {
    o.api_version@ == "v1"@ && o.kind@ == "Service"@ && (o.name@ != name || uid != Some(o.uid@))
}

/// Whether a slice belongs to a service.
pub open spec fn slice_belongs(
    s: SliceObject,
    namespace: Seq<char>,
    name: Seq<char>,
    uid: Option<Seq<char>>,
) -> bool {
    &&& text::opt(s.namespace) == Some(namespace)
    &&& text::opt(s.service) == Some(name)
    &&& s.address_type@ == "IPv4"@ || s.address_type@ == "IPv6"@
    &&& !(exists|i: int| 0 <= i < s.owners@.len() && foreign(#[trigger] s.owners@[i], name, uid))
}

fn belongs(s: &SliceObject, namespace: &str, name: &str, uid: &Option<String>) -> (r: bool)
    ensures
        r == slice_belongs(*s, namespace@, name@, text::opt(*uid)),
{
    if !is_named(&s.namespace, namespace) || !is_named(&s.service, name) {
        return false;
    }
    if !text::same(s.address_type.as_str(), "IPv4") && !text::same(s.address_type.as_str(), "IPv6") {
        return false;
    }
    let mut i: usize = 0;
    while i < s.owners.len()
        invariant
            i <= s.owners.len(),
            forall|j: int| 0 <= j < i ==> !foreign(#[trigger] s.owners@[j], name@, text::opt(*uid)),
        decreases s.owners.len() - i,
    {
        let o = &s.owners[i];
        if text::same(o.api_version.as_str(), "v1") && text::same(o.kind.as_str(), "Service") && (
        !text::same(o.name.as_str(), name) || !is_named(uid, o.uid.as_str())) {
            assert(foreign(s.owners@[i as int], name@, text::opt(*uid)));
            return false;
        }
        i += 1;
    }
    true
}

pub open spec fn with_slices(
    v: Seq<Socket>,
    slices: Seq<SliceObject>,
    namespace: Seq<char>,
    name: Seq<char>,
    uid: Option<Seq<char>>,
    port: Seq<char>,
) -> Seq<Socket>
    decreases slices.len(),
{
    if slices.len() == 0 {
        v
    } else {
        let w = with_slices(v, slices.drop_last(), namespace, name, uid, port);
        if slice_belongs(slices.last(), namespace, name, uid) {
            with_ports(w, slices.last().ports@, port, slices.last().endpoints@)
        } else {
            w
        }
    }
}

/// The endpoints of the service that a backend names, in order, or why there are none.
pub open spec fn endpoints_of(
    services: Seq<ServiceObject>,
    slices: Seq<SliceObject>,
    namespace: Seq<char>,
    t: Target,
) -> Result<Seq<Socket>, BackendProblem> {
    match service_port(services, namespace, t) {
        Err(e) => Err(e),
        Ok((s, p)) => Ok(
            with_slices(
                Seq::empty(),
                slices,
                namespace,
                t.name,
                text::opt(s.uid),
                or_none(text::opt(p.name)),
            ),
        ),
    }
}

/// The port of a service that a backend names.
pub fn find_service_port<'a>(
    services: &'a Vec<ServiceObject>,
    namespace: &str,
    reference: &ServiceBackend,
) -> (r: Result<(&'a ServiceObject, &'a ServicePort), BackendProblem>)
    ensures
        match r {
            Ok(x) => service_port(services@, namespace@, reference@) == Ok::<
                (ServiceObject, ServicePort),
                BackendProblem,
            >((*x.0, *x.1)),
            Err(e) => service_port(services@, namespace@, reference@) == Err::<
                (ServiceObject, ServicePort),
                BackendProblem,
            >(e),
        },
{
    let service = match find_service(services, namespace, reference.name.as_str()) {
        Some(s) => s,
        None => return Err(BackendProblem::ServiceMissing),
    };
    let spec = match &service.spec {
        Some(s) => s,
        None => return Err(BackendProblem::SpecMissing),
    };
    if is_named(&spec.type_, "ExternalName") {
        return Err(BackendProblem::ExternalName);
    }
    let wanted = match &reference.port {
        Some(p) => p,
        None => return Err(BackendProblem::PortMissing),
    };
    let ports = match &spec.ports {
        Some(p) => p,
        None => return Err(BackendProblem::NoPorts),
    };
    let port = match find_port(ports, wanted) {
        Some(p) => p,
        None => return Err(BackendProblem::PortNotFound),
    };
    if !is_tcp(&port.protocol) {
        return Err(BackendProblem::NotTcp);
    }
    Ok((service, port))
}

/// The endpoints of the service that a backend names, in order, or why there are none.
pub fn resolve_backend(
    services: &Vec<ServiceObject>,
    slices: &Vec<SliceObject>,
    namespace: &str,
    reference: &ServiceBackend,
) -> (r: Result<Vec<Socket>, BackendProblem>)
    ensures
        match r {
            Ok(v) => endpoints_of(services@, slices@, namespace@, reference@) == Ok::<
                Seq<Socket>,
                BackendProblem,
            >(v@),
            Err(e) => endpoints_of(services@, slices@, namespace@, reference@) == Err::<
                Seq<Socket>,
                BackendProblem,
            >(e),
        },
{
    let (service, port) = match find_service_port(services, namespace, reference) {
        Ok(x) => x,
        Err(e) => return Err(e),
    };
    let empty = String::new();
    assert(empty@ =~= Seq::<char>::empty());
    let name: &str = match &port.name {
        Some(s) => s.as_str(),
        None => empty.as_str(),
    };
    let mut out: Vec<Socket> = Vec::new();
    let mut i: usize = 0;
    while i < slices.len()
        invariant
            i <= slices.len(),
            out@ == with_slices(
                Seq::empty(),
                slices@.take(i as int),
                namespace@,
                reference@.name,
                text::opt(service.uid),
                name@,
            ),
        decreases slices.len() - i,
    {
        assert(slices@.take(i + 1).drop_last() =~= slices@.take(i as int));
        if belongs(&slices[i], namespace, reference.name.as_str(), &service.uid) {
            insert_ports(&mut out, &slices[i], name);
        }
        i += 1;
    }
    assert(slices@.take(i as int) =~= slices@);
    Ok(out)
}

/// The name of a service within the cluster.
pub open spec fn cluster_name(name: Seq<char>, namespace: Seq<char>) -> Seq<char> {
    name + "."@ + namespace + ".svc"@
}

pub fn hostname(name: &str, namespace: &str) -> (out: String)
    ensures
        out@ == cluster_name(name@, namespace@),
{
    let mut out = text::concat3(name, ".", namespace);
    out.append(".svc");
    out
}

/// Endpoints that get equal shares of the requests.
pub open spec fn equal_shares(v: Seq<Socket>) -> Seq<Endpoint> {
    Seq::new(v.len(), |i: int| Endpoint { address: v[i], weight: 1 })
}

fn share_equally(v: &Vec<Socket>) -> (out: Vec<Endpoint>)
    ensures
        out@ == equal_shares(v@),
{
    let mut out: Vec<Endpoint> = Vec::new();
    let mut i: usize = 0;
    while i < v.len()
        invariant
            i <= v.len(),
            out@ == equal_shares(v@).take(i as int),
        decreases v.len() - i,
    {
        out.push(Endpoint { address: v[i], weight: 1 });
        i += 1;
        assert(out@ =~= equal_shares(v@).take(i as int));
    }
    assert(equal_shares(v@).take(i as int) =~= equal_shares(v@));
    out
}

/// A service as a backend, before any policy: it goes by its name within the cluster.
pub open spec fn plain_backend(name: Seq<char>, namespace: Seq<char>, endpoints: Seq<Socket>) -> Shape {
    Shape {
        endpoints: equal_shares(endpoints),
        tls: false,
        hostname: cluster_name(name, namespace),
        host_header: cluster_name(name, namespace),
        options: Rules { balance: Spread::RoundRobin, max_inflight: 0, health: None },
        origins: Seq::empty(),
        ca_pem: None,
        profile: Manner { http2: false, identity: None, server_name: None, ca_pem: None },
    }
}

/// The service that a backend names, before any policy; one that cannot be reached has no endpoints, and
/// comes with the reason.
pub fn service_backend(
    services: &Vec<ServiceObject>,
    slices: &Vec<SliceObject>,
    namespace: &str,
    reference: &ServiceBackend,
) -> (r: (Setup, Option<BackendProblem>))
    ensures
        match endpoints_of(services@, slices@, namespace@, reference@) {
            Ok(v) => r.0@ == plain_backend(reference@.name, namespace@, v) && r.1 is None,
            Err(e) => r.0@ == plain_backend(reference@.name, namespace@, Seq::empty()) && r.1 == Some(
                e,
            ),
        },
{
    let (found, problem) = match resolve_backend(services, slices, namespace, reference) {
        Ok(v) => (v, None),
        Err(e) => (Vec::new(), Some(e)),
    };
    let name = hostname(reference.name.as_str(), namespace);
    let setup = Setup {
        endpoints: share_equally(&found),
        tls: false,
        hostname: name.clone(),
        host_header: name,
        options: Options::default(),
        origins: Vec::new(),
        ca_pem: None,
        profile: Profile { http2: false, identity: None, server_name: None, ca_pem: None },
    };
    assert(setup@.origins =~= Seq::empty());
    (setup, problem)
}

// ---------------------------------------------------------------------------
// Laws
// ---------------------------------------------------------------------------

/// Addresses in order, none twice.
pub open spec fn sorted(v: Seq<Socket>) -> bool {
    forall|i: int, j: int| 0 <= i < j < v.len() ==> before(#[trigger] v[i], #[trigger] v[j])
}

proof fn lemma_inserted(v: Seq<Socket>, a: Socket)
    requires
        sorted(v),
    ensures
        sorted(inserted(v, a)),
        inserted(v, a).contains(a),
        forall|b: Socket| #[trigger] inserted(v, a).contains(b) ==> b == a || v.contains(b),
        forall|b: Socket| v.contains(b) ==> #[trigger] inserted(v, a).contains(b),
    decreases v.len(),
{
    let n = inserted(v, a);
    if v.len() == 0 {
        assert(n[0] == a);
    } else if v[0] == a {
    } else if before(a, v[0]) {
        assert(n[0] == a);
        assert forall|i: int, j: int| 0 <= i < j < n.len() implies before(
            #[trigger] n[i],
            #[trigger] n[j],
        ) by {
            if i > 0 {
                assert(before(v[i - 1], v[j - 1]));
            } else if j > 1 {
                assert(before(v[0], v[j - 1]));
            }
        }
        assert forall|b: Socket| v.contains(b) implies #[trigger] n.contains(b) by {
            let k = choose|k: int| 0 <= k < v.len() && v[k] == b;
            assert(n[k + 1] == b);
        }
        assert forall|b: Socket| #[trigger] n.contains(b) implies b == a || v.contains(b) by {
            let k = choose|k: int| 0 <= k < n.len() && n[k] == b;
            if k > 0 {
                assert(v[k - 1] == b);
            }
        }
    } else {
        let w = v.drop_first();
        assert forall|i: int, j: int| 0 <= i < j < w.len() implies before(
            #[trigger] w[i],
            #[trigger] w[j],
        ) by {
            assert(before(v[i + 1], v[j + 1]));
        }
        lemma_inserted(w, a);
        let m = inserted(w, a);
        assert(m.contains(a));
        let p = choose|p: int| 0 <= p < m.len() && m[p] == a;
        assert(n[p + 1] == a);
        assert forall|i: int, j: int| 0 <= i < j < n.len() implies before(
            #[trigger] n[i],
            #[trigger] n[j],
        ) by {
            if i > 0 {
                assert(before(m[i - 1], m[j - 1]));
            } else {
                assert(m.contains(m[j - 1]));
                if m[j - 1] != a {
                    let k = choose|k: int| 0 <= k < w.len() && w[k] == m[j - 1];
                    assert(before(v[0], v[k + 1]));
                }
            }
        }
        assert forall|b: Socket| v.contains(b) implies #[trigger] n.contains(b) by {
            let k = choose|k: int| 0 <= k < v.len() && v[k] == b;
            if k > 0 {
                assert(w[k - 1] == b);
                assert(m.contains(b));
                let q = choose|q: int| 0 <= q < m.len() && m[q] == b;
                assert(n[q + 1] == b);
            } else {
                assert(n[0] == b);
            }
        }
        assert forall|b: Socket| #[trigger] n.contains(b) implies b == a || v.contains(b) by {
            let k = choose|k: int| 0 <= k < n.len() && n[k] == b;
            if k > 0 {
                assert(m[k - 1] == b);
                assert(m.contains(b));
                if b != a {
                    let q = choose|q: int| 0 <= q < w.len() && w[q] == b;
                    assert(v[q + 1] == b);
                }
            } else {
                assert(v[0] == b);
            }
        }
    }
}

proof fn lemma_addresses_sorted(v: Seq<Socket>, texts: Seq<Seq<char>>, port: u16)
    requires
        sorted(v),
    ensures
        sorted(with_addresses(v, texts, port)),
    decreases texts.len(),
{
    if texts.len() > 0 {
        lemma_addresses_sorted(v, texts.drop_last(), port);
        if let Some(ip) = parsed_ip(texts.last()) {
            lemma_inserted(
                with_addresses(v, texts.drop_last(), port),
                Socket { ip, scope: 0, port },
            );
        }
    }
}

proof fn lemma_endpoints_sorted(v: Seq<Socket>, endpoints: Seq<SliceEndpoint>, port: u16)
    requires
        sorted(v),
    ensures
        sorted(with_endpoints(v, endpoints, port)),
    decreases endpoints.len(),
{
    if endpoints.len() > 0 {
        lemma_endpoints_sorted(v, endpoints.drop_last(), port);
        lemma_addresses_sorted(
            with_endpoints(v, endpoints.drop_last(), port),
            text::texts(endpoints.last().addresses@),
            port,
        );
    }
}

proof fn lemma_ports_sorted(
    v: Seq<Socket>,
    ports: Seq<SlicePort>,
    name: Seq<char>,
    endpoints: Seq<SliceEndpoint>,
)
    requires
        sorted(v),
    ensures
        sorted(with_ports(v, ports, name, endpoints)),
    decreases ports.len(),
{
    if ports.len() > 0 {
        lemma_ports_sorted(v, ports.drop_last(), name, endpoints);
        if let Some(n) = slice_port(ports.last(), name) {
            lemma_endpoints_sorted(with_ports(v, ports.drop_last(), name, endpoints), endpoints, n);
        }
    }
}

proof fn lemma_slices_sorted(
    v: Seq<Socket>,
    slices: Seq<SliceObject>,
    namespace: Seq<char>,
    name: Seq<char>,
    uid: Option<Seq<char>>,
    port: Seq<char>,
)
    requires
        sorted(v),
    ensures
        sorted(with_slices(v, slices, namespace, name, uid, port)),
    decreases slices.len(),
{
    if slices.len() > 0 {
        lemma_slices_sorted(v, slices.drop_last(), namespace, name, uid, port);
        lemma_ports_sorted(
            with_slices(v, slices.drop_last(), namespace, name, uid, port),
            slices.last().ports@,
            port,
            slices.last().endpoints@,
        );
    }
}

/// A service has each endpoint once, in order.
pub proof fn law_endpoints_are_distinct(
    services: Seq<ServiceObject>,
    slices: Seq<SliceObject>,
    namespace: Seq<char>,
    t: Target,
)
    requires
        endpoints_of(services, slices, namespace, t) is Ok,
    ensures
        sorted(endpoints_of(services, slices, namespace, t)->Ok_0),
{
    let (s, p) = service_port(services, namespace, t)->Ok_0;
    lemma_slices_sorted(
        Seq::empty(),
        slices,
        namespace,
        t.name,
        text::opt(s.uid),
        or_none(text::opt(p.name)),
    );
}

/// A slice of another namespace, another service or another identity adds no endpoint.
pub proof fn law_foreign_slices_add_nothing(
    v: Seq<Socket>,
    slices: Seq<SliceObject>,
    namespace: Seq<char>,
    name: Seq<char>,
    uid: Option<Seq<char>>,
    port: Seq<char>,
)
    requires
        forall|i: int|
            0 <= i < slices.len() ==> !slice_belongs(#[trigger] slices[i], namespace, name, uid),
    ensures
        with_slices(v, slices, namespace, name, uid, port) == v,
    decreases slices.len(),
{
    if slices.len() > 0 {
        let w = slices.drop_last();
        assert forall|i: int| 0 <= i < w.len() implies !slice_belongs(
            #[trigger] w[i],
            namespace,
            name,
            uid,
        ) by {
            assert(w[i] == slices[i]);
        }
        law_foreign_slices_add_nothing(v, w, namespace, name, uid, port);
        assert(!slice_belongs(slices[slices.len() - 1], namespace, name, uid));
    }
}

/// Whether an endpoint of a slice gives an address: it takes requests, and has it.
pub open spec fn gives(e: SliceEndpoint, port: u16, a: Socket) -> bool {
    e.ready != Some(false) && e.terminating != Some(true) && has_address(text::texts(e.addresses@), port, a)
}

/// Whether one of the texts is the address, at a port.
pub open spec fn has_address(v: Seq<Seq<char>>, port: u16, a: Socket) -> bool {
    a.port == port && a.scope == 0 && exists|k: int|
        0 <= k < v.len() && parsed_ip(#[trigger] v[k]) == Some(a.ip)
}

/// Whether a slice gives an address at a port of the name.
pub open spec fn slice_gives(s: SliceObject, name: Seq<char>, a: Socket) -> bool {
    exists|i: int, j: int|
        0 <= i < s.ports@.len() && 0 <= j < s.endpoints@.len() && slice_port(#[trigger] s.ports@[i], name)
            == Some(a.port) && gives(#[trigger] s.endpoints@[j], a.port, a)
}

proof fn lemma_addresses(v: Seq<Socket>, texts: Seq<Seq<char>>, port: u16, a: Socket)
    requires
        sorted(v),
    ensures
        with_addresses(v, texts, port).contains(a) <==> v.contains(a) || has_address(texts, port, a),
    decreases texts.len(),
{
    if texts.len() > 0 {
        let l = texts.drop_last();
        let w = with_addresses(v, l, port);
        lemma_addresses(v, l, port, a);
        lemma_addresses_sorted(v, l, port);
        if parsed_ip(texts.last()) is Some {
            lemma_inserted(w, Socket { ip: parsed_ip(texts.last())->0, scope: 0, port });
        }
        if has_address(l, port, a) {
            let k = choose|k: int| 0 <= k < l.len() && parsed_ip(#[trigger] l[k]) == Some(a.ip);
            assert(texts[k] == l[k]);
        }
        if has_address(texts, port, a) {
            let k = choose|k: int| 0 <= k < texts.len() && parsed_ip(#[trigger] texts[k]) == Some(a.ip);
            if k < l.len() {
                assert(l[k] == texts[k]);
            }
        }
        assert(texts[texts.len() - 1] == texts.last());
    }
}

proof fn lemma_endpoints(v: Seq<Socket>, endpoints: Seq<SliceEndpoint>, port: u16, a: Socket)
    requires
        sorted(v),
    ensures
        with_endpoints(v, endpoints, port).contains(a) <==> v.contains(a) || exists|j: int|
            0 <= j < endpoints.len() && gives(#[trigger] endpoints[j], port, a),
    decreases endpoints.len(),
{
    if endpoints.len() > 0 {
        let l = endpoints.drop_last();
        let e = endpoints.last();
        lemma_endpoints(v, l, port, a);
        lemma_endpoints_sorted(v, l, port);
        lemma_addresses(with_endpoints(v, l, port), text::texts(e.addresses@), port, a);
        assert(endpoints[endpoints.len() - 1] == e);
        if exists|j: int| 0 <= j < l.len() && gives(#[trigger] l[j], port, a) {
            let j = choose|j: int| 0 <= j < l.len() && gives(#[trigger] l[j], port, a);
            assert(endpoints[j] == l[j]);
        }
        if exists|j: int| 0 <= j < endpoints.len() && gives(#[trigger] endpoints[j], port, a) {
            let j = choose|j: int| 0 <= j < endpoints.len() && gives(#[trigger] endpoints[j], port, a);
            if j < l.len() {
                assert(l[j] == endpoints[j]);
            }
        }
    }
}

proof fn lemma_ports(
    v: Seq<Socket>,
    ports: Seq<SlicePort>,
    name: Seq<char>,
    endpoints: Seq<SliceEndpoint>,
    a: Socket,
)
    requires
        sorted(v),
    ensures
        with_ports(v, ports, name, endpoints).contains(a) <==> v.contains(a) || exists|i: int, j: int|
            0 <= i < ports.len() && 0 <= j < endpoints.len() && slice_port(#[trigger] ports[i], name) == Some(
                a.port,
            ) && gives(#[trigger] endpoints[j], a.port, a),
    decreases ports.len(),
{
    if ports.len() > 0 {
        let l = ports.drop_last();
        let p = ports.last();
        lemma_ports(v, l, name, endpoints, a);
        lemma_ports_sorted(v, l, name, endpoints);
        assert(ports[ports.len() - 1] == p);
        if slice_port(p, name) is Some {
            lemma_endpoints(with_ports(v, l, name, endpoints), endpoints, slice_port(p, name)->0, a);
        }
        assert forall|i: int, j: int|
            0 <= i < l.len() && 0 <= j < endpoints.len() && slice_port(#[trigger] l[i], name) == Some(a.port)
                && gives(#[trigger] endpoints[j], a.port, a) implies slice_port(ports[i], name) == Some(
            a.port,
        ) by {
            assert(ports[i] == l[i]);
        }
        if exists|i: int, j: int|
            0 <= i < ports.len() && 0 <= j < endpoints.len() && slice_port(#[trigger] ports[i], name) == Some(
                a.port,
            ) && gives(#[trigger] endpoints[j], a.port, a) {
            let (i, j) = choose|i: int, j: int|
                0 <= i < ports.len() && 0 <= j < endpoints.len() && slice_port(#[trigger] ports[i], name)
                    == Some(a.port) && gives(#[trigger] endpoints[j], a.port, a);
            if i < l.len() {
                assert(l[i] == ports[i]);
            }
        }
    }
}

proof fn lemma_slices(
    v: Seq<Socket>,
    slices: Seq<SliceObject>,
    namespace: Seq<char>,
    name: Seq<char>,
    uid: Option<Seq<char>>,
    port: Seq<char>,
    a: Socket,
)
    requires
        sorted(v),
    ensures
        with_slices(v, slices, namespace, name, uid, port).contains(a) <==> v.contains(a) || exists|i: int|
            0 <= i < slices.len() && slice_belongs(#[trigger] slices[i], namespace, name, uid) && slice_gives(
                slices[i],
                port,
                a,
            ),
    decreases slices.len(),
{
    if slices.len() > 0 {
        let l = slices.drop_last();
        let s = slices.last();
        lemma_slices(v, l, namespace, name, uid, port, a);
        lemma_slices_sorted(v, l, namespace, name, uid, port);
        lemma_ports(with_slices(v, l, namespace, name, uid, port), s.ports@, port, s.endpoints@, a);
        assert(slices[slices.len() - 1] == s);
        if exists|i: int|
            0 <= i < l.len() && slice_belongs(#[trigger] l[i], namespace, name, uid) && slice_gives(
                l[i],
                port,
                a,
            ) {
            let i = choose|i: int|
                0 <= i < l.len() && slice_belongs(#[trigger] l[i], namespace, name, uid) && slice_gives(
                    l[i],
                    port,
                    a,
                );
            assert(slices[i] == l[i]);
        }
        if exists|i: int|
            0 <= i < slices.len() && slice_belongs(#[trigger] slices[i], namespace, name, uid) && slice_gives(
                slices[i],
                port,
                a,
            ) {
            let i = choose|i: int|
                0 <= i < slices.len() && slice_belongs(#[trigger] slices[i], namespace, name, uid)
                    && slice_gives(slices[i], port, a);
            if i < l.len() {
                assert(l[i] == slices[i]);
            }
        }
    }
}

/// The endpoints of a service are the addresses in its slices that take requests, at the port of its name, and
/// no others.
pub proof fn law_endpoints_are_those_that_take_requests(
    services: Seq<ServiceObject>,
    slices: Seq<SliceObject>,
    namespace: Seq<char>,
    t: Target,
    s: ServiceObject,
    p: ServicePort,
    a: Socket,
)
    requires
        service_port(services, namespace, t) == Ok::<(ServiceObject, ServicePort), BackendProblem>((s, p)),
    ensures
        endpoints_of(services, slices, namespace, t) is Ok,
        endpoints_of(services, slices, namespace, t)->Ok_0.contains(a) <==> exists|i: int|
            0 <= i < slices.len() && slice_belongs(
                #[trigger] slices[i],
                namespace,
                t.name,
                text::opt(s.uid),
            ) && slice_gives(slices[i], or_none(text::opt(p.name)), a),
{
    lemma_slices(
        Seq::empty(),
        slices,
        namespace,
        t.name,
        text::opt(s.uid),
        or_none(text::opt(p.name)),
        a,
    );
}

/// A port of a slice counts where it has the name, is one of TCP, and is a port.
pub proof fn law_ports_of_slices_are_named(p: SlicePort, name: Seq<char>, n: i32)
    ensures
        p.port == Some(n) && 0 < n <= 65535 && text::opt(p.name) == Some(name) && p.protocol is None
            ==> slice_port(p, name) == Some(n as u16),
        p.name is Some && text::opt(p.name) != Some(name) ==> slice_port(p, name) is None,
        p.name is None && name.len() > 0 ==> slice_port(p, name) is None,
        text::opt(p.protocol) == Some("UDP"@) ==> slice_port(p, name) is None,
        p.port is None ==> slice_port(p, name) is None,
        p.port == Some(n) && (n <= 0 || n > 65535) ==> slice_port(p, name) is None,
{
    reveal_strlit("UDP");
    reveal_strlit("TCP");
    assert("UDP"@[0] != "TCP"@[0]);
}

/// A slice belongs to the service that its label names, in its namespace, and not to one that another owns.
pub proof fn law_slices_belong_to_their_service(
    s: SliceObject,
    namespace: Seq<char>,
    name: Seq<char>,
    uid: Option<Seq<char>>,
    i: int,
)
    requires
        slice_belongs(s, namespace, name, uid),
        0 <= i < s.owners@.len(),
    ensures
        text::opt(s.namespace) == Some(namespace),
        text::opt(s.service) == Some(name),
        s.address_type@ == "IPv4"@ || s.address_type@ == "IPv6"@,
        s.owners@[i].api_version@ == "v1"@ && s.owners@[i].kind@ == "Service"@ ==> s.owners@[i].name@ == name
            && uid == Some(s.owners@[i].uid@),
{
    assert(!foreign(s.owners@[i], name, uid));
}

/// A port of a service is found by its number or by its name.
pub proof fn law_ports_are_found(v: Seq<ServicePort>, wanted: PortName, i: int)
    requires
        0 <= i < v.len(),
    ensures
        port_at(v, wanted) matches Some(p) ==> wanted.number == Some(p.port) || (wanted.name is Some
            && text::opt(p.name) == wanted.name),
        wanted.number == Some(v[i].port) ==> port_at(v, wanted) is Some,
        wanted.name is Some && text::opt(v[i].name) == wanted.name ==> port_at(v, wanted) is Some,
    decreases v.len(),
{
    let t = v.drop_first();
    if t.len() > 0 {
        let j = if i > 0 {
            i - 1
        } else {
            0
        };
        law_ports_are_found(t, wanted, j);
        if i > 0 {
            assert(t[j] == v[i]);
        }
    } else {
        assert(port_at(t, wanted) is None);
    }
}

/// A reference is refused where there is no such service, where it is a name of elsewhere, where it has no such
/// port, or where that is not one of TCP.
pub proof fn law_references_are_refused(
    services: Seq<ServiceObject>,
    namespace: Seq<char>,
    t: Target,
    s: ServiceObject,
    spec: ServiceSpec,
    ports: Vec<ServicePort>,
    wanted: PortName,
    p: ServicePort,
)
    ensures
        service_at(services, namespace, t.name) is None ==> service_port(services, namespace, t) == Err::<
            (ServiceObject, ServicePort),
            BackendProblem,
        >(BackendProblem::ServiceMissing),
        service_at(services, namespace, t.name) == Some(s) && s.spec == Some(spec) ==> {
            &&& text::opt(spec.type_) == Some("ExternalName"@) ==> service_port(services, namespace, t)
                == Err::<(ServiceObject, ServicePort), BackendProblem>(BackendProblem::ExternalName)
            &&& spec.type_ is None && t.port == Some(wanted) && spec.ports == Some(ports) ==> {
                &&& port_at(ports@, wanted) is None ==> service_port(services, namespace, t) == Err::<
                    (ServiceObject, ServicePort),
                    BackendProblem,
                >(BackendProblem::PortNotFound)
                &&& port_at(ports@, wanted) == Some(p) && text::opt(p.protocol) == Some("UDP"@)
                    ==> service_port(services, namespace, t) == Err::<
                    (ServiceObject, ServicePort),
                    BackendProblem,
                >(BackendProblem::NotTcp)
                &&& port_at(ports@, wanted) == Some(p) && p.protocol is None ==> service_port(
                    services,
                    namespace,
                    t,
                ) == Ok::<(ServiceObject, ServicePort), BackendProblem>((s, p))
            }
        },
{
    reveal_strlit("UDP");
    reveal_strlit("TCP");
    assert("UDP"@[0] != "TCP"@[0]);
}

/// A service is the one of that name in that namespace.
pub proof fn law_services_are_of_their_namespace(
    v: Seq<ServiceObject>,
    namespace: Seq<char>,
    name: Seq<char>,
    i: int,
)
    requires
        0 <= i < v.len(),
    ensures
        service_at(v, namespace, name) matches Some(s) ==> s.name@ == name && text::opt(s.namespace) == Some(
            namespace,
        ),
        v[i].name@ == name && text::opt(v[i].namespace) == Some(namespace) ==> service_at(v, namespace, name)
            is Some,
    decreases v.len(),
{
    let t = v.drop_first();
    if t.len() > 0 {
        let j = if i > 0 {
            i - 1
        } else {
            0
        };
        law_services_are_of_their_namespace(t, namespace, name, j);
        if i > 0 {
            assert(t[j] == v[i]);
        }
    } else {
        assert(service_at(t, namespace, name) is None);
    }
}

/// A backend is called by its service and the name of the port, or its number where it has none.
pub proof fn law_backends_are_called_by_service_and_port(name: Seq<char>, port: Seq<char>, n: i32)
    requires
        n >= 0,
    ensures
        alias_of(Target { name, port: Some(PortName { name: Some(port), number: None }) }) == name + ":"@ + port,
        alias_of(Target { name, port: Some(PortName { name: None, number: Some(n) }) }) == name + ":"@
            + text::decimal(n as nat),
{
}

/// A backend has its endpoints in equal shares and is asked without a secure connection, by the name of its
/// service in the cluster.
pub proof fn law_services_are_backends(name: Seq<char>, namespace: Seq<char>, v: Seq<Socket>, i: int)
    requires
        0 <= i < v.len(),
    ensures
        ({
            let b = plain_backend(name, namespace, v);
            &&& b.endpoints.len() == v.len() && b.endpoints[i] == (Endpoint { address: v[i], weight: 1 })
            &&& !b.tls && b.hostname == name + "."@ + namespace + ".svc"@ && b.host_header == b.hostname
            &&& b.options.balance == Spread::RoundRobin && b.options.max_inflight == 0 && b.options.health is None
            &&& b.ca_pem is None && !b.profile.http2 && b.profile.identity is None
        }),
{
}

/// A Service is asked for by its name within the cluster.
pub proof fn law_services_have_a_name_in_the_cluster(name: Seq<char>, namespace: Seq<char>)
    ensures
        cluster_name(name, namespace) == name + "."@ + namespace + ".svc"@,
        plain_backend(name, namespace, Seq::empty()).hostname == name + "."@ + namespace + ".svc"@,
        plain_backend(name, namespace, Seq::empty()).host_header == name + "."@ + namespace + ".svc"@,
        !plain_backend(name, namespace, Seq::empty()).tls,
{
}

} // verus!

//! The gateway that is served and its listeners.
use crate::config::load::Listener;
use crate::gateway::references::{CertificateError, Resources};
use crate::gateway::routes::{hostname_valid, valid_hostname};
use crate::gateway::status::Served;
use crate::json::Json;
use crate::net::Socket;
use crate::text;
use vstd::prelude::*;

verus! {

// ---------------------------------------------------------------------------
// The gateway
// ---------------------------------------------------------------------------

/// Whether a gateway is served, and whether what it and its class say can be carried out.
#[derive(Clone, Copy, Debug, PartialEq, Eq, Structural)]
pub enum Gate {
    Absent,
    /// The class is missing, or somebody else's.
    Foreign,
    Owned { class_valid: bool, gateway_valid: bool },
}

/// The members of a gateway that are understood.
pub open spec fn gateway_member(name: Seq<char>) -> bool {
    name == "gatewayClassName"@ || name == "listeners"@
}

/// The members of a listener that are understood.
pub open spec fn listener_member(name: Seq<char>) -> bool {
    name == "name"@ || name == "hostname"@ || name == "port"@ || name == "protocol"@ || name
        == "tls"@ || name == "allowedRoutes"@
}

pub open spec fn all_gateway_members(v: Seq<(String, Json)>) -> bool {
    forall|i: int| 0 <= i < v.len() ==> gateway_member((#[trigger] v[i]).0@)
}

pub open spec fn all_listener_members(v: Seq<(String, Json)>) -> bool {
    forall|i: int| 0 <= i < v.len() ==> listener_member((#[trigger] v[i]).0@)
}

/// The gateway that is served.
pub open spec fn gate_of(r: Resources, s: Served) -> Gate {
    match r.object("Gateway"@, s.namespace@, s.name@) {
        None => Gate::Absent,
        Some(g) => {
            let spec = g.data.at("spec"@);
            match r.object("GatewayClass"@, ""@, spec.string_or("gatewayClassName"@, ""@)) {
                None => Gate::Foreign,
                Some(c) => if c.data.at("spec"@).string_or("controllerName"@, ""@)
                    != s.controller@ {
                    Gate::Foreign
                } else {
                    let class_valid = c.data.at("spec"@).entry("parametersRef"@) is None;
                    Gate::Owned {
                        class_valid,
                        gateway_valid: class_valid && spec.members() is Some
                            && all_gateway_members(spec.members()->0),
                    }
                },
            }
        },
    }
}

fn are_gateway_members(v: &Vec<(String, Json)>) -> (r: bool)
    ensures
        r == all_gateway_members(v@),
{
    let mut i: usize = 0;
    while i < v.len()
        invariant
            i <= v.len(),
            forall|j: int| 0 <= j < i ==> gateway_member((#[trigger] v@[j]).0@),
        decreases v.len() - i,
    {
        let name = v[i].0.as_str();
        if !text::same(name, "gatewayClassName") && !text::same(name, "listeners") {
            assert(!gateway_member(v@[i as int].0@));
            return false;
        }
        i += 1;
    }
    true
}

fn are_listener_members(v: &Vec<(String, Json)>) -> (r: bool)
    ensures
        r == all_listener_members(v@),
{
    let mut i: usize = 0;
    while i < v.len()
        invariant
            i <= v.len(),
            forall|j: int| 0 <= j < i ==> listener_member((#[trigger] v@[j]).0@),
        decreases v.len() - i,
    {
        let name = v[i].0.as_str();
        if !text::same(name, "name") && !text::same(name, "hostname") && !text::same(name, "port")
            && !text::same(name, "protocol") && !text::same(name, "tls") && !text::same(
            name,
            "allowedRoutes",
        ) {
            assert(!listener_member(v@[i as int].0@));
            return false;
        }
        i += 1;
    }
    true
}

/// The gateway that is served.
pub fn gate(resources: &Resources, s: &Served) -> (r: Gate)
    ensures
        r == gate_of(*resources, *s),
{
    let g = match resources.find("Gateway", s.namespace.as_str(), s.name.as_str()) {
        None => return Gate::Absent,
        Some(g) => g,
    };
    let spec = g.data.field("spec");
    let c = match resources.find("GatewayClass", "", spec.text("gatewayClassName", "")) {
        None => return Gate::Foreign,
        Some(c) => c,
    };
    let class = c.data.field("spec");
    if !text::same(class.text("controllerName", ""), s.controller.as_str()) {
        return Gate::Foreign;
    }
    let class_valid = class.get("parametersRef").is_none();
    let known = match spec.as_object() {
        Some(v) => are_gateway_members(v),
        None => false,
    };
    Gate::Owned { class_valid, gateway_valid: class_valid && known }
}

// ---------------------------------------------------------------------------
// Its listeners
// ---------------------------------------------------------------------------

/// The ports at which the proxy is reached from outside.
#[derive(Clone, Copy, Debug, PartialEq, Eq, Structural)]
pub struct Ports {
    pub http: u16,
    pub https: u16,
}

/// The port of a listener.
pub open spec fn port_of(l: Json) -> nat {
    match l.at("port"@).number() {
        Some(n) => n,
        None => 0,
    }
}

pub open spec fn hostname_of(l: Json) -> Seq<char> {
    l.string_or("hostname"@, ""@)
}

/// Whether an address is the one of a listener.
pub open spec fn serves(a: Listener, l: Json, p: Ports) -> bool {
    let protocol = l.string_or("protocol"@, ""@);
    ||| (protocol == "HTTP"@ && !a.tls && port_of(l) == p.http)
    ||| (protocol == "HTTPS"@ && a.tls && port_of(l) == p.https)
}

/// The address of a listener: the first one that is for it.
pub open spec fn address_of(v: Seq<Listener>, l: Json, p: Ports) -> Option<Socket>
    decreases v.len(),
{
    if v.len() == 0 {
        None
    } else if serves(v[0], l, p) {
        Some(v[0].address)
    } else {
        address_of(v.drop_first(), l, p)
    }
}

/// Whether two listeners are for the same port and host.
pub open spec fn alike(a: Json, b: Json) -> bool {
    port_of(a) == port_of(b) && hostname_of(a) == hostname_of(b)
}

/// Whether a listener is unlike all before it.
pub open spec fn new_at(v: Seq<Json>, i: int) -> bool {
    forall|j: int| 0 <= j < i ==> !alike(#[trigger] v[j], v[i])
}

/// Whether what a listener says can be carried out, its certificate aside.
pub open spec fn sound(v: Seq<Json>, i: int, gateway_valid: bool, available: Seq<Listener>, p: Ports) -> bool {
    &&& gateway_valid
    &&& address_of(available, v[i], p) is Some
    &&& hostname_of(v[i]).len() == 0 || hostname_valid(hostname_of(v[i]))
    &&& v[i].members() is Some && all_listener_members(v[i].members()->0)
    &&& new_at(v, i)
}

/// A listener that was looked at.
#[derive(Clone, Copy, Debug, PartialEq, Eq, Structural)]
pub struct Examined {
    pub address: Option<Socket>,
    pub sound: bool,
    /// Whether it needs a certificate.
    pub secure: bool,
    /// Whether it is one without TLS that says something of TLS.
    pub contradictory: bool,
}

pub open spec fn examined(
    v: Seq<Json>,
    i: int,
    gateway_valid: bool,
    available: Seq<Listener>,
    p: Ports,
) -> Examined {
    let protocol = v[i].string_or("protocol"@, ""@);
    Examined {
        address: address_of(available, v[i], p),
        sound: sound(v, i, gateway_valid, available, p),
        secure: protocol == "HTTPS"@,
        contradictory: protocol == "HTTP"@ && v[i].entry("tls"@) is Some,
    }
}

fn port(l: &Json) -> (r: u64)
    ensures
        r == port_of(*l),
{
    match l.field("port").as_u64() {
        Some(n) => n,
        None => 0,
    }
}

fn find_address(v: &Vec<Listener>, l: &Json, p: Ports) -> (r: Option<Socket>)
    ensures
        r == address_of(v@, *l, p),
{
    let protocol = l.text("protocol", "");
    let plain = text::same(protocol, "HTTP");
    let secure = text::same(protocol, "HTTPS");
    let n = port(l);
    let mut i: usize = 0;
    assert(v@.skip(0) =~= v@);
    while i < v.len()
        invariant
            i <= v.len(),
            protocol@ == l.string_or("protocol"@, ""@),
            plain == (protocol@ == "HTTP"@),
            secure == (protocol@ == "HTTPS"@),
            n == port_of(*l),
            address_of(v@.skip(i as int), *l, p) == address_of(v@, *l, p),
        decreases v.len() - i,
    {
        assert(v@.skip(i as int).drop_first() =~= v@.skip(i + 1));
        assert(v@.skip(i as int)[0] == v@[i as int]);
        if (plain && !v[i].tls && n == p.http as u64) || (secure && v[i].tls && n
            == p.https as u64) {
            return Some(v[i].address);
        }
        i += 1;
    }
    None
}

fn is_new(v: &Vec<Json>, at: usize) -> (r: bool)
    requires
        at < v@.len(),
    ensures
        r == new_at(v@, at as int),
{
    let n = port(&v[at]);
    let host = v[at].text("hostname", "");
    let mut i: usize = 0;
    while i < at
        invariant
            i <= at < v@.len(),
            n == port_of(v@[at as int]),
            host@ == hostname_of(v@[at as int]),
            forall|j: int| 0 <= j < i ==> !alike(#[trigger] v@[j], v@[at as int]),
        decreases at - i,
    {
        if port(&v[i]) == n && text::same(v[i].text("hostname", ""), host) {
            assert(alike(v@[i as int], v@[at as int]));
            return false;
        }
        i += 1;
    }
    true
}

/// Looks at the listeners of a gateway.
pub fn examine(v: &Vec<Json>, gateway_valid: bool, available: &Vec<Listener>, p: Ports) -> (out: Vec<
    Examined,
>)
    ensures
        out@ == Seq::new(v@.len(), |i: int| examined(v@, i, gateway_valid, available@, p)),
{
    let mut out: Vec<Examined> = Vec::new();
    let mut i: usize = 0;
    while i < v.len()
        invariant
            i <= v.len(),
            out@ =~= Seq::new(i as nat, |i: int| examined(v@, i, gateway_valid, available@, p)),
        decreases v.len() - i,
    {
        let l = &v[i];
        let address = find_address(available, l, p);
        let host = l.text("hostname", "");
        let known = match l.as_object() {
            Some(m) => are_listener_members(m),
            None => false,
        };
        let fresh = is_new(v, i);
        let protocol = l.text("protocol", "");
        out.push(
            Examined {
                address,
                sound: gateway_valid && address.is_some() && (host.is_empty() || valid_hostname(
                    host,
                )) && known && fresh,
                secure: text::same(protocol, "HTTPS"),
                contradictory: text::same(protocol, "HTTP") && l.get("tls").is_some(),
            },
        );
        i += 1;
    }
    out
}

/// Why a listener is accepted or not.
#[derive(Clone, Copy, Debug, PartialEq, Eq, Structural)]
pub enum Explanation {
    Accepted,
    Unsupported,
    Certificate(CertificateError),
    HttpWithTls,
}

/// Whether the certificate of a listener could be had.
#[derive(Clone, Copy, Debug, PartialEq, Eq, Structural)]
pub enum References {
    Resolved,
    NotPermitted,
    Invalid,
}

impl References {
    pub open spec fn spec_text(self) -> Seq<char> {
        match self {
            References::Resolved => "ResolvedRefs"@,
            References::NotPermitted => "RefNotPermitted"@,
            References::Invalid => "InvalidCertificateRef"@,
        }
    }

    pub fn text(&self) -> (r: &'static str)
        ensures
            r@ == self.spec_text(),
    {
        match self {
            References::Resolved => "ResolvedRefs",
            References::NotPermitted => "RefNotPermitted",
            References::Invalid => "InvalidCertificateRef",
        }
    }
}

/// What becomes of a listener.
#[derive(Clone, Copy, Debug, PartialEq, Eq, Structural)]
pub struct Fate {
    pub valid: bool,
    pub why: Explanation,
    pub references: References,
}

impl Fate {
    pub open spec fn spec_reason(self) -> Seq<char> {
        match self.why {
            Explanation::Accepted => "Accepted"@,
            Explanation::Certificate(_) => "Invalid"@,
            _ => "UnsupportedValue"@,
        }
    }

    /// The reason that is reported.
    pub fn reason(&self) -> (r: &'static str)
        ensures
            r@ == self.spec_reason(),
    {
        match self.why {
            Explanation::Accepted => "Accepted",
            Explanation::Certificate(_) => "Invalid",
            _ => "UnsupportedValue",
        }
    }
}

/// What becomes of a listener; `certificate` says what became of its certificate, and only counts where
/// it needs one.
pub open spec fn fate_of(e: Examined, certificate: Result<(), CertificateError>) -> Fate {
    let first = if e.sound && e.secure && certificate is Err {
        Fate {
            valid: false,
            why: Explanation::Certificate(certificate->Err_0),
            references: if certificate->Err_0 == CertificateError::NotPermitted {
                References::NotPermitted
            } else {
                References::Invalid
            },
        }
    } else {
        Fate {
            valid: e.sound,
            why: if e.sound {
                Explanation::Accepted
            } else {
                Explanation::Unsupported
            },
            references: References::Resolved,
        }
    };
    if e.contradictory {
        Fate { valid: false, why: Explanation::HttpWithTls, ..first }
    } else {
        first
    }
}

/// What becomes of a listener.
pub fn fate(e: Examined, certificate: Result<(), CertificateError>) -> (r: Fate)
    ensures
        r == fate_of(e, certificate),
{
    let mut r = Fate {
        valid: e.sound,
        why: if e.sound {
            Explanation::Accepted
        } else {
            Explanation::Unsupported
        },
        references: References::Resolved,
    };
    if e.sound && e.secure {
        if let Err(error) = certificate {
            r = Fate {
                valid: false,
                why: Explanation::Certificate(error),
                references: if error.forbidden() {
                    References::NotPermitted
                } else {
                    References::Invalid
                },
            };
        }
    }
    if e.contradictory {
        r.valid = false;
        r.why = Explanation::HttpWithTls;
    }
    r
}

// ---------------------------------------------------------------------------
// Whether the gateway is ready
// ---------------------------------------------------------------------------

/// Whether the gateway carries out what it is told.
#[derive(Clone, Copy, Debug, PartialEq, Eq, Structural)]
pub enum Programmed {
    Programmed,
    /// Scripts that were accepted before are not there yet.
    Pending,
    /// No listener is valid.
    Invalid,
}

impl Programmed {
    pub open spec fn spec_text(self) -> Seq<char> {
        match self {
            Programmed::Programmed => "Programmed"@,
            Programmed::Pending => "Pending"@,
            Programmed::Invalid => "Invalid"@,
        }
    }

    pub fn text(&self) -> (r: &'static str)
        ensures
            r@ == self.spec_text(),
    {
        match self {
            Programmed::Programmed => "Programmed",
            Programmed::Pending => "Pending",
            Programmed::Invalid => "Invalid",
        }
    }
}

/// Whether a listener that has an address is valid.
pub open spec fn some_valid(e: Seq<Examined>, f: Seq<Fate>) -> bool {
    exists|i: int| 0 <= i < f.len() && (#[trigger] f[i]).valid && e[i].address is Some
}

/// Whether the gateway carries out what it is told; `was_ready` says whether it did before, and `pending`
/// whether scripts that were accepted before are not there yet.
pub fn programmed(e: &Vec<Examined>, f: &Vec<Fate>, was_ready: bool, pending: bool) -> (r: Programmed)
    requires
        e@.len() == f@.len(),
    ensures
        r == if !some_valid(e@, f@) {
            Programmed::Invalid
        } else if was_ready || !pending {
            Programmed::Programmed
        } else {
            Programmed::Pending
        },
{
    let mut i: usize = 0;
    while i < f.len()
        invariant
            i <= f.len(),
            e@.len() == f@.len(),
            forall|j: int| 0 <= j < i ==> !((#[trigger] f@[j]).valid && e@[j].address is Some),
        decreases f.len() - i,
    {
        if f[i].valid && e[i].address.is_some() {
            assert(some_valid(e@, f@));
            return if was_ready || !pending {
                Programmed::Programmed
            } else {
                Programmed::Pending
            };
        }
        i += 1;
    }
    Programmed::Invalid
}

// ---------------------------------------------------------------------------
// Laws
// ---------------------------------------------------------------------------

/// Of listeners for the same port and host, only the first can be valid.
pub proof fn law_listeners_are_unique(
    v: Seq<Json>,
    a: int,
    b: int,
    gateway_valid: bool,
    available: Seq<Listener>,
    p: Ports,
    certificate: Result<(), CertificateError>,
)
    requires
        0 <= a < b < v.len(),
        alike(v[a], v[b]),
    ensures
        !fate_of(examined(v, b, gateway_valid, available, p), certificate).valid,
{
    assert(!new_at(v, b));
}

/// A listener with TLS and without a certificate is not valid.
pub proof fn law_secure_listeners_have_certificates(e: Examined, error: CertificateError)
    requires
        e.secure,
    ensures
        !fate_of(e, Err(error)).valid,
{
}

/// A Gateway is served where it is there and its class is this controller's; parameters and members that are
/// not known make it invalid.
pub proof fn law_gateways_are_of_their_class(
    r: Resources,
    s: Served,
    g: crate::gateway::references::Object,
    c: crate::gateway::references::Object,
)
    ensures
        r.object("Gateway"@, s.namespace@, s.name@) is None ==> gate_of(r, s) == Gate::Absent,
        r.object("Gateway"@, s.namespace@, s.name@) == Some(g) ==> {
            let class = g.data.at("spec"@).string_or("gatewayClassName"@, ""@);
            &&& r.object("GatewayClass"@, ""@, class) is None ==> gate_of(r, s) == Gate::Foreign
            &&& r.object("GatewayClass"@, ""@, class) == Some(c) ==> {
                let name = c.data.at("spec"@).string_or("controllerName"@, ""@);
                &&& name != s.controller@ ==> gate_of(r, s) == Gate::Foreign
                &&& name == s.controller@ ==> gate_of(r, s) is Owned
                &&& name == s.controller@ && c.data.at("spec"@).entry("parametersRef"@) is Some ==> gate_of(r, s)
                    == (Gate::Owned { class_valid: false, gateway_valid: false })
            }
        },
{
}

/// A listener is served at an address of its protocol and port.
pub proof fn law_listeners_are_served_at_their_port(a: Listener, l: Json, p: Ports)
    ensures
        l.string_or("protocol"@, ""@) == "HTTP"@ ==> (serves(a, l, p) <==> !a.tls && port_of(l) == p.http),
        l.string_or("protocol"@, ""@) == "HTTPS"@ ==> (serves(a, l, p) <==> a.tls && port_of(l) == p.https),
        l.string_or("protocol"@, ""@) != "HTTP"@ && l.string_or("protocol"@, ""@) != "HTTPS"@ ==> !serves(
            a,
            l,
            p,
        ),
{
    reveal_strlit("HTTP");
    reveal_strlit("HTTPS");
    assert("HTTP"@.len() != "HTTPS"@.len());
}

/// The address of a listener is that of one that serves it, and there is one where one does.
pub proof fn law_addresses_serve_their_listener(v: Seq<Listener>, l: Json, p: Ports, i: int)
    requires
        0 <= i < v.len(),
    ensures
        serves(v[i], l, p) ==> address_of(v, l, p) is Some,
        address_of(v, l, p) is Some ==> exists|j: int|
            0 <= j < v.len() && serves(#[trigger] v[j], l, p) && address_of(v, l, p) == Some(v[j].address),
    decreases v.len(),
{
    let t = v.drop_first();
    if serves(v[0], l, p) {
    } else if t.len() > 0 {
        let k = if i > 0 {
            i - 1
        } else {
            0
        };
        assert(i > 0 ==> t[k] == v[i]);
        law_addresses_serve_their_listener(t, l, p, k);
        if address_of(t, l, p) is Some {
            let j = choose|j: int|
                0 <= j < t.len() && serves(#[trigger] t[j], l, p) && address_of(t, l, p) == Some(t[j].address);
            assert(v[j + 1] == t[j]);
        }
    } else {
        assert(address_of(t, l, p) is None);
    }
}

/// A listener is valid where it is sound, its certificate holds if it needs one, and it does not speak of TLS
/// without it.
pub proof fn law_sound_listeners_are_valid(e: Examined, error: CertificateError)
    ensures
        e.sound && !e.contradictory ==> fate_of(e, Ok(())) == (Fate {
            valid: true,
            why: Explanation::Accepted,
            references: References::Resolved,
        }),
        e.sound && !e.secure && !e.contradictory ==> fate_of(e, Err(error)).valid,
        !e.sound ==> !fate_of(e, Ok(())).valid && !fate_of(e, Err(error)).valid,
        e.contradictory ==> fate_of(e, Ok(())).why == Explanation::HttpWithTls && !fate_of(e, Ok(())).valid,
        e.sound && e.secure && !e.contradictory ==> {
            &&& fate_of(e, Err(error)).why == Explanation::Certificate(error)
            &&& fate_of(e, Err(CertificateError::NotPermitted)).references == References::NotPermitted
            &&& fate_of(e, Err(CertificateError::SecretMissing)).references == References::Invalid
        },
{
}

/// A listener is sound where its Gateway is valid, it has an address, its host is one, it holds no other
/// members and none before it is alike.
pub proof fn law_sound_listeners(v: Seq<Json>, i: int, gateway_valid: bool, available: Seq<Listener>, p: Ports)
    ensures
        sound(v, i, gateway_valid, available, p) ==> gateway_valid && address_of(available, v[i], p) is Some
            && new_at(v, i),
        hostname_of(v[i]).len() > 0 && !hostname_valid(hostname_of(v[i])) ==> !sound(
            v,
            i,
            gateway_valid,
            available,
            p,
        ),
        v[i].members() is None ==> !sound(v, i, gateway_valid, available, p),
        examined(v, i, gateway_valid, available, p).sound == sound(v, i, gateway_valid, available, p),
        examined(v, i, gateway_valid, available, p).secure <==> v[i].string_or("protocol"@, ""@) == "HTTPS"@,
        examined(v, i, gateway_valid, available, p).address == address_of(available, v[i], p),
{
}

/// A Gateway has something to serve where a valid listener has an address.
pub proof fn law_valid_listeners_serve(e: Seq<Examined>, f: Seq<Fate>, i: int)
    ensures
        0 <= i < f.len() && f[i].valid && e[i].address is Some ==> some_valid(e, f),
        (forall|k: int| 0 <= k < f.len() ==> !((#[trigger] f[k]).valid && e[k].address is Some)) ==> !some_valid(e, f),
{
}

} // verus!

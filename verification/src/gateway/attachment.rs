//! How routes attach to the listeners of a gateway, and how their rules reach backends.
use crate::gateway::references::{allowed_by, allows, permitted, permitted_by, Resources};
use crate::gateway::routes::{common, intersect, weighted};
use crate::gateway::spec::{first_mirror, BackendRef, Reference, Rule};
use crate::gateway::status::Served;
use crate::gateway::tls_policy::empty_or;
use crate::json::Json;
use crate::text;
use vstd::prelude::*;

verus! {

// ---------------------------------------------------------------------------
// Parents
// ---------------------------------------------------------------------------

fn or_else<'a>(s: &'a Option<String>, fallback: &'a str) -> (r: &'a str)
    ensures
        r@ == empty_or(text::opt(*s), fallback@),
{
    match s {
        Some(s) => s.as_str(),
        None => fallback,
    }
}

/// Whether a route in a namespace refers to the gateway that is served.
pub open spec fn targets(parent: Reference, ns: Seq<char>, s: Served) -> bool {
    &&& empty_or(text::opt(parent.group), "gateway.networking.k8s.io"@)
        == "gateway.networking.k8s.io"@
    &&& empty_or(text::opt(parent.kind), "Gateway"@) == "Gateway"@
    &&& empty_or(text::opt(parent.namespace), ns) == s.namespace@
    &&& parent.name@ == s.name@
}

/// Whether a route in a namespace refers to the gateway that is served.
pub fn parent_targets(parent: &Reference, ns: &str, s: &Served) -> (r: bool)
    ensures
        r == targets(*parent, ns@, *s),
{
    text::same(or_else(&parent.group, "gateway.networking.k8s.io"), "gateway.networking.k8s.io")
        && text::same(or_else(&parent.kind, "Gateway"), "Gateway") && text::same(
        or_else(&parent.namespace, ns),
        s.namespace.as_str(),
    ) && text::same(parent.name.as_str(), s.name.as_str())
}

/// Whether a reference of a route is to a listener.
pub open spec fn meant(parent: Reference, l: Json) -> bool {
    &&& parent.section_name is None || parent.section_name->0@ == l.string_or("name"@, ""@)
    &&& parent.port is None || l.at("port"@).number() == Some(parent.port->0 as nat)
}

fn is_meant(parent: &Reference, l: &Json) -> (r: bool)
    ensures
        r == meant(*parent, *l),
{
    let named = match &parent.section_name {
        Some(s) => text::same(s.as_str(), l.text("name", "")),
        None => true,
    };
    let numbered = match parent.port {
        Some(p) => match l.field("port").as_u64() {
            Some(n) => n == p as u64,
            None => false,
        },
        None => true,
    };
    named && numbered
}

/// A listener that has an address: its place, and whether it is valid.
#[derive(Clone, Copy, Debug, PartialEq, Eq, Structural)]
pub struct Active {
    pub listener: usize,
    pub valid: bool,
}

/// Why a route is attached or not.
#[derive(Clone, Copy, Debug, PartialEq, Eq, Structural)]
pub enum Attachment {
    NoMatchingParent,
    NotAllowed,
    NoMatchingHostname,
    Attached,
}

impl Attachment {
    pub open spec fn spec_text(self, failed: bool) -> Seq<char> {
        match self {
            Attachment::NoMatchingParent => "NoMatchingParent"@,
            Attachment::NotAllowed => "NotAllowedByListeners"@,
            Attachment::NoMatchingHostname => "NoMatchingListenerHostname"@,
            Attachment::Attached => if failed {
                "UnsupportedValue"@
            } else {
                "Accepted"@
            },
        }
    }

    /// The reason that is reported; `failed` says whether the policies of the route cannot be carried out.
    pub fn text(&self, failed: bool) -> (r: &'static str)
        ensures
            r@ == self.spec_text(failed),
    {
        match self {
            Attachment::NoMatchingParent => "NoMatchingParent",
            Attachment::NotAllowed => "NotAllowedByListeners",
            Attachment::NoMatchingHostname => "NoMatchingListenerHostname",
            Attachment::Attached => if failed {
                "UnsupportedValue"
            } else {
                "Accepted"
            },
        }
    }
}

/// The host names of a route; one without any is for all.
pub open spec fn route_hosts(v: Seq<Seq<char>>) -> Seq<Seq<char>> {
    if v.len() == 0 {
        seq![Seq::empty()]
    } else {
        v
    }
}

/// The hosts that a route and a listener have in common.
pub open spec fn shared_hosts(v: Seq<Seq<char>>, listener: Seq<char>) -> Seq<Seq<char>>
    decreases v.len(),
{
    if v.len() == 0 {
        Seq::empty()
    } else {
        let before = shared_hosts(v.drop_last(), listener);
        match common(listener, v.last()) {
            Some(h) => before.push(h),
            None => before,
        }
    }
}

/// What becomes of a route at a listener.
pub open spec fn attached_at(
    r: Resources,
    parent: Reference,
    l: Json,
    valid: bool,
    gateway_ns: Seq<char>,
    ns: Seq<char>,
    kind: Seq<char>,
    hostnames: Seq<Seq<char>>,
) -> Attachment {
    if !meant(parent, l) {
        Attachment::NoMatchingParent
    } else if !valid || !allowed_by(r, l, gateway_ns, ns, kind) {
        Attachment::NotAllowed
    } else if shared_hosts(route_hosts(hostnames), l.string_or("hostname"@, ""@)).len() == 0 {
        Attachment::NoMatchingHostname
    } else {
        Attachment::Attached
    }
}

/// What becomes of a route at the first listeners: what the last one that it refers to made of it, and
/// where it is attached.
pub open spec fn attached_all(
    r: Resources,
    parent: Reference,
    v: Seq<Json>,
    active: Seq<Active>,
    gateway_ns: Seq<char>,
    ns: Seq<char>,
    kind: Seq<char>,
    hostnames: Seq<Seq<char>>,
) -> (Attachment, Seq<int>)
    decreases active.len(),
{
    if active.len() == 0 {
        (Attachment::NoMatchingParent, Seq::empty())
    } else {
        let (why, places) = attached_all(
            r,
            parent,
            v,
            active.drop_last(),
            gateway_ns,
            ns,
            kind,
            hostnames,
        );
        let a = active.last();
        match attached_at(
            r,
            parent,
            v[a.listener as int],
            a.valid,
            gateway_ns,
            ns,
            kind,
            hostnames,
        ) {
            Attachment::NoMatchingParent => (why, places),
            Attachment::Attached => (Attachment::Attached, places.push(active.len() - 1)),
            other => (other, places),
        }
    }
}

/// The hosts that a route and a listener have in common.
pub fn hosts_at(hostnames: &Vec<String>, l: &Json) -> (out: Vec<String>)
    ensures
        text::texts(out@) == shared_hosts(
            route_hosts(text::texts(hostnames@)),
            l.string_or("hostname"@, ""@),
        ),
{
    let listener = l.text("hostname", "");
    let mut out: Vec<String> = Vec::new();
    if hostnames.len() == 0 {
        let ghost one = route_hosts(text::texts(hostnames@));
        proof {
            reveal_strlit("");
            assert(""@ =~= Seq::<char>::empty());
            assert(one.drop_last() =~= Seq::empty());
            assert(shared_hosts(one.drop_last(), listener@) =~= Seq::empty());
            assert(one.last() =~= ""@);
        }
        if let Some(h) = intersect(listener, "") {
            let ghost x = h@;
            out.push(h);
            assert(text::texts(out@) =~= Seq::<Seq<char>>::empty().push(x));
        } else {
            assert(text::texts(out@) =~= Seq::empty());
        }
        return out;
    }
    let ghost all = text::texts(hostnames@);
    let mut i: usize = 0;
    assert(text::texts(out@) =~= shared_hosts(all.take(0), listener@));
    while i < hostnames.len()
        invariant
            i <= hostnames.len(),
            all == text::texts(hostnames@),
            text::texts(out@) == shared_hosts(all.take(i as int), listener@),
        decreases hostnames.len() - i,
    {
        let ghost before = text::texts(out@);
        proof {
            assert(all.take(i + 1).drop_last() =~= all.take(i as int));
            assert(all.take(i + 1).last() == hostnames@[i as int]@);
        }
        if let Some(h) = intersect(listener, hostnames[i].as_str()) {
            let ghost x = h@;
            out.push(h);
            assert(text::texts(out@) =~= before.push(x));
        }
        i += 1;
    }
    assert(all.take(i as int) =~= all);
    out
}

fn attach_at(
    resources: &Resources,
    parent: &Reference,
    l: &Json,
    valid: bool,
    gateway_ns: &str,
    ns: &str,
    kind: &str,
    hostnames: &Vec<String>,
) -> (r: Attachment)
    ensures
        r == attached_at(
            *resources,
            *parent,
            *l,
            valid,
            gateway_ns@,
            ns@,
            kind@,
            text::texts(hostnames@),
        ),
{
    if !is_meant(parent, l) {
        return Attachment::NoMatchingParent;
    }
    if !valid || !allows(resources, l, gateway_ns, ns, kind) {
        return Attachment::NotAllowed;
    }
    let hosts = hosts_at(hostnames, l);
    assert(text::texts(hosts@).len() == hosts@.len());
    if hosts.len() == 0 {
        Attachment::NoMatchingHostname
    } else {
        Attachment::Attached
    }
}

pub open spec fn places(v: Seq<usize>) -> Seq<int> {
    Seq::new(v.len(), |i: int| v[i] as int)
}

/// What becomes of a route that refers to the gateway, and at which of the active listeners it is.
pub fn attach(
    resources: &Resources,
    parent: &Reference,
    v: &Vec<Json>,
    active: &Vec<Active>,
    gateway_ns: &str,
    ns: &str,
    kind: &str,
    hostnames: &Vec<String>,
) -> (r: (Attachment, Vec<usize>))
    requires
        forall|i: int| 0 <= i < active@.len() ==> (#[trigger] active@[i]).listener < v@.len(),
    ensures
        (r.0, places(r.1@)) == attached_all(
            *resources,
            *parent,
            v@,
            active@,
            gateway_ns@,
            ns@,
            kind@,
            text::texts(hostnames@),
        ),
{
    let ghost hosts = text::texts(hostnames@);
    let mut why = Attachment::NoMatchingParent;
    let mut out: Vec<usize> = Vec::new();
    let mut i: usize = 0;
    assert(places(out@) =~= Seq::empty());
    while i < active.len()
        invariant
            i <= active.len(),
            hosts == text::texts(hostnames@),
            forall|i: int| 0 <= i < active@.len() ==> (#[trigger] active@[i]).listener < v@.len(),
            (why, places(out@)) == attached_all(
                *resources,
                *parent,
                v@,
                active@.take(i as int),
                gateway_ns@,
                ns@,
                kind@,
                hosts,
            ),
        decreases active.len() - i,
    {
        let ghost before = places(out@);
        proof {
            assert(active@.take(i + 1).drop_last() =~= active@.take(i as int));
            assert(active@.take(i + 1).last() == active@[i as int]);
        }
        let a = active[i];
        match attach_at(
            resources,
            parent,
            &v[a.listener],
            a.valid,
            gateway_ns,
            ns,
            kind,
            hostnames,
        ) {
            Attachment::NoMatchingParent => {},
            Attachment::Attached => {
                why = Attachment::Attached;
                out.push(i);
                assert(places(out@) =~= before.push(i as int));
            },
            other => {
                why = other;
            },
        }
        i += 1;
    }
    assert(active@.take(i as int) =~= active@);
    (why, out)
}

// ---------------------------------------------------------------------------
// Backends
// ---------------------------------------------------------------------------

/// Why a backend cannot be used.
#[derive(Clone, Copy, Debug, PartialEq, Eq, Structural)]
pub enum RefError {
    InvalidKind,
    NotPermitted,
    Unsupported,
    NotFound,
    Authority,
    Protocol,
}

impl RefError {
    pub open spec fn spec_text(self) -> Seq<char> {
        match self {
            RefError::InvalidKind => "InvalidKind"@,
            RefError::NotPermitted => "RefNotPermitted"@,
            RefError::Unsupported => "UnsupportedValue"@,
            RefError::NotFound => "BackendNotFound"@,
            RefError::Authority => "InvalidCACertificateRef"@,
            RefError::Protocol => "UnsupportedProtocol"@,
        }
    }

    pub fn text(&self) -> (r: &'static str)
        ensures
            r@ == self.spec_text(),
    {
        match self {
            RefError::InvalidKind => "InvalidKind",
            RefError::NotPermitted => "RefNotPermitted",
            RefError::Unsupported => "UnsupportedValue",
            RefError::NotFound => "BackendNotFound",
            RefError::Authority => "InvalidCACertificateRef",
            RefError::Protocol => "UnsupportedProtocol",
        }
    }
}

/// Whether a backend can be referred to by a route of a kind in a namespace.
pub open spec fn reference_checked(r: Resources, b: BackendRef, ns: Seq<char>, kind: Seq<char>) -> Result<
    (),
    RefError,
> {
    if empty_or(text::opt(b.group), ""@) != ""@ || empty_or(text::opt(b.kind), "Service"@)
        != "Service"@ {
        Err(RefError::InvalidKind)
    } else if !permitted_by(
        r.all("ReferenceGrant"@),
        ns,
        kind,
        empty_or(text::opt(b.namespace), ns),
        "Service"@,
        b.name@,
    ) {
        Err(RefError::NotPermitted)
    } else if b.filters@.len() > 0 || b.port is None {
        Err(RefError::Unsupported)
    } else {
        Ok(())
    }
}

/// Whether a backend can be referred to by a route of a kind in a namespace.
pub fn check_reference(resources: &Resources, b: &BackendRef, ns: &str, kind: &str) -> (r: Result<
    (),
    RefError,
>)
    ensures
        r == reference_checked(*resources, *b, ns@, kind@),
{
    if !text::same(or_else(&b.group, ""), "") || !text::same(or_else(&b.kind, "Service"), "Service") {
        return Err(RefError::InvalidKind);
    }
    if !permitted(resources, ns, kind, or_else(&b.namespace, ns), "Service", b.name.as_str()) {
        return Err(RefError::NotPermitted);
    }
    if b.filters.len() > 0 || b.port.is_none() {
        return Err(RefError::Unsupported);
    }
    Ok(())
}

/// How a backend is spoken to.
#[derive(Clone, Copy, Debug, PartialEq, Eq, Structural)]
pub enum Speech {
    /// As the route says.
    Route,
    Http2,
}

/// Whether a backend that may be referred to can be used: the service has to be there, the policy on TLS
/// has to be valid, and the protocol of the port has to be known.
pub open spec fn service_checked(found: bool, trusted: bool, tls: bool, protocol: Option<Seq<char>>) -> Result<
    Speech,
    RefError,
> {
    if !found {
        Err(RefError::NotFound)
    } else if !trusted {
        Err(RefError::Authority)
    } else {
        match protocol {
            None => Ok(Speech::Route),
            Some(p) => if p == "http"@ || p == "kubernetes.io/ws"@ || (p == "https"@ && tls) {
                Ok(Speech::Route)
            } else if p == "kubernetes.io/h2c"@ {
                Ok(Speech::Http2)
            } else {
                Err(RefError::Protocol)
            },
        }
    }
}

/// Whether a backend that may be referred to can be used.
pub fn check_service(found: bool, trusted: bool, tls: bool, protocol: Option<&str>) -> (r: Result<
    Speech,
    RefError,
>)
    ensures
        r == service_checked(
            found,
            trusted,
            tls,
            match protocol {
                Some(s) => Some(s@),
                None => None,
            },
        ),
{
    if !found {
        return Err(RefError::NotFound);
    }
    if !trusted {
        return Err(RefError::Authority);
    }
    match protocol {
        None => Ok(Speech::Route),
        Some(p) => if text::same(p, "http") || text::same(p, "kubernetes.io/ws") || (text::same(
            p,
            "https",
        ) && tls) {
            Ok(Speech::Route)
        } else if text::same(p, "kubernetes.io/h2c") {
            Ok(Speech::Http2)
        } else {
            Err(RefError::Protocol)
        },
    }
}

/// A name in a namespace, with a port.
pub open spec fn address_of(ns: Seq<char>, b: BackendRef) -> Seq<char> {
    ns + "/"@ + named(b)
}

pub open spec fn named(b: BackendRef) -> Seq<char> {
    b.name@ + ":"@ + text::decimal(
        match b.port {
            Some(p) => p as nat,
            None => 0,
        },
    )
}

/// What a backend of a route is known by.
pub open spec fn key_of(uid: Seq<char>, ns: Seq<char>, b: BackendRef) -> Seq<char> {
    "gateway:"@ + uid + ":"@ + address_of(ns, b)
}

fn name_of(b: &BackendRef) -> (out: String)
    ensures
        out@ == named(*b),
{
    let p: u64 = match b.port {
        Some(p) => p as u64,
        None => 0,
    };
    text::concat3(b.name.as_str(), ":", text::decimal_string(p).as_str())
}

pub(crate) fn address(ns: &str, b: &BackendRef) -> (out: String)
    ensures
        out@ == address_of(ns@, *b),
{
    text::concat3(ns, "/", name_of(b).as_str())
}

/// What a backend of a route is known by.
pub fn key(uid: &str, ns: &str, b: &BackendRef) -> (out: String)
    ensures
        out@ == key_of(uid@, ns@, *b),
{
    let head = text::concat3("gateway:", uid, ":");
    text::concat(head.as_str(), address(ns, b).as_str())
}

/// What the backends of a rule amount to: those that requests are spread over by weight, those that scripts
/// may choose, the one that gets copies, and what is wrong.
#[derive(Debug)]
pub struct Bound {
    pub weights: Vec<(Option<String>, u32)>,
    pub bindings: Vec<(String, String)>,
    pub mirror: Option<String>,
    pub problem: Option<RefError>,
}

/// What a `Bound` holds.
#[verifier::ext_equal]
pub ghost struct Links {
    pub weights: Seq<(Option<Seq<char>>, u32)>,
    pub bindings: Seq<(Seq<char>, Seq<char>)>,
    pub mirror: Option<Seq<char>>,
    pub problem: Option<RefError>,
}

impl View for Bound {
    type V = Links;

    open spec fn view(&self) -> Links {
        Links {
            weights: weighted(self.weights@),
            bindings: text::pairs(self.bindings@),
            mirror: text::opt(self.mirror),
            problem: self.problem,
        }
    }
}

pub open spec fn no_links() -> Links {
    Links { weights: Seq::empty(), bindings: Seq::empty(), mirror: None, problem: None }
}

pub open spec fn weight_of(b: BackendRef) -> u32 {
    match b.weight {
        Some(n) => n,
        None => 1,
    }
}

/// What it amounts to with one more backend; `mirrored` says whether it is the one that gets copies.
pub open spec fn with_backend(
    l: Links,
    b: BackendRef,
    mirrored: bool,
    outcome: Option<RefError>,
    uid: Seq<char>,
    ns: Seq<char>,
    traffic: bool,
) -> Links {
    let weight = weight_of(b);
    let home = empty_or(text::opt(b.namespace), ns);
    let key = key_of(uid, home, b);
    if weight == 0 && !traffic && !mirrored {
        l
    } else {
        match outcome {
            Some(e) => Links {
                problem: Some(e),
                weights: if mirrored {
                    l.weights
                } else {
                    l.weights.push((None, weight))
                },
                ..l
            },
            None => if mirrored {
                Links { mirror: Some(key), ..l }
            } else {
                let wide = text::put(l.bindings, address_of(home, b), key);
                Links {
                    bindings: if home == ns {
                        text::put(wide, named(b), key)
                    } else {
                        wide
                    },
                    weights: l.weights.push((Some(key), weight)),
                    ..l
                }
            },
        }
    }
}

/// What the first backends amount to; the outcome for each says why it cannot be used.
pub open spec fn links_of(
    v: Seq<BackendRef>,
    outcomes: Seq<Option<RefError>>,
    uid: Seq<char>,
    ns: Seq<char>,
    traffic: bool,
) -> Links
    decreases v.len(),
{
    if v.len() == 0 {
        no_links()
    } else {
        with_backend(
            links_of(v.drop_last(), outcomes, uid, ns, traffic),
            v.last(),
            false,
            outcomes[v.len() - 1],
            uid,
            ns,
            traffic,
        )
    }
}

/// What the backends of a rule amount to, that of the mirror at the end.
pub open spec fn rule_links(
    r: Rule,
    outcomes: Seq<Option<RefError>>,
    uid: Seq<char>,
    ns: Seq<char>,
    traffic: bool,
) -> Links {
    let l = links_of(r.backend_refs@, outcomes, uid, ns, traffic);
    match first_mirror(r.filters@) {
        Some(m) => with_backend(
            l,
            m.backend_ref,
            true,
            outcomes[r.backend_refs@.len() as int],
            uid,
            ns,
            traffic,
        ),
        None => l,
    }
}

fn add_backend(
    l: &mut Bound,
    b: &BackendRef,
    mirrored: bool,
    outcome: Option<RefError>,
    uid: &str,
    ns: &str,
    traffic: bool,
)
    ensures
        final(l)@ == with_backend(old(l)@, *b, mirrored, outcome, uid@, ns@, traffic),
{
    let weight: u32 = match b.weight {
        Some(n) => n,
        None => 1,
    };
    if weight == 0 && !traffic && !mirrored {
        return;
    }
    let ghost before = l@;
    if let Some(e) = outcome {
        l.problem = Some(e);
        if !mirrored {
            l.weights.push((None, weight));
            assert(l@.weights =~= before.weights.push((None, weight)));
        }
        return;
    }
    let home = or_else(&b.namespace, ns);
    let k = key(uid, home, b);
    if mirrored {
        l.mirror = Some(k);
        return;
    }
    let ghost x = k@;
    text::put_pair(&mut l.bindings, address(home, b), k.clone());
    if text::same(home, ns) {
        text::put_pair(&mut l.bindings, name_of(b), k.clone());
    }
    l.weights.push((Some(k), weight));
    assert(l@.weights =~= before.weights.push((Some(x), weight)));
}

/// What the backends of a rule amount to; `traffic` says whether a rollout decides among them.
pub fn bind(rule: &Rule, outcomes: &Vec<Option<RefError>>, uid: &str, ns: &str, traffic: bool) -> (r: Bound)
    requires
        outcomes@.len() == rule.backend_refs@.len() + (if first_mirror(rule.filters@) is Some {
            1int
        } else {
            0
        }),
    ensures
        r@ == rule_links(*rule, outcomes@, uid@, ns@, traffic),
{
    let mut l = Bound {
        weights: Vec::new(),
        bindings: Vec::new(),
        mirror: None,
        problem: None,
    };
    let ghost v = rule.backend_refs@;
    let mut i: usize = 0;
    assert(l@ =~= no_links());
    while i < rule.backend_refs.len()
        invariant
            i <= rule.backend_refs.len(),
            v == rule.backend_refs@,
            outcomes@.len() >= v.len(),
            l@ == links_of(v.take(i as int), outcomes@, uid@, ns@, traffic),
        decreases rule.backend_refs.len() - i,
    {
        proof {
            assert(v.take(i + 1).drop_last() =~= v.take(i as int));
            assert(v.take(i + 1).last() == v[i as int]);
        }
        add_backend(&mut l, &rule.backend_refs[i], false, outcomes[i], uid, ns, traffic);
        i += 1;
    }
    assert(v.take(i as int) =~= v);
    if let Some(m) = rule.mirror() {
        add_backend(
            &mut l,
            &m.backend_ref,
            true,
            outcomes[rule.backend_refs.len()],
            uid,
            ns,
            traffic,
        );
    }
    l
}

/// What the backends amount to where a rollout cannot be carried out: nothing can be reached.
pub fn unreachable(l: Bound) -> (r: Bound)
    ensures
        r@ == (Links {
            weights: seq![(None, 1u32)],
            bindings: Seq::empty(),
            problem: Some(RefError::NotFound),
            ..l@
        }),
{
    let mut weights: Vec<(Option<String>, u32)> = Vec::new();
    weights.push((None, 1));
    let r = Bound {
        weights,
        bindings: Vec::new(),
        mirror: l.mirror,
        problem: Some(RefError::NotFound),
    };
    proof {
        assert(r@.weights =~= seq![(None, 1u32)]);
        assert(r@.bindings =~= Seq::empty());
    }
    r
}

// ---------------------------------------------------------------------------
// Names and limits
// ---------------------------------------------------------------------------

/// What a route of a rule is known by.
pub open spec fn route_id_of(
    ns: Seq<char>,
    name: Seq<char>,
    kind: Seq<char>,
    listener: nat,
    rule: nat,
    matcher: nat,
) -> Seq<char> {
    ns + "/"@ + name + ":gateway:"@ + kind + ":"@ + text::decimal(listener) + ":"@ + text::decimal(
        rule,
    ) + ":"@ + text::decimal(matcher)
}

/// What a route of a rule is known by.
pub fn route_id(ns: &str, name: &str, kind: &str, listener: usize, rule: usize, matcher: usize) -> (out: String)
    ensures
        out@ == route_id_of(ns@, name@, kind@, listener as nat, rule as nat, matcher as nat),
{
    let owner = text::concat3(ns, "/", name);
    let route = text::concat3(owner.as_str(), ":gateway:", kind);
    let a = text::concat3(route.as_str(), ":", text::decimal_string(listener as u64).as_str());
    let b = text::concat3(a.as_str(), ":", text::decimal_string(rule as u64).as_str());
    text::concat3(b.as_str(), ":", text::decimal_string(matcher as u64).as_str())
}

pub open spec fn at_least_one(n: nat) -> nat {
    if n == 0 {
        1
    } else {
        n
    }
}

/// How many matches rules have; a rule without any has one.
pub open spec fn matches_of(v: Seq<Rule>) -> nat
    decreases v.len(),
{
    if v.len() == 0 {
        0
    } else {
        matches_of(v.drop_last()) + at_least_one(v.last().matches@.len())
    }
}

/// How many routes a resource becomes at most.
pub open spec fn route_count(v: Seq<Rule>, hostnames: nat, listeners: nat) -> nat {
    matches_of(v) * at_least_one(hostnames) * at_least_one(listeners)
}

pub(crate) fn one_at_least(n: usize) -> (r: usize)
    ensures
        r == at_least_one(n as nat),
{
    if n == 0 {
        1
    } else {
        n
    }
}

proof fn lemma_matches(v: Seq<Rule>, i: int)
    requires
        0 <= i <= v.len(),
    ensures
        matches_of(v.take(i)) <= matches_of(v),
    decreases v.len(),
{
    if i < v.len() {
        assert(v.drop_last().take(i) =~= v.take(i));
        lemma_matches(v.drop_last(), i);
    } else {
        assert(v.take(i) =~= v);
    }
}

/// How many routes a resource becomes at most; nothing where there are too many to count.
pub fn count_routes(v: &Vec<Rule>, hostnames: usize, listeners: usize) -> (r: Option<usize>)
    ensures
        match r {
            Some(n) => n == route_count(v@, hostnames as nat, listeners as nat),
            None => route_count(v@, hostnames as nat, listeners as nat) > usize::MAX,
        },
{
    let h = one_at_least(hostnames);
    let l = one_at_least(listeners);
    let mut n: usize = 0;
    let mut i: usize = 0;
    while i < v.len()
        invariant
            i <= v.len(),
            h == at_least_one(hostnames as nat),
            l == at_least_one(listeners as nat),
            n == matches_of(v@.take(i as int)),
        decreases v.len() - i,
    {
        proof {
            assert(v@.take(i + 1).drop_last() =~= v@.take(i as int));
            assert(v@.take(i + 1).last() == v@[i as int]);
            lemma_matches(v@, i + 1);
        }
        match n.checked_add(one_at_least(v[i].matches.len())) {
            Some(m) => {
                n = m;
            },
            None => {
                proof {
                    let m = matches_of(v@) as int;
                    assert(m > usize::MAX);
                    assert(m * h >= m) by (nonlinear_arith)
                        requires
                            h >= 1,
                            m >= 0,
                    ;
                    assert((m * h) * l >= m * h) by (nonlinear_arith)
                        requires
                            l >= 1,
                            m * h >= 0,
                    ;
                }
                return None;
            },
        }
        i += 1;
    }
    assert(v@.take(i as int) =~= v@);
    match n.checked_mul(h) {
        None => {
            proof {
                assert((n * h) * l >= n * h) by (nonlinear_arith)
                    requires
                        l >= 1,
                        n * h >= 0,
                ;
            }
            None
        },
        Some(m) => m.checked_mul(l),
    }
}

// ---------------------------------------------------------------------------
// Laws
// ---------------------------------------------------------------------------

/// The total of weights.
pub open spec fn total(v: Seq<(Option<Seq<char>>, u32)>) -> nat
    decreases v.len(),
{
    if v.len() == 0 {
        0
    } else {
        total(v.drop_last()) + v.last().1 as nat
    }
}

pub open spec fn total_refs(v: Seq<BackendRef>) -> nat
    decreases v.len(),
{
    if v.len() == 0 {
        0
    } else {
        total_refs(v.drop_last()) + weight_of(v.last()) as nat
    }
}

/// A backend that cannot be used keeps its share: requests that would have gone to it fail and are not
/// spread over the others.
pub proof fn law_unusable_backends_keep_their_share(
    v: Seq<BackendRef>,
    outcomes: Seq<Option<RefError>>,
    uid: Seq<char>,
    ns: Seq<char>,
    traffic: bool,
)
    ensures
        total(links_of(v, outcomes, uid, ns, traffic).weights) == total_refs(v),
    decreases v.len(),
{
    if v.len() > 0 {
        law_unusable_backends_keep_their_share(v.drop_last(), outcomes, uid, ns, traffic);
        let before = links_of(v.drop_last(), outcomes, uid, ns, traffic).weights;
        let after = links_of(v, outcomes, uid, ns, traffic).weights;
        if after.len() > before.len() {
            assert(after.drop_last() =~= before);
        }
    }
}

/// A route that no listener is meant for, or that none allows, is attached nowhere.
pub proof fn law_attached_routes_are_allowed(
    r: Resources,
    parent: Reference,
    v: Seq<Json>,
    active: Seq<Active>,
    gateway_ns: Seq<char>,
    ns: Seq<char>,
    kind: Seq<char>,
    hostnames: Seq<Seq<char>>,
    k: int,
)
    requires
        0 <= k < attached_all(r, parent, v, active, gateway_ns, ns, kind, hostnames).1.len(),
    ensures
        ({
            let i = attached_all(r, parent, v, active, gateway_ns, ns, kind, hostnames).1[k];
            &&& 0 <= i < active.len()
            &&& active[i].valid
            &&& meant(parent, v[active[i].listener as int])
            &&& allowed_by(r, v[active[i].listener as int], gateway_ns, ns, kind)
        }),
    decreases active.len(),
{
    let (_, before) = attached_all(
        r,
        parent,
        v,
        active.drop_last(),
        gateway_ns,
        ns,
        kind,
        hostnames,
    );
    if active.len() > 0 {
        if k < before.len() {
            law_attached_routes_are_allowed(
                r,
                parent,
                v,
                active.drop_last(),
                gateway_ns,
                ns,
                kind,
                hostnames,
                k,
            );
        }
    }
}

/// A route targets the Gateway that it names, in its own namespace where it names none.
pub proof fn law_parents_are_named(parent: Reference, ns: Seq<char>, s: Served, other: Seq<char>)
    ensures
        parent.name@ != s.name@ ==> !targets(parent, ns, s),
        text::opt(parent.namespace) == Some(other) && other != s.namespace@ ==> !targets(parent, ns, s),
        parent.namespace is None && ns != s.namespace@ ==> !targets(parent, ns, s),
        text::opt(parent.kind) == Some("Service"@) ==> !targets(parent, ns, s),
        parent.group is None && parent.kind is None && parent.namespace is None && ns == s.namespace@
            && parent.name@ == s.name@ ==> targets(parent, ns, s),
{
    reveal_strlit("Service");
    reveal_strlit("Gateway");
    assert("Service"@[0] != "Gateway"@[0]);
}

/// Where it names a listener or a port, only those are meant.
pub proof fn law_sections_are_meant(parent: Reference, l: Json)
    ensures
        parent.section_name is None && parent.port is None ==> meant(parent, l),
        parent.section_name is Some && parent.section_name->0@ != l.string_or("name"@, ""@) ==> !meant(
            parent,
            l,
        ),
        parent.port is Some && l.at("port"@).number() != Some(parent.port->0 as nat) ==> !meant(parent, l),
{
}

/// A route is attached to a listener that is meant, is valid, allows it and shares a host with it; else it is
/// told why not.
pub proof fn law_routes_are_attached(
    r: Resources,
    parent: Reference,
    l: Json,
    valid: bool,
    gateway_ns: Seq<char>,
    ns: Seq<char>,
    kind: Seq<char>,
    hostnames: Seq<Seq<char>>,
)
    ensures
        ({
            let a = attached_at(r, parent, l, valid, gateway_ns, ns, kind, hostnames);
            let shared = shared_hosts(route_hosts(hostnames), l.string_or("hostname"@, ""@));
            &&& !meant(parent, l) ==> a == Attachment::NoMatchingParent
            &&& meant(parent, l) && !valid ==> a == Attachment::NotAllowed
            &&& meant(parent, l) && !allowed_by(r, l, gateway_ns, ns, kind) ==> a == Attachment::NotAllowed
            &&& meant(parent, l) && valid && allowed_by(r, l, gateway_ns, ns, kind) ==> {
                &&& shared.len() == 0 ==> a == Attachment::NoMatchingHostname
                &&& shared.len() > 0 ==> a == Attachment::Attached
            }
        }),
{
}

/// The hosts that a route and a listener share are those of each pair, in their order; a route without hosts
/// takes those of the listener.
pub proof fn law_hosts_are_shared(v: Seq<Seq<char>>, h: Seq<char>, listener: Seq<char>)
    ensures
        common(listener, h) matches Some(x) ==> shared_hosts(v.push(h), listener) == shared_hosts(
            v,
            listener,
        ).push(x),
        common(listener, h) is None ==> shared_hosts(v.push(h), listener) == shared_hosts(v, listener),
        route_hosts(Seq::empty()) == seq![Seq::<char>::empty()],
        v.len() > 0 ==> route_hosts(v) == v,
{
    assert(v.push(h).drop_last() =~= v);
}

/// A reference is one to a service that may be referred to, with a port and without filters.
pub proof fn law_references_are_checked(r: Resources, b: BackendRef, ns: Seq<char>, kind: Seq<char>)
    ensures
        text::opt(b.kind) == Some("ConfigMap"@) ==> reference_checked(r, b, ns, kind) == Err::<(), RefError>(
            RefError::InvalidKind,
        ),
        b.group is None && b.kind is None ==> {
            let home = empty_or(text::opt(b.namespace), ns);
            let granted = permitted_by(r.all("ReferenceGrant"@), ns, kind, home, "Service"@, b.name@);
            &&& !granted ==> reference_checked(r, b, ns, kind) == Err::<(), RefError>(RefError::NotPermitted)
            &&& granted && b.port is None ==> reference_checked(r, b, ns, kind) == Err::<(), RefError>(
                RefError::Unsupported,
            )
            &&& granted && b.filters@.len() > 0 ==> reference_checked(r, b, ns, kind) == Err::<(), RefError>(
                RefError::Unsupported,
            )
            &&& granted && b.port is Some && b.filters@.len() == 0 ==> reference_checked(r, b, ns, kind) == Ok::<
                (),
                RefError,
            >(())
        },
{
    reveal_strlit("ConfigMap");
    reveal_strlit("Service");
    assert("ConfigMap"@.len() != "Service"@.len());
}

/// What a service speaks is spoken where the proxy speaks it.
pub proof fn law_protocols_are_spoken(tls: bool, p: Seq<char>)
    ensures
        service_checked(true, true, tls, None) == Ok::<Speech, RefError>(Speech::Route),
        service_checked(true, true, tls, Some("http"@)) == Ok::<Speech, RefError>(Speech::Route),
        service_checked(true, true, tls, Some("kubernetes.io/ws"@)) == Ok::<Speech, RefError>(Speech::Route),
        service_checked(true, true, tls, Some("kubernetes.io/h2c"@)) == Ok::<Speech, RefError>(Speech::Http2),
        service_checked(true, true, true, Some("https"@)) == Ok::<Speech, RefError>(Speech::Route),
        service_checked(true, true, false, Some("https"@)) == Err::<Speech, RefError>(RefError::Protocol),
        service_checked(false, true, tls, Some(p)) == Err::<Speech, RefError>(RefError::NotFound),
        service_checked(true, false, tls, Some(p)) == Err::<Speech, RefError>(RefError::Authority),
{
    reveal_strlit("kubernetes.io/h2c");
    reveal_strlit("http");
    assert("kubernetes.io/h2c"@.len() != "http"@.len());
    reveal_strlit("kubernetes.io/ws");
    assert("kubernetes.io/h2c"@.len() != "kubernetes.io/ws"@.len());
    reveal_strlit("https");
    assert("kubernetes.io/h2c"@.len() != "https"@.len());
    reveal_strlit("https");
    reveal_strlit("http");
    assert("https"@.len() != "http"@.len());
    reveal_strlit("kubernetes.io/ws");
    assert("https"@.len() != "kubernetes.io/ws"@.len());
}

/// A backend that can be asked has its weight and can be chosen by its name, and also without its namespace
/// where that is the route's; a mirror only gets copies, and one that cannot be asked keeps its share.
pub proof fn law_backends_are_bound(
    l: Links,
    b: BackendRef,
    e: RefError,
    uid: Seq<char>,
    ns: Seq<char>,
    traffic: bool,
)
    requires
        b.namespace is None,
        weight_of(b) > 0,
    ensures
        ({
            let key = "gateway:"@ + uid + ":"@ + (ns + "/"@ + named(b));
            &&& with_backend(l, b, true, None, uid, ns, traffic) == (Links { mirror: Some(key), ..l })
            &&& with_backend(l, b, false, None, uid, ns, traffic) == (Links {
                weights: l.weights.push((Some(key), weight_of(b))),
                bindings: text::put(text::put(l.bindings, ns + "/"@ + named(b), key), named(b), key),
                ..l
            })
            &&& with_backend(l, b, false, Some(e), uid, ns, traffic) == (Links {
                weights: l.weights.push((None, weight_of(b))),
                problem: Some(e),
                ..l
            })
            &&& with_backend(l, b, true, Some(e), uid, ns, traffic) == (Links { problem: Some(e), ..l })
        }),
{
}

/// A weight is 1 where none is given; a backend without a weight is not asked.
pub proof fn law_weights_are_given(b: BackendRef, l: Links, n: u32, uid: Seq<char>, ns: Seq<char>)
    ensures
        b.weight is None ==> weight_of(b) == 1,
        b.weight == Some(n) ==> weight_of(b) == n,
        b.weight == Some(0u32) ==> with_backend(l, b, false, None, uid, ns, false) == l,
{
}

/// A rule makes a route for each of its matches, one where it has none, for each host and each listener.
pub proof fn law_routes_are_counted(v: Seq<Rule>, r: Rule, hosts: nat, listeners: nat)
    ensures
        r.matches@.len() == 0 ==> matches_of(v.push(r)) == matches_of(v) + 1,
        r.matches@.len() > 0 ==> matches_of(v.push(r)) == matches_of(v) + r.matches@.len(),
        route_count(v, 0, 0) == matches_of(v),
        route_count(v, 1, 1) == matches_of(v),
        hosts > 0 && listeners > 0 ==> route_count(v, hosts, listeners) == matches_of(v) * hosts * listeners,
{
    assert(v.push(r).drop_last() =~= v);
}

} // verus!

//! How the backends of routes are reached.
use crate::backend::{dressed, trusted, Access, Approach, Manner, Setup, Shape};
use crate::gateway::attachment::{
    check_reference, check_service, key, key_of, reference_checked, service_checked, weight_of, RefError,
    Speech,
};
use crate::gateway::entries::{home_of, rule_backends};
use crate::gateway::references::Resources;
use crate::gateway::spec::{BackendRef, Rule};
use crate::gateway::tls_policy::Policies;
use crate::ingress::backends::{
    endpoints_of, find_service_port, plain_backend, service_backend, service_port, ServiceObject,
    SliceObject,
};
use crate::ingress::spec::{PortName, PortRef, ServiceBackend, Target};
use crate::text;
use vstd::prelude::*;

verus! {

/// What is known of the cluster.
#[derive(Debug)]
pub struct Cluster {
    pub resources: Resources,
    pub services: Vec<ServiceObject>,
    pub slices: Vec<SliceObject>,
    pub policies: Policies,
}

/// A route as its backends see it.
#[verifier::ext_equal]
pub ghost struct Asker {
    pub uid: Seq<char>,
    pub ns: Seq<char>,
    pub kind: Seq<char>,
}

/// A backend as a port of a service.
pub open spec fn service_of(b: BackendRef) -> Target {
    Target {
        name: b.name@,
        port: Some(
            PortName {
                name: None,
                number: match b.port {
                    Some(p) => Some(p as i32),
                    None => None,
                },
            },
        ),
    }
}

/// How a backend is reached, or why it cannot be used: it may be referred to, its service is there, the
/// policy on TLS that it is under is valid, and what is spoken at its port is known.
pub open spec fn reached(c: Cluster, b: BackendRef, a: Asker, x: Approach) -> Result<Shape, RefError> {
    let home = home_of(b, a.ns);
    match reference_checked(c.resources, b, a.ns, a.kind) {
        Err(e) => Err(e),
        Ok(_) => match endpoints_of(c.services@, c.slices@, home, service_of(b)) {
            Err(_) => Err(RefError::NotFound),
            Ok(v) => {
                let port = service_port(c.services@, home, service_of(b))->Ok_0.1;
                let plain = dressed(plain_backend(b.name@, home, v), x.tls, x.options, x.profile);
                match c.policies.applied(home, b.name@, text::opt(port.name)) {
                    Some(Err(_)) => Err(RefError::Authority),
                    Some(Ok(t)) => spoken(
                        trusted(plain, t.server_name, t.ca_pem),
                        text::opt(port.app_protocol),
                    ),
                    None => spoken(plain, text::opt(port.app_protocol)),
                }
            },
        },
    }
}

/// A backend at whose port something is spoken.
pub open spec fn spoken(s: Shape, protocol: Option<Seq<char>>) -> Result<Shape, RefError> {
    match service_checked(true, true, s.tls, protocol) {
        Err(e) => Err(e),
        Ok(Speech::Route) => Ok(s),
        Ok(Speech::Http2) => Ok(Shape { profile: Manner { http2: true, ..s.profile }, ..s }),
    }
}

/// How a backend of a route is reached, or why it cannot be used.
pub fn reach(c: &Cluster, b: &BackendRef, uid: &str, ns: &str, kind: &str, x: &Access) -> (r: Result<
    Setup,
    RefError,
>)
    ensures
        match r {
            Ok(s) => reached(*c, *b, Asker { uid: uid@, ns: ns@, kind: kind@ }, x@) == Ok::<
                Shape,
                RefError,
            >(s@),
            Err(e) => reached(*c, *b, Asker { uid: uid@, ns: ns@, kind: kind@ }, x@) == Err::<
                Shape,
                RefError,
            >(e),
        },
{
    if let Err(e) = check_reference(&c.resources, b, ns, kind) {
        return Err(e);
    }
    let home: &str = match &b.namespace {
        Some(s) => s.as_str(),
        None => ns,
    };
    let reference = ServiceBackend {
        name: b.name.clone(),
        port: Some(
            PortRef {
                name: None,
                number: match b.port {
                    Some(p) => Some(p as i32),
                    None => None,
                },
            },
        ),
    };
    assert(reference@ =~= service_of(*b));
    let port = match find_service_port(&c.services, home, &reference) {
        Err(_) => return Err(RefError::NotFound),
        Ok(x) => x.1,
    };
    let (mut backend, problem) = service_backend(&c.services, &c.slices, home, &reference);
    if problem.is_some() {
        return Err(RefError::NotFound);
    }
    backend.dress(x.tls, x.options.copy(), x.profile.copy());
    let section: Option<&str> = match &port.name {
        Some(s) => Some(s.as_str()),
        None => None,
    };
    if c.policies.apply(home, b.name.as_str(), section, &mut backend).is_err() {
        return Err(RefError::Authority);
    }
    let protocol: Option<&str> = match &port.app_protocol {
        Some(s) => Some(s.as_str()),
        None => None,
    };
    match check_service(true, true, backend.tls, protocol) {
        Err(e) => Err(e),
        Ok(Speech::Route) => Ok(backend),
        Ok(Speech::Http2) => {
            backend.profile.http2 = true;
            Ok(backend)
        },
    }
}

// ---------------------------------------------------------------------------
// The backends of a rule
// ---------------------------------------------------------------------------

pub open spec fn shapes(v: Seq<(String, Setup)>) -> Seq<(Seq<char>, Shape)> {
    Seq::new(v.len(), |i: int| (v[i].0@, v[i].1@))
}

pub open spec fn known(v: Seq<(Seq<char>, Shape)>, name: Seq<char>) -> bool {
    exists|i: int| 0 <= i < v.len() && (#[trigger] v[i]).0 == name
}

/// The backends with one more, unless there is one of its name.
pub open spec fn kept(v: Seq<(Seq<char>, Shape)>, name: Seq<char>, s: Shape) -> Seq<(Seq<char>, Shape)> {
    if known(v, name) {
        v
    } else {
        v.push((name, s))
    }
}

fn keep(v: &mut Vec<(String, Setup)>, name: String, s: Setup)
    ensures
        shapes(final(v)@) == kept(shapes(old(v)@), name@, s@),
{
    let ghost all = shapes(v@);
    let mut i: usize = 0;
    while i < v.len()
        invariant
            i <= v.len(),
            all == shapes(v@),
            forall|j: int| 0 <= j < i ==> (#[trigger] all[j]).0 != name@,
        decreases v.len() - i,
    {
        if text::same(v[i].0.as_str(), name.as_str()) {
            assert(all[i as int].0 == name@);
            return;
        }
        assert(all[i as int].0 != name@);
        i += 1;
    }
    let ghost x = (name@, s@);
    v.push((name, s));
    assert(shapes(v@) =~= all.push(x));
}

/// Whether a backend gets neither requests nor copies.
pub open spec fn idle(b: BackendRef, mirrored: bool, traffic: bool) -> bool {
    weight_of(b) == 0 && !traffic && !mirrored
}

/// The backends that are reached of the first ones of a rule, and why others cannot be used. The ones from
/// `direct` on get copies.
pub open spec fn all_reached(
    before: Seq<(Seq<char>, Shape)>,
    c: Cluster,
    v: Seq<BackendRef>,
    direct: nat,
    a: Asker,
    x: Approach,
    traffic: bool,
) -> (Seq<(Seq<char>, Shape)>, Seq<Option<RefError>>)
    decreases v.len(),
{
    if v.len() == 0 {
        (before, Seq::empty())
    } else {
        let (known, outcomes) = all_reached(before, c, v.drop_last(), direct, a, x, traffic);
        let b = v.last();
        match reached(c, b, a, x) {
            Err(e) => (known, outcomes.push(Some(e))),
            Ok(s) => (
                if idle(b, v.len() > direct, traffic) {
                    known
                } else {
                    kept(known, key_of(a.uid, home_of(b, a.ns), b), s)
                },
                outcomes.push(None),
            ),
        }
    }
}

/// Reaches the backends of a rule, that of the mirror at the end: those that can be used are kept under
/// their names, and for each it is said why it cannot be used.
pub fn reach_rule(
    backends: &mut Vec<(String, Setup)>,
    c: &Cluster,
    rule: &Rule,
    uid: &str,
    ns: &str,
    kind: &str,
    x: &Access,
    traffic: bool,
) -> (r: Vec<Option<RefError>>)
    ensures
        (shapes(final(backends)@), r@) == all_reached(
            shapes(old(backends)@),
            *c,
            rule_backends(*rule),
            rule.backend_refs@.len(),
            Asker { uid: uid@, ns: ns@, kind: kind@ },
            x@,
            traffic,
        ),
        r@.len() == rule_backends(*rule).len(),
{
    let v = rule.all_backends();
    let ghost all = rule_backends(*rule);
    let ghost a = Asker { uid: uid@, ns: ns@, kind: kind@ };
    let ghost before = shapes(backends@);
    assert(v@.len() == all.len());
    assert forall|j: int| 0 <= j < all.len() implies *#[trigger] v@[j] == all[j] by {}
    let mut out: Vec<Option<RefError>> = Vec::new();
    let mut i: usize = 0;
    assert(all.take(0) =~= Seq::empty());
    assert(out@ =~= Seq::empty());
    while i < v.len()
        invariant
            i <= v.len(),
            v@.len() == all.len(),
            out@.len() == i,
            forall|j: int| 0 <= j < all.len() ==> *#[trigger] v@[j] == all[j],
            a == (Asker { uid: uid@, ns: ns@, kind: kind@ }),
            (shapes(backends@), out@) == all_reached(
                before,
                *c,
                all.take(i as int),
                rule.backend_refs@.len(),
                a,
                x@,
                traffic,
            ),
        decreases v.len() - i,
    {
        let b = v[i];
        proof {
            assert(all.take(i + 1).drop_last() =~= all.take(i as int));
            assert(all.take(i + 1).last() == *b);
        }
        match reach(c, b, uid, ns, kind, x) {
            Err(e) => {
                out.push(Some(e));
            },
            Ok(s) => {
                out.push(None);
                let weight: u32 = match b.weight {
                    Some(n) => n,
                    None => 1,
                };
                let mirrored = i >= rule.backend_refs.len();
                if weight != 0 || traffic || mirrored {
                    let home: &str = match &b.namespace {
                        Some(s) => s.as_str(),
                        None => ns,
                    };
                    keep(backends, key(uid, home, b), s);
                }
            },
        }
        i += 1;
    }
    assert(all.take(i as int) =~= all);
    out
}

// ---------------------------------------------------------------------------
// Laws
// ---------------------------------------------------------------------------

/// A backend under an invalid policy on TLS is not reached in any other way.
pub proof fn law_invalid_policies_are_not_passed_by(c: Cluster, b: BackendRef, a: Asker, x: Approach)
    requires
        service_port(c.services@, home_of(b, a.ns), service_of(b)) is Ok,
        c.policies.applied(
            home_of(b, a.ns),
            b.name@,
            text::opt(service_port(c.services@, home_of(b, a.ns), service_of(b))->Ok_0.1.name),
        ) matches Some(Err(_)),
    ensures
        reached(c, b, a, x) is Err,
{
}

/// A backend under a valid policy on TLS is reached with TLS, by the name and the authorities of the policy;
/// the certificate that the proxy shows is that of the route.
pub proof fn law_valid_policies_are_followed(c: Cluster, b: BackendRef, a: Asker, x: Approach)
    requires
        reached(c, b, a, x) is Ok,
        c.policies.applied(
            home_of(b, a.ns),
            b.name@,
            text::opt(service_port(c.services@, home_of(b, a.ns), service_of(b))->Ok_0.1.name),
        ) matches Some(Ok(_)),
    ensures
        ({
            let s = reached(c, b, a, x)->Ok_0;
            let t = c.policies.applied(
                home_of(b, a.ns),
                b.name@,
                text::opt(service_port(c.services@, home_of(b, a.ns), service_of(b))->Ok_0.1.name),
            )->0->Ok_0;
            s.tls && s.hostname == t.server_name && s.ca_pem == t.ca_pem && s.profile.identity
                == x.profile.identity && (x.profile.http2 ==> s.profile.http2)
        }),
{
}

/// A backend that may be referred to, is there and has no policy is asked as its route says, at its endpoints.
pub proof fn law_backends_are_reached(c: Cluster, b: BackendRef, a: Asker, x: Approach, v: Seq<crate::net::Socket>)
    requires
        reference_checked(c.resources, b, a.ns, a.kind) is Ok,
        endpoints_of(c.services@, c.slices@, home_of(b, a.ns), service_of(b)) == Ok::<
            Seq<crate::net::Socket>,
            crate::ingress::backends::BackendProblem,
        >(v),
        ({
            let p = service_port(c.services@, home_of(b, a.ns), service_of(b))->Ok_0.1;
            &&& c.policies.applied(home_of(b, a.ns), b.name@, text::opt(p.name)) is None
            &&& p.app_protocol is None
        }),
    ensures
        reached(c, b, a, x) matches Ok(s) && s.tls == x.tls && s.options == x.options && s.profile == x.profile
            && s.endpoints.len() == v.len() && s == dressed(
            plain_backend(b.name@, home_of(b, a.ns), v),
            x.tls,
            x.options,
            x.profile,
        ),
{
}

/// A reference that may not be made is not followed, and a service that is not there is told.
pub proof fn law_unusable_references_are_told(c: Cluster, b: BackendRef, a: Asker, x: Approach, e: RefError)
    ensures
        reference_checked(c.resources, b, a.ns, a.kind) == Err::<(), RefError>(e) ==> reached(c, b, a, x)
            == Err::<Shape, RefError>(e),
        reference_checked(c.resources, b, a.ns, a.kind) is Ok && endpoints_of(
            c.services@,
            c.slices@,
            home_of(b, a.ns),
            service_of(b),
        ) is Err ==> reached(c, b, a, x) == Err::<Shape, RefError>(RefError::NotFound),
{
}

/// What speaks HTTP/2 in plain is spoken to so.
pub proof fn law_services_say_what_they_speak(s: Shape)
    ensures
        spoken(s, None) == Ok::<Shape, RefError>(s),
        spoken(s, Some("kubernetes.io/h2c"@)) == Ok::<Shape, RefError>(
            Shape { profile: Manner { http2: true, ..s.profile }, ..s },
        ),
        !s.tls ==> spoken(s, Some("https"@)) == Err::<Shape, RefError>(RefError::Protocol),
{
    crate::gateway::attachment::law_protocols_are_spoken(s.tls, Seq::empty());
}

/// A backend that is known stays as it was first reached; one without a weight is not kept.
pub proof fn law_known_backends_stay(v: Seq<(Seq<char>, Shape)>, name: Seq<char>, s: Shape, b: BackendRef)
    ensures
        known(v, name) ==> kept(v, name, s) == v,
        !known(v, name) ==> kept(v, name, s) == v.push((name, s)),
        b.weight == Some(0u32) ==> idle(b, false, false) && !idle(b, true, false) && !idle(b, false, true),
        b.weight is None ==> !idle(b, false, false),
{
}

} // verus!

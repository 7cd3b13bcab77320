//! How the backends of an Ingress are reached.
use crate::backend::{dressed, Access, Approach, Manner, Profile, Setup, Shape};
use crate::ingress::backends::{
    alias_of, backend_alias, endpoints_of, plain_backend, service_backend, BackendProblem, ServiceObject,
    SliceObject,
};
use crate::ingress::dependencies::target_of;
use crate::ingress::policy::{auth_service, service_of, Annotated, Draft, Port};
use crate::ingress::round::{at, lemma_absent, lemma_first, lemma_push};
use crate::ingress::routes::{backend_key, key_of};
use crate::ingress::serving::{path_targets, rule_targets, targets_of, traffic_aliases};
use crate::ingress::spec::{
    host_rules, path_rules, IngressSpec, PathSpec, PortRef, ServiceBackend, Target,
};
use crate::model::copy_opt;
use crate::text;
use crate::text::texts;
use vstd::prelude::*;

verus! {

// ---------------------------------------------------------------------------
// The services that an Ingress refers to
// ---------------------------------------------------------------------------

pub open spec fn backend_targets(v: Seq<ServiceBackend>) -> Seq<Target> {
    Seq::new(v.len(), |i: int| v[i]@)
}

/// The services among some backends.
pub open spec fn services_of(v: Seq<Option<Target>>) -> Seq<Target>
    decreases v.len(),
{
    if v.len() == 0 {
        Seq::empty()
    } else {
        match v.last() {
            Some(t) => services_of(v.drop_last()).push(t),
            None => services_of(v.drop_last()),
        }
    }
}

/// The services that traffic goes to; nothing where one cannot be read.
pub open spec fn traffic_services(v: Seq<Seq<char>>) -> Option<Seq<Target>>
    decreases v.len(),
{
    if v.len() == 0 {
        Some(Seq::empty())
    } else {
        match (traffic_services(v.drop_last()), service_of(v.last() + "/"@)) {
            (Some(rest), Some(s)) => Some(rest.push(target_of(s))),
            _ => None,
        }
    }
}

proof fn lemma_services(a: Seq<Option<Target>>, b: Seq<Option<Target>>)
    ensures
        services_of(a + b) == services_of(a) + services_of(b),
    decreases b.len(),
{
    if b.len() == 0 {
        assert(a + b =~= a);
        assert(services_of(a) + services_of(b) =~= services_of(a));
    } else {
        lemma_services(a, b.drop_last());
        assert((a + b).drop_last() =~= a + b.drop_last());
        if b.last() is Some {
            assert(services_of(a) + services_of(b) =~= (services_of(a) + services_of(b.drop_last())).push(
                b.last()->0,
            ));
        }
    }
}

proof fn lemma_traffic_none(v: Seq<Seq<char>>, n: int)
    requires
        0 <= n <= v.len(),
        traffic_services(v.take(n)) is None,
    ensures
        traffic_services(v) is None,
    decreases v.len() - n,
{
    if n == v.len() {
        assert(v.take(n) =~= v);
    } else {
        assert(v.take(n + 1).drop_last() =~= v.take(n));
        lemma_traffic_none(v, n + 1);
    }
}

/// The services that traffic goes to can be read where their names can.
pub proof fn lemma_traffic_named(v: Seq<Seq<char>>)
    ensures
        traffic_services(v) is Some <==> traffic_aliases(v) is Some,
    decreases v.len(),
{
    if v.len() > 0 {
        lemma_traffic_named(v.drop_last());
    }
}

fn add_paths(v: &Vec<PathSpec>, out: &mut Vec<ServiceBackend>)
    ensures
        backend_targets(final(out)@) == backend_targets(old(out)@) + services_of(
            path_targets(path_rules(v@)),
        ),
{
    let ghost start = backend_targets(out@);
    let ghost all = path_targets(path_rules(v@));
    let mut i: usize = 0;
    assert(start + services_of(all.take(0)) =~= start);
    while i < v.len()
        invariant
            i <= v.len(),
            all == path_targets(path_rules(v@)),
            all.len() == v@.len(),
            backend_targets(out@) == start + services_of(all.take(i as int)),
        decreases v.len() - i,
    {
        let ghost before = backend_targets(out@);
        proof {
            assert(all.take(i + 1).drop_last() =~= all.take(i as int));
            assert(all.take(i + 1).last() == all[i as int]);
            assert(all[i as int] == v@[i as int]@.service);
        }
        if let Some(s) = &v[i].backend.service {
            out.push(s.copy());
            assert(backend_targets(out@) =~= before.push(s@));
            assert(backend_targets(out@) =~= start + services_of(all.take(i + 1)));
        }
        i += 1;
    }
    assert(all.take(i as int) =~= all);
}

fn add_targets(spec: &IngressSpec, out: &mut Vec<ServiceBackend>)
    ensures
        backend_targets(final(out)@) == backend_targets(old(out)@) + services_of(targets_of(spec@)),
{
    let ghost start = backend_targets(out@);
    let ghost mut head: Seq<Option<Target>> = Seq::empty();
    if let Some(b) = &spec.default_backend {
        proof {
            head = seq![spec@.default_backend->0];
            assert(head.drop_last() =~= Seq::empty());
            reveal_with_fuel(services_of, 2);
        }
        if let Some(s) = &b.service {
            out.push(s.copy());
            assert(backend_targets(out@) =~= start.push(s@));
            assert(services_of(head) =~= seq![s@]);
        } else {
            assert(services_of(head) =~= Seq::empty());
        }
    }
    assert(backend_targets(out@) =~= start + services_of(head));
    let ghost all = host_rules(spec.rules@);
    let mut i: usize = 0;
    assert(rule_targets(all.take(0)) =~= Seq::empty());
    assert(head + rule_targets(all.take(0)) =~= head);
    while i < spec.rules.len()
        invariant
            i <= spec.rules.len(),
            all == host_rules(spec.rules@),
            all.len() == spec.rules@.len(),
            backend_targets(out@) == start + services_of(head + rule_targets(all.take(i as int))),
        decreases spec.rules.len() - i,
    {
        proof {
            let done = rule_targets(all.take(i as int));
            let next = path_targets(all[i as int].paths);
            assert(all.take(i + 1).drop_last() =~= all.take(i as int));
            assert(all.take(i + 1).last() == all[i as int]);
            assert(all[i as int] == spec.rules@[i as int]@);
            assert(head + (done + next) =~= (head + done) + next);
            lemma_services(head + done, next);
        }
        add_paths(&spec.rules[i].paths, out);
        assert(backend_targets(out@) =~= start + services_of(head + rule_targets(all.take(i + 1))));
        i += 1;
    }
    assert(all.take(i as int) =~= all);
    assert(head + rule_targets(all) =~= targets_of(spec@));
}

fn add_traffic(traffic: &Vec<String>, out: &mut Vec<ServiceBackend>) -> (r: bool)
    ensures
        r == (traffic_services(texts(traffic@)) is Some),
        r ==> backend_targets(final(out)@) == backend_targets(old(out)@) + traffic_services(
            texts(traffic@),
        )->0,
{
    let ghost start = backend_targets(out@);
    let ghost all = texts(traffic@);
    let mut i: usize = 0;
    assert(start + Seq::<Target>::empty() =~= start);
    while i < traffic.len()
        invariant
            i <= traffic.len(),
            all == texts(traffic@),
            traffic_services(all.take(i as int)) is Some,
            backend_targets(out@) == start + traffic_services(all.take(i as int))->0,
        decreases traffic.len() - i,
    {
        let ghost before = backend_targets(out@);
        proof {
            assert(all.take(i + 1).drop_last() =~= all.take(i as int));
            assert(all.take(i + 1).last() == traffic@[i as int]@);
        }
        match auth_service(text::concat(traffic[i].as_str(), "/").as_str()) {
            None => {
                proof {
                    lemma_traffic_none(all, i + 1);
                }
                return false;
            },
            Some(s) => {
                let ghost named = s@;
                let port = match s.port {
                    Port::Number(n) => PortRef { name: None, number: Some(n as i32) },
                    Port::Name(p) => PortRef { name: Some(p), number: None },
                };
                out.push(ServiceBackend { name: s.name, port: Some(port) });
                assert(out@.last()@ == target_of(named));
                assert(backend_targets(out@) =~= before.push(target_of(named)));
                assert(backend_targets(out@) =~= start + traffic_services(all.take(i + 1))->0);
            },
        }
        i += 1;
    }
    assert(all.take(i as int) =~= all);
    true
}

// ---------------------------------------------------------------------------
// Reaching them
// ---------------------------------------------------------------------------

/// How the policy of an Ingress has its backends reached; the authorities and the certificate are read
/// elsewhere.
pub open spec fn approach_of(d: Draft, ca_pem: Option<Seq<char>>, identity: Option<(Seq<char>, Seq<char>)>) -> Approach {
    Approach {
        tls: d.tls,
        options: d.upstream,
        profile: Manner { http2: d.http2, identity, server_name: d.server_name, ca_pem },
    }
}

pub open spec fn pair_of(v: Option<(String, String)>) -> Option<(Seq<char>, Seq<char>)> {
    match v {
        Some(p) => Some((p.0@, p.1@)),
        None => None,
    }
}

pub fn access(a: &Annotated, ca_pem: &Option<String>, identity: &Option<(String, String)>) -> (r: Access)
    ensures
        r@ == approach_of(a@, text::opt(*ca_pem), pair_of(*identity)),
{
    let r = Access {
        tls: a.tls,
        options: a.upstream.copy(),
        profile: Profile {
            http2: a.http2,
            identity: match identity {
                Some(p) => Some((p.0.clone(), p.1.clone())),
                None => None,
            },
            server_name: copy_opt(&a.server_name),
            ca_pem: copy_opt(ca_pem),
        },
    };
    assert(r@ =~= approach_of(a@, text::opt(*ca_pem), pair_of(*identity)));
    r
}

/// How a service is reached as a policy says; one that cannot be reached has no endpoints, and comes with
/// the reason.
pub open spec fn site_of(
    services: Seq<ServiceObject>,
    slices: Seq<SliceObject>,
    ns: Seq<char>,
    t: Target,
    x: Approach,
) -> (Shape, Option<BackendProblem>) {
    match endpoints_of(services, slices, ns, t) {
        Ok(v) => (dressed(plain_backend(t.name, ns, v), x.tls, x.options, x.profile), None),
        Err(e) => (
            dressed(plain_backend(t.name, ns, Seq::empty()), x.tls, x.options, x.profile),
            Some(e),
        ),
    }
}

/// A backend that an Ingress named, by its key.
#[derive(Debug)]
pub struct Site {
    pub key: String,
    pub setup: Setup,
    pub problem: Option<BackendProblem>,
}

pub open spec fn sites(v: Seq<Site>) -> Seq<(Seq<char>, (Shape, Option<BackendProblem>))> {
    Seq::new(v.len(), |i: int| (v[i].key@, (v[i].setup@, v[i].problem)))
}

/// The backends, and what is wrong with them, once an Ingress named some services: the one that names a key
/// first says how it is reached.
pub open spec fn all_sites(
    before: Seq<(Seq<char>, (Shape, Option<BackendProblem>))>,
    services: Seq<ServiceObject>,
    slices: Seq<SliceObject>,
    ns: Seq<char>,
    name: Seq<char>,
    own: bool,
    v: Seq<Target>,
    x: Approach,
) -> (Seq<(Seq<char>, (Shape, Option<BackendProblem>))>, Seq<BackendProblem>)
    decreases v.len(),
{
    if v.len() == 0 {
        (before, Seq::empty())
    } else {
        let (w, told) = all_sites(before, services, slices, ns, name, own, v.drop_last(), x);
        let key = backend_key(ns, name, own, alias_of(v.last()));
        let site = match at(w, key) {
            Some(s) => s,
            None => site_of(services, slices, ns, v.last(), x),
        };
        (
            if at(w, key) is Some {
                w
            } else {
                w.push((key, site))
            },
            match site.1 {
                Some(e) => told.push(e),
                None => told,
            },
        )
    }
}

/// Reaches a service under a key, unless it is reached already, and says what is wrong with it.
fn reach_service(
    known: &mut Vec<Site>,
    services: &Vec<ServiceObject>,
    slices: &Vec<SliceObject>,
    ns: &str,
    key: String,
    reference: &ServiceBackend,
    x: &Access,
) -> (r: Option<BackendProblem>)
    ensures
        ({
            let w = sites(old(known)@);
            let site = match at(w, key@) {
                Some(s) => s,
                None => site_of(services@, slices@, ns@, reference@, x@),
            };
            r == site.1 && sites(final(known)@) == if at(w, key@) is Some {
                w
            } else {
                w.push((key@, site))
            }
        }),
{
    let ghost w = sites(known@);
    let mut i: usize = 0;
    while i < known.len()
        invariant
            i <= known.len(),
            w == sites(known@),
            forall|j: int| 0 <= j < i ==> (#[trigger] w[j]).0 != key@,
        decreases known.len() - i,
    {
        assert(w[i as int].0 == known@[i as int].key@);
        if text::same(known[i].key.as_str(), key.as_str()) {
            proof {
                lemma_first(w, i as int, key@);
            }
            return known[i].problem;
        }
        i += 1;
    }
    proof {
        lemma_absent(w, key@);
    }
    let (mut setup, problem) = service_backend(services, slices, ns, reference);
    setup.dress(x.tls, x.options.copy(), x.profile.copy());
    let ghost site = (key@, (setup@, problem));
    known.push(Site { key, setup, problem });
    assert(sites(known@) =~= w.push(site));
    problem
}

/// Reaches the services that an Ingress refers to, those of its routing and then those that traffic goes
/// to, and says what is wrong with each of them; nothing where one that traffic goes to cannot be read.
pub fn reach_ingress(
    known: &mut Vec<Site>,
    services: &Vec<ServiceObject>,
    slices: &Vec<SliceObject>,
    ns: &str,
    name: &str,
    own: bool,
    routing: &IngressSpec,
    traffic: &Vec<String>,
    x: &Access,
) -> (r: Option<Vec<BackendProblem>>)
    ensures
        match (r, traffic_services(texts(traffic@))) {
            (Some(told), Some(more)) => (sites(final(known)@), told@) == all_sites(
                sites(old(known)@),
                services@,
                slices@,
                ns@,
                name@,
                own,
                services_of(targets_of(routing@)) + more,
                x@,
            ),
            (None, None) => sites(final(known)@) == sites(old(known)@),
            _ => false,
        },
{
    let mut all: Vec<ServiceBackend> = Vec::new();
    assert(backend_targets(all@) =~= Seq::empty());
    add_targets(routing, &mut all);
    let ghost first = services_of(targets_of(routing@));
    assert(backend_targets(all@) =~= first);
    if !add_traffic(traffic, &mut all) {
        return None;
    }
    let ghost goal = backend_targets(all@);
    let ghost before = sites(known@);
    let mut told: Vec<BackendProblem> = Vec::new();
    let mut k: usize = 0;
    assert(told@ =~= Seq::empty());
    assert(goal.take(0) =~= Seq::empty());
    while k < all.len()
        invariant
            k <= all.len(),
            goal == backend_targets(all@),
            (sites(known@), told@) == all_sites(
                before,
                services@,
                slices@,
                ns@,
                name@,
                own,
                goal.take(k as int),
                x@,
            ),
        decreases all.len() - k,
    {
        proof {
            assert(goal.take(k + 1).drop_last() =~= goal.take(k as int));
            assert(goal.take(k + 1).last() == all@[k as int]@);
        }
        let alias = backend_alias(&all[k]);
        let key = key_of(ns, name, own, alias.as_str());
        if let Some(e) = reach_service(known, services, slices, ns, key, &all[k], x) {
            told.push(e);
        }
        k += 1;
    }
    assert(goal.take(k as int) =~= goal);
    Some(told)
}

// ---------------------------------------------------------------------------
// Laws
// ---------------------------------------------------------------------------

/// A backend is reached as the policy of the Ingress that named it first says: with TLS or without, with its
/// options, by its name and its authorities.
pub proof fn law_backends_are_reached_as_policies_say(
    services: Seq<ServiceObject>,
    slices: Seq<SliceObject>,
    ns: Seq<char>,
    t: Target,
    d: Draft,
    ca_pem: Option<Seq<char>>,
    identity: Option<(Seq<char>, Seq<char>)>,
)
    ensures
        ({
            let s = site_of(services, slices, ns, t, approach_of(d, ca_pem, identity)).0;
            &&& s.tls == d.tls
            &&& s.options == d.upstream
            &&& s.ca_pem == ca_pem
            &&& s.profile.http2 == d.http2
            &&& s.profile.identity == identity
            &&& d.server_name is Some ==> s.hostname == d.server_name->0
        }),
{
}

/// A backend stays as it is reached once it is known.
pub proof fn law_known_backends_stay(
    before: Seq<(Seq<char>, (Shape, Option<BackendProblem>))>,
    services: Seq<ServiceObject>,
    slices: Seq<SliceObject>,
    ns: Seq<char>,
    name: Seq<char>,
    own: bool,
    v: Seq<Target>,
    x: Approach,
    key: Seq<char>,
)
    requires
        at(before, key) is Some,
    ensures
        at(all_sites(before, services, slices, ns, name, own, v, x).0, key) == at(before, key),
    decreases v.len(),
{
    if v.len() > 0 {
        law_known_backends_stay(before, services, slices, ns, name, own, v.drop_last(), x, key);
        let w = all_sites(before, services, slices, ns, name, own, v.drop_last(), x).0;
        let last = backend_key(ns, name, own, alias_of(v.last()));
        lemma_push(w, last, site_of(services, slices, ns, v.last(), x), key);
    }
}

/// Every service that an Ingress refers to is reached under its key.
pub proof fn law_named_backends_are_reached(
    before: Seq<(Seq<char>, (Shape, Option<BackendProblem>))>,
    services: Seq<ServiceObject>,
    slices: Seq<SliceObject>,
    ns: Seq<char>,
    name: Seq<char>,
    own: bool,
    v: Seq<Target>,
    x: Approach,
    i: int,
)
    requires
        0 <= i < v.len(),
    ensures
        at(
            all_sites(before, services, slices, ns, name, own, v, x).0,
            backend_key(ns, name, own, alias_of(v[i])),
        ) is Some,
    decreases v.len(),
{
    let w = all_sites(before, services, slices, ns, name, own, v.drop_last(), x).0;
    let last = backend_key(ns, name, own, alias_of(v.last()));
    let site = site_of(services, slices, ns, v.last(), x);
    let key = backend_key(ns, name, own, alias_of(v[i]));
    if i < v.len() - 1 {
        assert(v.drop_last()[i] == v[i]);
        law_named_backends_are_reached(before, services, slices, ns, name, own, v.drop_last(), x, i);
    }
    lemma_push(w, last, site, key);
}

/// A backend that cannot be reached has no endpoints, and the reason is told; one that can be has its own.
pub proof fn law_unreachable_backends_are_told(
    services: Seq<ServiceObject>,
    slices: Seq<SliceObject>,
    ns: Seq<char>,
    t: Target,
    x: Approach,
)
    ensures
        endpoints_of(services, slices, ns, t) is Err ==> site_of(services, slices, ns, t, x).1 == Some(
            endpoints_of(services, slices, ns, t)->Err_0,
        ) && site_of(services, slices, ns, t, x).0.endpoints.len() == 0,
        endpoints_of(services, slices, ns, t) is Ok ==> site_of(services, slices, ns, t, x).1 is None && site_of(
            services,
            slices,
            ns,
            t,
            x,
        ).0.endpoints.len() == endpoints_of(services, slices, ns, t)->Ok_0.len(),
{
}

/// Of the backends of an Ingress, those that are Services are reached, in order.
pub proof fn law_services_among_backends(v: Seq<Option<Target>>, t: Target)
    ensures
        services_of(v).contains(t) <==> v.contains(Some(t)),
    decreases v.len(),
{
    if v.len() > 0 {
        let u = v.drop_last();
        let w = services_of(v);
        law_services_among_backends(u, t);
        assert(v[v.len() - 1] == v.last());
        if v.contains(Some(t)) && v.last() != Some(t) {
            let k = choose|k: int| 0 <= k < v.len() && v[k] == Some(t);
            assert(u[k] == Some(t));
        }
        if u.contains(Some(t)) {
            let k = choose|k: int| 0 <= k < u.len() && u[k] == Some(t);
            assert(v[k] == Some(t));
        }
        if services_of(u).contains(t) {
            let k = choose|k: int| 0 <= k < services_of(u).len() && services_of(u)[k] == t;
            assert(w[k] == t);
        }
        if w.contains(t) && v.last() != Some(t) {
            let k = choose|k: int| 0 <= k < w.len() && w[k] == t;
            assert(services_of(u)[k] == t);
        }
        if v.last() == Some(t) {
            assert(w[w.len() - 1] == t);
        }
    }
}

} // verus!

//! From Ingress resources to routes: which resources count, in which order, what their rules become, and who
//! owns a host, a path and a name.
use crate::backend::{before, is_before};
use crate::config::load::Listener;
use crate::ingress::backends::{alias_of, backend_alias, is_named};
use crate::ingress::spec::{
    host_rules, path_rules, target, tls_rules, HostRule, IngressSpec, PathRule, PathSpec,
    ServiceBackend, Shape, Target, TlsRule, TlsSpec,
};
use crate::model::{Action, Deed, Matcher, PathMatch};
use crate::net::Socket;
use crate::text;
use vstd::prelude::*;

verus! {

// ---------------------------------------------------------------------------
// Which resources count
// ---------------------------------------------------------------------------

/// A class of Ingresses.
#[derive(Debug)]
pub struct ClassObject {
    pub name: String,
    pub controller: Option<String>,
    /// Whether the class is that of Ingresses without one, as it is annotated.
    pub default: Option<String>,
}

/// The class of a name that this controller serves.
pub open spec fn class_at(v: Seq<ClassObject>, name: Seq<char>) -> Option<ClassObject>
    decreases v.len(),
{
    if v.len() == 0 {
        None
    } else if v[0].name@ == name && text::opt(v[0].controller) == Some(
        "rgnix.io/ingress-controller"@,
    ) {
        Some(v[0])
    } else {
        class_at(v.drop_first(), name)
    }
}

pub fn find_class<'a>(v: &'a Vec<ClassObject>, name: &str) -> (r: Option<&'a ClassObject>)
    ensures
        match r {
            Some(c) => class_at(v@, name@) == Some(*c),
            None => class_at(v@, name@) is None,
        },
{
    let mut i: usize = 0;
    assert(v@.skip(0) =~= v@);
    while i < v.len()
        invariant
            i <= v.len(),
            class_at(v@.skip(i as int), name@) == class_at(v@, name@),
        decreases v.len() - i,
    {
        assert(v@.skip(i as int).drop_first() =~= v@.skip(i + 1));
        if text::same(v[i].name.as_str(), name) && is_named(
            &v[i].controller,
            "rgnix.io/ingress-controller",
        ) {
            return Some(&v[i]);
        }
        i += 1;
    }
    None
}

/// Whether an Ingress is of a class: it names it, or names none and the class is the default one.
pub open spec fn of_class(c: ClassObject, class_name: Option<Seq<char>>) -> bool {
    match class_name {
        Some(n) => n == c.name@,
        None => text::opt(c.default) == Some("true"@),
    }
}

pub fn selects(class: &ClassObject, class_name: &Option<String>) -> (r: bool)
    ensures
        r == of_class(*class, text::opt(*class_name)),
{
    match class_name {
        Some(n) => text::same(n.as_str(), class.name.as_str()),
        None => is_named(&class.default, "true"),
    }
}

/// What the order of resources goes by: the time of creation, the namespace and the name. What is missing
/// comes first.
#[derive(Debug)]
pub struct Age {
    pub created: Option<i64>,
    pub namespace: Option<String>,
    pub name: String,
}

pub open spec fn opt_before(a: Option<Seq<char>>, b: Option<Seq<char>>) -> bool {
    match (a, b) {
        (None, Some(_)) => true,
        (Some(x), Some(y)) => text::before(x, y),
        _ => false,
    }
}

/// Whether a resource is older than another.
pub open spec fn older(a: Age, b: Age) -> bool {
    if a.created != b.created {
        match (a.created, b.created) {
            (None, _) => true,
            (_, None) => false,
            (Some(x), Some(y)) => x < y,
        }
    } else if text::opt(a.namespace) != text::opt(b.namespace) {
        opt_before(text::opt(a.namespace), text::opt(b.namespace))
    } else {
        text::before(a.name@, b.name@)
    }
}

fn is_older(a: &Age, b: &Age) -> (r: bool)
    ensures
        r == older(*a, *b),
{
    if a.created != b.created {
        return match (a.created, b.created) {
            (None, _) => true,
            (_, None) => false,
            (Some(x), Some(y)) => x < y,
        };
    }
    match (&a.namespace, &b.namespace) {
        (None, Some(_)) => true,
        (Some(_), None) => false,
        (Some(x), Some(y)) => if !text::same(x.as_str(), y.as_str()) {
            text::is_before(x.as_str(), y.as_str())
        } else {
            text::is_before(a.name.as_str(), b.name.as_str())
        },
        (None, None) => text::is_before(a.name.as_str(), b.name.as_str()),
    }
}

/// The index put behind those that are not younger.
pub open spec fn aged(v: Seq<Age>, order: Seq<int>, i: int) -> Seq<int>
    decreases order.len(),
{
    if order.len() == 0 {
        seq![i]
    } else if older(v[i], v[order.last()]) {
        aged(v, order.drop_last(), i).push(order.last())
    } else {
        order.push(i)
    }
}

/// The indexes of resources, the oldest first; equal ones stay as they are.
pub open spec fn by_age(v: Seq<Age>, n: int) -> Seq<int>
    decreases n,
{
    if n <= 0 {
        Seq::empty()
    } else {
        aged(v, by_age(v, n - 1), n - 1)
    }
}

pub open spec fn indexes(v: Seq<usize>) -> Seq<int> {
    Seq::new(v.len(), |i: int| v[i] as int)
}

/// The indexes of resources, the oldest first; equal ones stay as they are.
pub fn oldest_first(v: &Vec<Age>) -> (out: Vec<usize>)
    ensures
        indexes(out@) == by_age(v@, v@.len() as int),
        forall|i: int| 0 <= i < out@.len() ==> #[trigger] out@[i] < v@.len(),
{
    let mut out: Vec<usize> = Vec::new();
    let mut i: usize = 0;
    assert(indexes(out@) =~= Seq::empty());
    while i < v.len()
        invariant
            i <= v.len(),
            indexes(out@) == by_age(v@, i as int),
            forall|j: int| 0 <= j < out@.len() ==> #[trigger] out@[j] < i,
        decreases v.len() - i,
    {
        let ghost order = indexes(out@);
        let mut n: usize = out.len();
        assert(order.take(n as int) =~= order);
        assert(aged(v@, order, i as int) =~= aged(v@, order.take(n as int), i as int)
            + order.skip(n as int));
        while n > 0 && is_older(&v[i], &v[out[n - 1]])
            invariant
                n <= out.len(),
                i < v.len(),
                order == indexes(out@),
                forall|j: int| 0 <= j < out@.len() ==> #[trigger] out@[j] < i,
                aged(v@, order, i as int) == aged(v@, order.take(n as int), i as int) + order.skip(
                    n as int,
                ),
            decreases n,
        {
            proof {
                let t = order.take(n as int);
                assert(t.drop_last() =~= order.take(n - 1));
                assert(t.last() == out@[n - 1] as int);
                assert(aged(v@, t.drop_last(), i as int).push(t.last()) + order.skip(n as int)
                    =~= aged(v@, order.take(n - 1), i as int) + order.skip(n - 1));
            }
            n -= 1;
        }
        out.insert(n, i);
        proof {
            let t = order.take(n as int);
            if n == 0 {
                assert(t =~= Seq::empty());
                assert(aged(v@, t, i as int) =~= t.push(i as int));
            }
            assert(indexes(out@) =~= t.push(i as int) + order.skip(n as int));
            assert forall|j: int| 0 <= j < out@.len() implies #[trigger] out@[j] < i + 1 by {
                assert(indexes(out@)[j] == out@[j] as int);
                if j < n {
                    assert(indexes(out@)[j] == order[j]);
                } else if j > n {
                    assert(indexes(out@)[j] == order[j - 1]);
                }
            }
        }
        i += 1;
    }
    out
}

// ---------------------------------------------------------------------------
// Quotas
// ---------------------------------------------------------------------------

/// How much a namespace may ask for.
#[derive(Clone, Copy, Debug, PartialEq, Eq, Structural)]
pub struct Quota {
    pub max_ingresses: usize,
    pub max_routes: usize,
    pub max_backends: usize,
    pub allow_scripts: bool,
    pub max_script_bytes: usize,
    pub allow_mirroring: bool,
}

/// How much a namespace asks for already.
#[derive(Debug)]
pub struct Usage {
    pub ingresses: usize,
    pub routes: usize,
    pub backends: Vec<String>,
}

/// What one more Ingress asks for.
#[derive(Debug)]
pub struct Demand {
    /// The routes that it names now, and those that are kept of it.
    pub routes: usize,
    pub retained_routes: usize,
    /// The backends that it names.
    pub backends: Vec<String>,
    /// The length of its script, where it is found.
    pub script: Option<usize>,
    pub scripted: bool,
}

pub open spec fn larger(a: usize, b: usize) -> usize {
    if a > b {
        a
    } else {
        b
    }
}

/// The names with those that are new.
pub open spec fn joined(v: Seq<Seq<char>>, w: Seq<Seq<char>>) -> Seq<Seq<char>>
    decreases w.len(),
{
    if w.len() == 0 {
        v
    } else {
        let x = joined(v, w.drop_last());
        if x.contains(w.last()) {
            x
        } else {
            x.push(w.last())
        }
    }
}

/// Whether an Ingress exceeds what its namespace may ask for.
pub open spec fn exceeds(u: Usage, d: Demand, q: Quota) -> bool {
    ||| u.ingresses >= q.max_ingresses
    ||| u.routes + larger(d.routes, d.retained_routes) > q.max_routes
    ||| joined(text::texts(u.backends@), text::texts(d.backends@)).len() > q.max_backends
    ||| (d.scripted && !q.allow_scripts)
    ||| (d.script is Some && d.script->0 > q.max_script_bytes)
}

fn join(v: &Vec<String>, w: &Vec<String>) -> (out: Vec<String>)
    ensures
        text::texts(out@) == joined(text::texts(v@), text::texts(w@)),
{
    let ghost all = text::texts(w@);
    let mut out = text::copy_all(v);
    let mut i: usize = 0;
    while i < w.len()
        invariant
            i <= w.len(),
            all == text::texts(w@),
            text::texts(out@) == joined(text::texts(v@), all.take(i as int)),
        decreases w.len() - i,
    {
        let ghost before = text::texts(out@);
        assert(all.take(i + 1).drop_last() =~= all.take(i as int));
        if !text::contains(&out, w[i].as_str()) {
            out.push(w[i].clone());
            assert(text::texts(out@) =~= before.push(w@[i as int]@));
        }
        i += 1;
    }
    assert(all.take(i as int) =~= all);
    out
}

/// Counts one more Ingress of a namespace; `false` where it exceeds what the namespace may ask for, and
/// then nothing is counted.
pub fn admit_ingress(usage: &mut Usage, demand: &Demand, quota: &Quota) -> (r: bool)
    ensures
        r == !exceeds(*old(usage), *demand, *quota),
        r ==> {
            &&& final(usage).ingresses == old(usage).ingresses + 1
            &&& final(usage).routes == old(usage).routes + larger(
                demand.routes,
                demand.retained_routes,
            )
            &&& text::texts(final(usage).backends@) == joined(
                text::texts(old(usage).backends@),
                text::texts(demand.backends@),
            )
        },
        !r ==> *final(usage) == *old(usage),
{
    if usage.ingresses >= quota.max_ingresses {
        return false;
    }
    let routes: usize = if demand.routes > demand.retained_routes {
        demand.routes
    } else {
        demand.retained_routes
    };
    if usage.routes > quota.max_routes || routes > quota.max_routes - usage.routes {
        return false;
    }
    let backends = join(&usage.backends, &demand.backends);
    assert(text::texts(backends@).len() == backends@.len());
    if backends.len() > quota.max_backends || (demand.scripted && !quota.allow_scripts) {
        return false;
    }
    if let Some(n) = demand.script {
        if n > quota.max_script_bytes {
            return false;
        }
    }
    usage.ingresses = usage.ingresses + 1;
    usage.routes = usage.routes + routes;
    usage.backends = backends;
    true
}

/// Whether a version from before exceeds what a namespace may ask for now.
pub fn retained_exceeds(source: &str, reference: &str, quota: &Quota) -> (r: bool)
    ensures
        r == (text::byte_len(source@) > quota.max_script_bytes || (reference@.len() > 0
            && !quota.allow_scripts)),
{
    text::len(source) > quota.max_script_bytes || (!reference.is_empty() && !quota.allow_scripts)
}

// ---------------------------------------------------------------------------
// Rules
// ---------------------------------------------------------------------------

/// What a path of a rule becomes; nothing where its type is not supported.
pub open spec fn rule_matcher(p: PathRule) -> Option<Matcher> {
    let value = match p.path {
        Some(s) => s,
        None => "/"@,
    };
    if p.path_type == "Exact"@ {
        Some(Matcher::Exact(value))
    } else if p.path_type == "Prefix"@ || p.path_type == "ImplementationSpecific"@ {
        let s = text::trim_end_char_spec(value, '/');
        Some(
            Matcher::IngressPrefix(
                if s.len() == 0 {
                    "/"@
                } else {
                    s
                },
            ),
        )
    } else {
        None
    }
}

fn path_matcher(p: &PathSpec) -> (r: Option<PathMatch>)
    ensures
        match r {
            Some(m) => rule_matcher(p@) == Some(m@),
            None => rule_matcher(p@) is None,
        },
{
    let value: &str = match &p.path {
        Some(s) => s.as_str(),
        None => "/",
    };
    if text::same(p.path_type.as_str(), "Exact") {
        Some(PathMatch::Exact(value.to_owned()))
    } else if text::same(p.path_type.as_str(), "Prefix") || text::same(
        p.path_type.as_str(),
        "ImplementationSpecific",
    ) {
        let s = text::trim_end_char(value, '/');
        if s.is_empty() {
            Some(PathMatch::IngressPrefix("/".to_owned()))
        } else {
            Some(PathMatch::IngressPrefix(s.to_owned()))
        }
    } else {
        None
    }
}

/// A host, the paths at it, and the service that they lead to.
#[derive(Debug)]
pub struct RouteRule {
    pub host: String,
    pub matcher: PathMatch,
    pub service: Option<ServiceBackend>,
}

#[verifier::ext_equal]
pub ghost struct Lane {
    pub host: Seq<char>,
    pub matcher: Matcher,
    pub service: Option<Target>,
}

impl View for RouteRule {
    type V = Lane;

    open spec fn view(&self) -> Lane {
        Lane { host: self.host@, matcher: self.matcher@, service: target(self.service) }
    }
}

pub open spec fn lanes(v: Seq<RouteRule>) -> Seq<Lane> {
    Seq::new(v.len(), |i: int| v[i]@)
}

/// The rules of the paths at a host, and the types of those that are not supported.
pub open spec fn path_lanes(host: Seq<char>, v: Seq<PathRule>) -> (Seq<Lane>, Seq<Seq<char>>)
    decreases v.len(),
{
    if v.len() == 0 {
        (Seq::empty(), Seq::empty())
    } else {
        let (w, x) = path_lanes(host, v.drop_last());
        match rule_matcher(v.last()) {
            Some(matcher) => (w.push(Lane { host, matcher, service: v.last().service }), x),
            None => (w, x.push(v.last().path_type)),
        }
    }
}

pub open spec fn host_text(h: Option<Seq<char>>) -> Seq<char> {
    match h {
        Some(h) => text::lowercase(h),
        None => Seq::empty(),
    }
}

/// The rules of an Ingress, and the types of those that are not supported.
pub open spec fn rule_lanes(v: Seq<HostRule>) -> (Seq<Lane>, Seq<Seq<char>>)
    decreases v.len(),
{
    if v.len() == 0 {
        (Seq::empty(), Seq::empty())
    } else {
        let (a, x) = rule_lanes(v.drop_last());
        let (b, y) = path_lanes(host_text(v.last().host), v.last().paths);
        (a + b, x + y)
    }
}

/// The rules of an Ingress, the default backend's first, and the types of those that are not supported.
pub open spec fn all_lanes(s: Shape) -> (Seq<Lane>, Seq<Seq<char>>) {
    let (v, x) = rule_lanes(s.rules);
    match s.default_backend {
        None => (v, x),
        Some(service) => (
            seq![Lane { host: Seq::empty(), matcher: Matcher::IngressDefault, service }] + v,
            x,
        ),
    }
}

fn copy_service(s: &Option<ServiceBackend>) -> (r: Option<ServiceBackend>)
    ensures
        target(r) == target(*s),
{
    match s {
        Some(s) => Some(s.copy()),
        None => None,
    }
}

fn add_paths(out: &mut Vec<RouteRule>, bad: &mut Vec<String>, host: &str, v: &Vec<PathSpec>)
    ensures
        lanes(final(out)@) == lanes(old(out)@) + path_lanes(host@, path_rules(v@)).0,
        text::texts(final(bad)@) == text::texts(old(bad)@) + path_lanes(host@, path_rules(v@)).1,
{
    let ghost all = path_rules(v@);
    let ghost start = lanes(out@);
    let ghost first = text::texts(bad@);
    let mut i: usize = 0;
    assert(start + Seq::<Lane>::empty() =~= start);
    assert(first + Seq::<Seq<char>>::empty() =~= first);
    while i < v.len()
        invariant
            i <= v.len(),
            all == path_rules(v@),
            lanes(out@) == start + path_lanes(host@, all.take(i as int)).0,
            text::texts(bad@) == first + path_lanes(host@, all.take(i as int)).1,
        decreases v.len() - i,
    {
        let p = &v[i];
        let ghost before = lanes(out@);
        let ghost earlier = text::texts(bad@);
        let ghost done = path_lanes(host@, all.take(i as int));
        proof {
            assert(all.take(i + 1).drop_last() =~= all.take(i as int));
            assert(all.take(i + 1).last() == p@);
        }
        match path_matcher(p) {
            Some(matcher) => {
                let r = RouteRule {
                    host: host.to_owned(),
                    matcher,
                    service: copy_service(&p.backend.service),
                };
                let ghost x = r@;
                out.push(r);
                assert(lanes(out@) =~= before.push(x));
                assert(before.push(x) =~= start + done.0.push(x));
            },
            None => {
                bad.push(p.path_type.clone());
                assert(text::texts(bad@) =~= earlier.push(p.path_type@));
                assert(earlier.push(p.path_type@) =~= first + done.1.push(p.path_type@));
            },
        }
        i += 1;
    }
    assert(all.take(i as int) =~= all);
}

/// The rules of an Ingress, the default backend's first, and the types of those that are not supported.
pub fn route_rules(spec: &IngressSpec) -> (r: (Vec<RouteRule>, Vec<String>))
    ensures
        (lanes(r.0@), text::texts(r.1@)) == all_lanes(spec@),
{
    let mut out: Vec<RouteRule> = Vec::new();
    let mut bad: Vec<String> = Vec::new();
    if let Some(b) = &spec.default_backend {
        let r = RouteRule {
            host: String::new(),
            matcher: PathMatch::IngressDefault,
            service: copy_service(&b.service),
        };
        assert(r@ =~= (Lane {
            host: Seq::empty(),
            matcher: Matcher::IngressDefault,
            service: target(b.service),
        }));
        let ghost x = r@;
        out.push(r);
        assert(lanes(out@) =~= seq![x]);
    } else {
        assert(lanes(out@) =~= Seq::empty());
    }
    let ghost start = lanes(out@);
    let ghost all = host_rules(spec.rules@);
    let mut i: usize = 0;
    assert(start + Seq::<Lane>::empty() =~= start);
    assert(text::texts(bad@) =~= Seq::empty());
    while i < spec.rules.len()
        invariant
            i <= spec.rules.len(),
            all == host_rules(spec.rules@),
            lanes(out@) == start + rule_lanes(all.take(i as int)).0,
            text::texts(bad@) == rule_lanes(all.take(i as int)).1,
        decreases spec.rules.len() - i,
    {
        let rule = &spec.rules[i];
        proof {
            assert(all.take(i + 1).drop_last() =~= all.take(i as int));
            assert(all.take(i + 1).last() == rule@);
        }
        let host = match &rule.host {
            Some(h) => text::to_lowercase(h.as_str()),
            None => String::new(),
        };
        assert(host@ =~= host_text(rule@.host));
        add_paths(&mut out, &mut bad, host.as_str(), &rule.paths);
        assert(lanes(out@) =~= start + rule_lanes(all.take(i + 1)).0);
        i += 1;
    }
    proof {
        assert(all.take(i as int) =~= all);
        assert(Seq::<Lane>::empty() + rule_lanes(all).0 =~= rule_lanes(all).0);
    }
    (out, bad)
}

/// The key of a backend: shared by the Ingresses of a namespace, unless annotations make it one's own.
pub open spec fn backend_key(
    namespace: Seq<char>,
    name: Seq<char>,
    own: bool,
    alias: Seq<char>,
) -> Seq<char> {
    if own {
        namespace + "/"@ + name + "/"@ + alias
    } else {
        namespace + "/"@ + alias
    }
}

pub fn key_of(namespace: &str, name: &str, own: bool, alias: &str) -> (out: String)
    ensures
        out@ == backend_key(namespace@, name@, own, alias@),
{
    if own {
        let mut out = text::concat3(namespace, "/", name);
        out.append("/");
        out.append(alias);
        out
    } else {
        text::concat3(namespace, "/", alias)
    }
}

/// What a rule does: a rule of an Ingress that is not served, or that names no service, answers that nothing
/// is there.
pub open spec fn lane_deed(
    namespace: Seq<char>,
    name: Seq<char>,
    own: bool,
    invalid: bool,
    service: Option<Target>,
) -> Deed {
    if invalid || service is None {
        Deed::Unavailable
    } else {
        Deed::Proxy {
            backend: backend_key(namespace, name, own, alias_of(service->0)),
            uri: None,
        }
    }
}

fn rule_action(
    namespace: &str,
    name: &str,
    own: bool,
    invalid: bool,
    service: &Option<ServiceBackend>,
) -> (r: Action)
    ensures
        r@ == lane_deed(namespace@, name@, own, invalid, target(*service)),
{
    match service {
        Some(s) if !invalid => {
            let alias = backend_alias(s);
            Action::Proxy { backend: key_of(namespace, name, own, alias.as_str()), uri: None }
        },
        _ => Action::Unavailable,
    }
}

/// The identity of a route.
pub open spec fn lane_id(namespace: Seq<char>, name: Seq<char>, l: Lane) -> Seq<char> {
    namespace + "/"@ + name + ":"@ + l.host + ":"@ + if l.matcher is IngressDefault {
        "default"@
    } else {
        l.matcher.path()
    }
}

fn rule_id(namespace: &str, name: &str, rule: &RouteRule) -> (out: String)
    ensures
        out@ == lane_id(namespace@, name@, rule@),
{
    let mut out = text::concat3(namespace, "/", name);
    out.append(":");
    out.append(rule.host.as_str());
    out.append(":");
    match &rule.matcher {
        PathMatch::IngressDefault => out.append("default"),
        m => out.append(m.path()),
    }
    out
}

// ---------------------------------------------------------------------------
// Owners
// ---------------------------------------------------------------------------

/// A route of an Ingress, which is named by its place among those that count.
#[derive(Debug)]
pub struct IngressRoute {
    pub id: String,
    pub owner: usize,
    pub matcher: PathMatch,
    pub action: Action,
}

#[verifier::ext_equal]
pub ghost struct Path {
    pub id: Seq<char>,
    pub owner: usize,
    pub matcher: Matcher,
    pub action: Deed,
}

impl View for IngressRoute {
    type V = Path;

    open spec fn view(&self) -> Path {
        Path { id: self.id@, owner: self.owner, matcher: self.matcher@, action: self.action@ }
    }
}

pub open spec fn paths(v: Seq<IngressRoute>) -> Seq<Path> {
    Seq::new(v.len(), |i: int| v[i]@)
}

/// The routes of a host at a listener.
#[derive(Debug)]
pub struct Group {
    pub listener: Socket,
    pub host: String,
    pub routes: Vec<IngressRoute>,
}

#[verifier::ext_equal]
pub ghost struct Place {
    pub listener: Socket,
    pub host: Seq<char>,
    pub routes: Seq<Path>,
}

impl View for Group {
    type V = Place;

    open spec fn view(&self) -> Place {
        Place { listener: self.listener, host: self.host@, routes: paths(self.routes@) }
    }
}

pub open spec fn places(v: Seq<Group>) -> Seq<Place> {
    Seq::new(v.len(), |i: int| v[i]@)
}

/// Whether the routes of a place come before those of another.
pub open spec fn place_before(l: Socket, h: Seq<char>, p: Place) -> bool {
    before(l, p.listener) || (l == p.listener && text::before(h, p.host))
}

pub open spec fn owned(v: Seq<Path>, m: Matcher) -> bool {
    exists|i: int| 0 <= i < v.len() && (#[trigger] v[i]).matcher == m
}

/// The places with one more route: where its paths belong to another already, nothing changes.
pub open spec fn with_route(v: Seq<Place>, l: Socket, h: Seq<char>, r: Path) -> Seq<Place>
    decreases v.len(),
{
    if v.len() == 0 {
        seq![Place { listener: l, host: h, routes: seq![r] }]
    } else if v[0].listener == l && v[0].host == h {
        if owned(v[0].routes, r.matcher) {
            v
        } else {
            seq![Place { routes: v[0].routes.push(r), ..v[0] }] + v.drop_first()
        }
    } else if place_before(l, h, v[0]) {
        seq![Place { listener: l, host: h, routes: seq![r] }] + v
    } else {
        seq![v[0]] + with_route(v.drop_first(), l, h, r)
    }
}

/// Whether the paths of a route at a host and a listener belong to another already.
pub open spec fn taken(v: Seq<Place>, l: Socket, h: Seq<char>, m: Matcher) -> bool
    decreases v.len(),
{
    if v.len() == 0 {
        false
    } else if v[0].listener == l && v[0].host == h {
        owned(v[0].routes, m)
    } else if place_before(l, h, v[0]) {
        false
    } else {
        taken(v.drop_first(), l, h, m)
    }
}

fn is_owned(v: &Vec<IngressRoute>, m: &PathMatch) -> (r: bool)
    ensures
        r == owned(paths(v@), m@),
{
    let mut i: usize = 0;
    while i < v.len()
        invariant
            i <= v.len(),
            forall|j: int| 0 <= j < i ==> (#[trigger] paths(v@)[j]).matcher != m@,
        decreases v.len() - i,
    {
        if v[i].matcher.same(m) {
            assert(paths(v@)[i as int].matcher == m@);
            return true;
        }
        i += 1;
    }
    false
}

/// Adds a route to its place; `false` where its paths belong to another already.
fn place_route(v: &mut Vec<Group>, l: Socket, h: &str, r: IngressRoute) -> (added: bool)
    ensures
        added == !taken(places(old(v)@), l, h@, r@.matcher),
        places(final(v)@) == with_route(places(old(v)@), l, h@, r@),
{
    let ghost all = places(v@);
    let ghost x = r@;
    let mut i: usize = 0;
    proof {
        assert(all.skip(0) =~= all);
        assert(all.take(0) + with_route(all.skip(0), l, h@, x) =~= with_route(all, l, h@, x));
    }
    while i < v.len() && !(v[i].listener == l && text::same(v[i].host.as_str(), h)) && !(is_before(
        l,
        v[i].listener,
    ) || (l == v[i].listener && text::is_before(h, v[i].host.as_str())))
        invariant
            i <= v.len(),
            all == places(v@),
            taken(all.skip(i as int), l, h@, x.matcher) == taken(all, l, h@, x.matcher),
            all.take(i as int) + with_route(all.skip(i as int), l, h@, x) == with_route(
                all,
                l,
                h@,
                x,
            ),
        decreases v.len() - i,
    {
        proof {
            let rest = all.skip(i as int);
            assert(rest[0] == v@[i as int]@);
            assert(rest.drop_first() =~= all.skip(i + 1));
            assert(all.take(i + 1) + with_route(all.skip(i + 1), l, h@, x) =~= all.take(i as int)
                + with_route(rest, l, h@, x));
        }
        i += 1;
    }
    let ghost rest = all.skip(i as int);
    if i < v.len() && v[i].listener == l && text::same(v[i].host.as_str(), h) {
        assert(rest[0] == v@[i as int]@);
        if is_owned(&v[i].routes, &r.matcher) {
            assert(all.take(i as int) + rest =~= all);
            return false;
        }
        let ghost old_routes = paths(v@[i as int].routes@);
        let mut routes: Vec<IngressRoute> = Vec::new();
        std::mem::swap(&mut routes, &mut v[i].routes);
        routes.push(r);
        assert(paths(routes@) =~= old_routes.push(x));
        v[i].routes = routes;
        proof {
            let y = Place { routes: old_routes.push(x), ..all[i as int] };
            assert(rest.drop_first() =~= all.skip(i + 1));
            assert(places(v@) =~= all.update(i as int, y));
            assert(all.update(i as int, y) =~= all.take(i as int) + (seq![y] + rest.drop_first()));
        }
        return true;
    }
    let mut routes: Vec<IngressRoute> = Vec::new();
    routes.push(r);
    assert(paths(routes@) =~= seq![x]);
    let g = Group { listener: l, host: h.to_owned(), routes };
    let ghost y = g@;
    v.insert(i, g);
    proof {
        if i < all.len() {
            assert(rest[0] == all[i as int]);
            assert(with_route(rest, l, h@, x) == seq![y] + rest);
        } else {
            assert(rest =~= Seq::empty());
            assert(with_route(rest, l, h@, x) =~= seq![y] + rest);
        }
        assert(places(v@) =~= all.take(i as int) + (seq![y] + rest));
    }
    true
}

// ---------------------------------------------------------------------------
// The whole
// ---------------------------------------------------------------------------

/// An Ingress whose version is settled.
#[derive(Debug)]
pub struct Prepared {
    pub namespace: String,
    pub name: String,
    /// The rules that are served.
    pub routing: IngressSpec,
    /// The names that are claimed now.
    pub tls: Vec<TlsSpec>,
    /// Whether its backends are its own.
    pub own: bool,
    /// Whether its routes answer that nothing is there.
    pub invalid: bool,
}

#[verifier::ext_equal]
pub ghost struct Settled {
    pub namespace: Seq<char>,
    pub name: Seq<char>,
    pub routing: Shape,
    pub tls: Seq<TlsRule>,
    pub own: bool,
    pub invalid: bool,
}

impl View for Prepared {
    type V = Settled;

    open spec fn view(&self) -> Settled {
        Settled {
            namespace: self.namespace@,
            name: self.name@,
            routing: self.routing@,
            tls: tls_rules(self.tls@),
            own: self.own,
            invalid: self.invalid,
        }
    }
}

pub open spec fn settled(v: Seq<Prepared>) -> Seq<Settled> {
    Seq::new(v.len(), |i: int| v[i]@)
}

/// A name that an Ingress claims at a listener: by which of its entries, and the secret that belongs to it.
#[derive(Debug)]
pub struct Claim {
    pub owner: usize,
    pub entry: usize,
    pub listener: Socket,
    pub name: String,
}

#[verifier::ext_equal]
pub ghost struct Title {
    pub owner: usize,
    pub entry: usize,
    pub listener: Socket,
    pub name: Seq<char>,
}

impl View for Claim {
    type V = Title;

    open spec fn view(&self) -> Title {
        Title { owner: self.owner, entry: self.entry, listener: self.listener, name: self.name@ }
    }
}

pub open spec fn titles(v: Seq<Claim>) -> Seq<Title> {
    Seq::new(v.len(), |i: int| v[i]@)
}

/// What an Ingress asks for in vain.
#[derive(Debug)]
pub enum Trouble {
    UnsupportedBackend,
    UnsupportedPath(String),
    RouteConflict { host: String, path: String },
    DefaultConflict,
    TlsConflict(String),
}

#[verifier::ext_equal]
pub ghost enum Complaint {
    UnsupportedBackend,
    UnsupportedPath(Seq<char>),
    RouteConflict { host: Seq<char>, path: Seq<char> },
    DefaultConflict,
    TlsConflict(Seq<char>),
}

impl View for Trouble {
    type V = Complaint;

    open spec fn view(&self) -> Complaint {
        match self {
            Trouble::UnsupportedBackend => Complaint::UnsupportedBackend,
            Trouble::UnsupportedPath(s) => Complaint::UnsupportedPath(s@),
            Trouble::RouteConflict { host, path } => Complaint::RouteConflict {
                host: host@,
                path: path@,
            },
            Trouble::DefaultConflict => Complaint::DefaultConflict,
            Trouble::TlsConflict(s) => Complaint::TlsConflict(s@),
        }
    }
}

pub open spec fn complaints(v: Seq<(usize, Trouble)>) -> Seq<(usize, Complaint)> {
    Seq::new(v.len(), |i: int| (v[i].0, v[i].1@))
}

/// The routes and names of all Ingresses, and what was asked for in vain.
#[derive(Debug)]
pub struct Assembly {
    pub groups: Vec<Group>,
    pub claims: Vec<Claim>,
    pub troubles: Vec<(usize, Trouble)>,
}

#[verifier::ext_equal]
pub ghost struct World {
    pub places: Seq<Place>,
    pub titles: Seq<Title>,
    pub complaints: Seq<(usize, Complaint)>,
}

impl View for Assembly {
    type V = World;

    open spec fn view(&self) -> World {
        World {
            places: places(self.groups@),
            titles: titles(self.claims@),
            complaints: complaints(self.troubles@),
        }
    }
}

pub open spec fn lane_path(p: Settled, owner: usize, l: Lane) -> Path {
    Path {
        id: lane_id(p.namespace, p.name, l),
        owner,
        matcher: l.matcher,
        action: lane_deed(p.namespace, p.name, p.own, p.invalid, l.service),
    }
}

pub open spec fn conflict(l: Lane) -> Complaint {
    if l.matcher is IngressDefault {
        Complaint::DefaultConflict
    } else {
        Complaint::RouteConflict { host: l.host, path: l.matcher.path() }
    }
}

/// A rule at each listener.
pub open spec fn with_lane(
    w: World,
    p: Settled,
    owner: usize,
    l: Lane,
    listeners: Seq<Listener>,
) -> World
    decreases listeners.len(),
{
    if listeners.len() == 0 {
        w
    } else {
        let x = with_lane(w, p, owner, l, listeners.drop_last());
        let address = listeners.last().address;
        World {
            places: with_route(x.places, address, l.host, lane_path(p, owner, l)),
            complaints: if taken(x.places, address, l.host, l.matcher) {
                x.complaints.push((owner, conflict(l)))
            } else {
                x.complaints
            },
            ..x
        }
    }
}

pub open spec fn with_lanes(
    w: World,
    p: Settled,
    owner: usize,
    v: Seq<Lane>,
    listeners: Seq<Listener>,
) -> World
    decreases v.len(),
{
    if v.len() == 0 {
        w
    } else {
        with_lane(with_lanes(w, p, owner, v.drop_last(), listeners), p, owner, v.last(), listeners)
    }
}

pub open spec fn titled(v: Seq<Title>, listener: Socket, name: Seq<char>) -> bool {
    exists|i: int|
        0 <= i < v.len() && (#[trigger] v[i]).listener == listener && v[i].name == name
}

/// A name at each listener with TLS: the first to claim it there has it.
pub open spec fn with_name(
    w: World,
    owner: usize,
    entry: usize,
    name: Seq<char>,
    listeners: Seq<Listener>,
) -> World
    decreases listeners.len(),
{
    if listeners.len() == 0 {
        w
    } else {
        let x = with_name(w, owner, entry, name, listeners.drop_last());
        let l = listeners.last();
        if !l.tls {
            x
        } else if titled(x.titles, l.address, name) {
            World { complaints: x.complaints.push((owner, Complaint::TlsConflict(name))), ..x }
        } else {
            World {
                titles: x.titles.push(Title { owner, entry, listener: l.address, name }),
                ..x
            }
        }
    }
}

pub open spec fn with_names(
    w: World,
    owner: usize,
    entry: usize,
    names: Seq<Seq<char>>,
    listeners: Seq<Listener>,
) -> World
    decreases names.len(),
{
    if names.len() == 0 {
        w
    } else {
        with_name(
            with_names(w, owner, entry, names.drop_last(), listeners),
            owner,
            entry,
            text::lowercase(names.last()),
            listeners,
        )
    }
}

pub open spec fn with_tls(
    w: World,
    owner: usize,
    v: Seq<TlsRule>,
    listeners: Seq<Listener>,
) -> World
    decreases v.len(),
{
    if v.len() == 0 {
        w
    } else {
        with_names(
            with_tls(w, owner, v.drop_last(), listeners),
            owner,
            (v.len() - 1) as usize,
            v.last().hosts,
            listeners,
        )
    }
}

pub open spec fn unsupported(owner: usize, types: Seq<Seq<char>>) -> Seq<(usize, Complaint)> {
    Seq::new(types.len(), |i: int| (owner, Complaint::UnsupportedPath(types[i])))
}

/// One more Ingress.
pub open spec fn with_ingress(w: World, p: Settled, owner: usize, listeners: Seq<Listener>) -> World {
    let (v, types) = all_lanes(p.routing);
    let first = if p.routing.default_backend == Some(None::<Target>) {
        w.complaints.push((owner, Complaint::UnsupportedBackend))
    } else {
        w.complaints
    };
    let start = World { complaints: first + unsupported(owner, types), ..w };
    with_tls(with_lanes(start, p, owner, v, listeners), owner, p.tls, listeners)
}

/// All Ingresses, the oldest first.
pub open spec fn assembled(v: Seq<Settled>, listeners: Seq<Listener>) -> World
    decreases v.len(),
{
    if v.len() == 0 {
        World { places: Seq::empty(), titles: Seq::empty(), complaints: Seq::empty() }
    } else {
        with_ingress(
            assembled(v.drop_last(), listeners),
            v.last(),
            (v.len() - 1) as usize,
            listeners,
        )
    }
}

fn complain(a: &mut Assembly, owner: usize, t: Trouble)
    ensures
        final(a)@ == (World { complaints: old(a)@.complaints.push((owner, t@)), ..old(a)@ }),
{
    let ghost before = complaints(a.troubles@);
    let ghost x = t@;
    a.troubles.push((owner, t));
    assert(complaints(a.troubles@) =~= before.push((owner, x)));
}

fn add_lane(a: &mut Assembly, p: &Prepared, owner: usize, rule: &RouteRule, listeners: &Vec<Listener>)
    ensures
        final(a)@ == with_lane(old(a)@, p@, owner, rule@, listeners@),
{
    let ghost start = a@;
    let mut i: usize = 0;
    while i < listeners.len()
        invariant
            i <= listeners.len(),
            a@ == with_lane(start, p@, owner, rule@, listeners@.take(i as int)),
        decreases listeners.len() - i,
    {
        assert(listeners@.take(i + 1).drop_last() =~= listeners@.take(i as int));
        let route = IngressRoute {
            id: rule_id(p.namespace.as_str(), p.name.as_str(), rule),
            owner,
            matcher: rule.matcher.copy(),
            action: rule_action(
                p.namespace.as_str(),
                p.name.as_str(),
                p.own,
                p.invalid,
                &rule.service,
            ),
        };
        assert(route@ == lane_path(p@, owner, rule@));
        let added = place_route(&mut a.groups, listeners[i].address, rule.host.as_str(), route);
        if !added {
            let t = match &rule.matcher {
                PathMatch::IngressDefault => Trouble::DefaultConflict,
                m => Trouble::RouteConflict {
                    host: rule.host.clone(),
                    path: m.path().to_owned(),
                },
            };
            assert(t@ == conflict(rule@));
            complain(a, owner, t);
        }
        i += 1;
    }
    assert(listeners@.take(i as int) =~= listeners@);
}

fn is_titled(v: &Vec<Claim>, listener: Socket, name: &str) -> (r: bool)
    ensures
        r == titled(titles(v@), listener, name@),
{
    let mut i: usize = 0;
    while i < v.len()
        invariant
            i <= v.len(),
            forall|j: int|
                0 <= j < i ==> !((#[trigger] titles(v@)[j]).listener == listener && titles(
                    v@,
                )[j].name == name@),
        decreases v.len() - i,
    {
        if v[i].listener == listener && text::same(v[i].name.as_str(), name) {
            assert(titles(v@)[i as int].listener == listener);
            return true;
        }
        i += 1;
    }
    false
}

fn add_name(a: &mut Assembly, owner: usize, entry: usize, name: &str, listeners: &Vec<Listener>)
    ensures
        final(a)@ == with_name(old(a)@, owner, entry, name@, listeners@),
{
    let ghost start = a@;
    let mut i: usize = 0;
    while i < listeners.len()
        invariant
            i <= listeners.len(),
            a@ == with_name(start, owner, entry, name@, listeners@.take(i as int)),
        decreases listeners.len() - i,
    {
        assert(listeners@.take(i + 1).drop_last() =~= listeners@.take(i as int));
        let l = &listeners[i];
        if l.tls {
            if is_titled(&a.claims, l.address, name) {
                complain(a, owner, Trouble::TlsConflict(name.to_owned()));
            } else {
                let ghost before = titles(a.claims@);
                let c = Claim { owner, entry, listener: l.address, name: name.to_owned() };
                let ghost x = c@;
                a.claims.push(c);
                assert(titles(a.claims@) =~= before.push(x));
            }
        }
        i += 1;
    }
    assert(listeners@.take(i as int) =~= listeners@);
}

fn add_tls(a: &mut Assembly, owner: usize, v: &Vec<TlsSpec>, listeners: &Vec<Listener>)
    ensures
        final(a)@ == with_tls(old(a)@, owner, tls_rules(v@), listeners@),
{
    let ghost start = a@;
    let ghost all = tls_rules(v@);
    let mut i: usize = 0;
    while i < v.len()
        invariant
            i <= v.len(),
            all == tls_rules(v@),
            a@ == with_tls(start, owner, all.take(i as int), listeners@),
        decreases v.len() - i,
    {
        let ghost before = a@;
        let ghost names = text::texts(v@[i as int].hosts@);
        proof {
            assert(all.take(i + 1).drop_last() =~= all.take(i as int));
            assert(all.take(i + 1).last().hosts == names);
        }
        let mut j: usize = 0;
        while j < v[i].hosts.len()
            invariant
                i < v.len(),
                j <= v@[i as int].hosts.len(),
                names == text::texts(v@[i as int].hosts@),
                a@ == with_names(before, owner, i, names.take(j as int), listeners@),
            decreases v@[i as int].hosts.len() - j,
        {
            assert(names.take(j + 1).drop_last() =~= names.take(j as int));
            let name = text::to_lowercase(v[i].hosts[j].as_str());
            add_name(a, owner, i, name.as_str(), listeners);
            j += 1;
        }
        assert(names.take(j as int) =~= names);
        i += 1;
    }
    assert(all.take(i as int) =~= all);
}

fn add_ingress(a: &mut Assembly, p: &Prepared, owner: usize, listeners: &Vec<Listener>)
    ensures
        final(a)@ == with_ingress(old(a)@, p@, owner, listeners@),
{
    let (rules, bad) = route_rules(&p.routing);
    let ghost types = text::texts(bad@);
    if let Some(b) = &p.routing.default_backend {
        if b.service.is_none() {
            complain(a, owner, Trouble::UnsupportedBackend);
        }
    }
    let ghost first = a@;
    let mut i: usize = 0;
    assert(first.complaints + unsupported(owner, types.take(0)) =~= first.complaints);
    assert(a@ =~= World {
        complaints: first.complaints + unsupported(owner, types.take(0)),
        ..first
    });
    while i < bad.len()
        invariant
            i <= bad.len(),
            types == text::texts(bad@),
            a@ == (World {
                complaints: first.complaints + unsupported(owner, types.take(i as int)),
                ..first
            }),
        decreases bad.len() - i,
    {
        complain(a, owner, Trouble::UnsupportedPath(bad[i].clone()));
        assert(a@.complaints =~= first.complaints + unsupported(owner, types.take(i + 1)));
        i += 1;
    }
    assert(types.take(i as int) =~= types);
    let ghost start = a@;
    let ghost all = lanes(rules@);
    let mut i: usize = 0;
    while i < rules.len()
        invariant
            i <= rules.len(),
            all == lanes(rules@),
            a@ == with_lanes(start, p@, owner, all.take(i as int), listeners@),
        decreases rules.len() - i,
    {
        assert(all.take(i + 1).drop_last() =~= all.take(i as int));
        add_lane(a, p, owner, &rules[i], listeners);
        i += 1;
    }
    assert(all.take(i as int) =~= all);
    add_tls(a, owner, &p.tls, listeners);
}

/// The routes and names of all Ingresses, the oldest first, at all listeners.
pub fn assemble(v: &Vec<Prepared>, listeners: &Vec<Listener>) -> (a: Assembly)
    ensures
        a@ == assembled(settled(v@), listeners@),
{
    let ghost all = settled(v@);
    let mut a = Assembly { groups: Vec::new(), claims: Vec::new(), troubles: Vec::new() };
    proof {
        assert(places(a.groups@) =~= Seq::empty());
        assert(titles(a.claims@) =~= Seq::empty());
        assert(complaints(a.troubles@) =~= Seq::empty());
    }
    let mut i: usize = 0;
    while i < v.len()
        invariant
            i <= v.len(),
            all == settled(v@),
            a@ == assembled(all.take(i as int), listeners@),
        decreases v.len() - i,
    {
        assert(all.take(i + 1).drop_last() =~= all.take(i as int));
        assert(all.take(i + 1).last() == v@[i as int]@);
        add_ingress(&mut a, &v[i], i, listeners);
        i += 1;
    }
    assert(all.take(i as int) =~= all);
    a
}

// ---------------------------------------------------------------------------
// Laws
// ---------------------------------------------------------------------------

/// Whether a place comes before another.
pub open spec fn precedes(a: Place, b: Place) -> bool {
    place_before(a.listener, a.host, b)
}

/// No two routes of a place have the same paths.
pub open spec fn unshared(v: Seq<Path>) -> bool {
    forall|i: int, j: int|
        0 <= i < j < v.len() ==> (#[trigger] v[i]).matcher != (#[trigger] v[j]).matcher
}

/// Places in order, none twice, and in each no paths twice.
pub open spec fn tidy(v: Seq<Place>) -> bool {
    &&& forall|i: int, j: int| 0 <= i < j < v.len() ==> precedes(#[trigger] v[i], #[trigger] v[j])
    &&& forall|i: int| 0 <= i < v.len() ==> unshared((#[trigger] v[i]).routes)
}

proof fn lemma_precedes(a: Place, b: Place, c: Place)
    ensures
        precedes(a, b) && precedes(b, c) ==> precedes(a, c),
        precedes(a, b) || precedes(b, a) || (a.listener == b.listener && a.host == b.host),
{
    text::lemma_before_total(a.host, b.host);
    if text::before(a.host, b.host) && text::before(b.host, c.host) {
        text::lemma_before_transitive(a.host, b.host, c.host);
    }
}

proof fn lemma_with_route(v: Seq<Place>, l: Socket, h: Seq<char>, r: Path)
    requires
        tidy(v),
    ensures
        tidy(with_route(v, l, h, r)),
        forall|i: int|
            0 <= i < with_route(v, l, h, r).len() ==> {
                let p = #[trigger] with_route(v, l, h, r)[i];
                (p.listener == l && p.host == h) || exists|k: int|
                    0 <= k < v.len() && (#[trigger] v[k]).listener == p.listener && v[k].host
                        == p.host
            },
    decreases v.len(),
{
    let n = with_route(v, l, h, r);
    let new = Place { listener: l, host: h, routes: seq![r] };
    if v.len() == 0 {
    } else if v[0].listener == l && v[0].host == h {
        if !owned(v[0].routes, r.matcher) {
            let x = v[0].routes.push(r);
            assert(unshared(x)) by {
                assert forall|i: int, j: int| 0 <= i < j < x.len() implies (
                #[trigger] x[i]).matcher != (#[trigger] x[j]).matcher by {
                    if j < v[0].routes.len() {
                        assert(v[0].routes[i].matcher != v[0].routes[j].matcher);
                    } else {
                        assert(v[0].routes[i].matcher != r.matcher);
                    }
                }
            }
            assert forall|i: int, j: int| 0 <= i < j < n.len() implies precedes(
                #[trigger] n[i],
                #[trigger] n[j],
            ) by {
                assert(precedes(v[i], v[j]));
            }
            assert forall|i: int| 0 <= i < n.len() implies unshared((#[trigger] n[i]).routes) by {
                if i > 0 {
                    assert(n[i] == v[i]);
                }
            }
        }
        assert forall|i: int| 0 <= i < n.len() implies ({
            let p = #[trigger] n[i];
            (p.listener == l && p.host == h) || exists|k: int|
                0 <= k < v.len() && (#[trigger] v[k]).listener == p.listener && v[k].host == p.host
        }) by {
            if i > 0 {
                assert(n[i] == v[i]);
            }
        }
    } else if place_before(l, h, v[0]) {
        assert(precedes(new, v[0]));
        assert forall|i: int, j: int| 0 <= i < j < n.len() implies precedes(
            #[trigger] n[i],
            #[trigger] n[j],
        ) by {
            if i > 0 {
                assert(precedes(v[i - 1], v[j - 1]));
            } else if j > 1 {
                assert(precedes(v[0], v[j - 1]));
                lemma_precedes(new, v[0], v[j - 1]);
            }
        }
        assert forall|i: int| 0 <= i < n.len() implies unshared((#[trigger] n[i]).routes) by {
            if i > 0 {
                assert(n[i] == v[i - 1]);
            }
        }
        assert forall|i: int| 0 <= i < n.len() implies ({
            let p = #[trigger] n[i];
            (p.listener == l && p.host == h) || exists|k: int|
                0 <= k < v.len() && (#[trigger] v[k]).listener == p.listener && v[k].host == p.host
        }) by {
            if i > 0 {
                assert(n[i] == v[i - 1]);
            }
        }
    } else {
        let w = v.drop_first();
        assert(tidy(w)) by {
            assert forall|i: int, j: int| 0 <= i < j < w.len() implies precedes(
                #[trigger] w[i],
                #[trigger] w[j],
            ) by {
                assert(precedes(v[i + 1], v[j + 1]));
            }
            assert forall|i: int| 0 <= i < w.len() implies unshared((#[trigger] w[i]).routes) by {
                assert(w[i] == v[i + 1]);
            }
        }
        lemma_with_route(w, l, h, r);
        let m = with_route(w, l, h, r);
        lemma_precedes(new, v[0], v[0]);
        assert(precedes(v[0], new));
        assert forall|i: int| 0 <= i < m.len() implies precedes(v[0], #[trigger] m[i]) by {
            let p = m[i];
            if !(p.listener == l && p.host == h) {
                let k = choose|k: int|
                    0 <= k < w.len() && (#[trigger] w[k]).listener == p.listener && w[k].host
                        == p.host;
                assert(precedes(v[0], v[k + 1]));
            }
        }
        assert forall|i: int, j: int| 0 <= i < j < n.len() implies precedes(
            #[trigger] n[i],
            #[trigger] n[j],
        ) by {
            if i > 0 {
                assert(precedes(m[i - 1], m[j - 1]));
            } else {
                assert(precedes(v[0], m[j - 1]));
            }
        }
        assert forall|i: int| 0 <= i < n.len() implies unshared((#[trigger] n[i]).routes) by {
            if i > 0 {
                assert(n[i] == m[i - 1]);
            } else {
                assert(n[0] == v[0]);
            }
        }
        assert forall|i: int| 0 <= i < n.len() implies ({
            let p = #[trigger] n[i];
            (p.listener == l && p.host == h) || exists|k: int|
                0 <= k < v.len() && (#[trigger] v[k]).listener == p.listener && v[k].host == p.host
        }) by {
            if i > 0 {
                let p = m[i - 1];
                if !(p.listener == l && p.host == h) {
                    let k = choose|k: int|
                        0 <= k < w.len() && (#[trigger] w[k]).listener == p.listener && w[k].host
                            == p.host;
                    assert(v[k + 1].listener == p.listener);
                }
            } else {
                assert(v[0].listener == n[0].listener);
            }
        }
    }
}

/// No name is claimed twice at a listener.
pub open spec fn single(v: Seq<Title>) -> bool {
    forall|i: int, j: int|
        0 <= i < j < v.len() ==> (#[trigger] v[i]).listener != (#[trigger] v[j]).listener || v[i].name
            != v[j].name
}

/// What holds of the routes and names of all Ingresses.
pub open spec fn orderly(w: World) -> bool {
    tidy(w.places) && single(w.titles)
}

proof fn lemma_lane_orderly(w: World, p: Settled, owner: usize, l: Lane, listeners: Seq<Listener>)
    requires
        orderly(w),
    ensures
        orderly(with_lane(w, p, owner, l, listeners)),
    decreases listeners.len(),
{
    if listeners.len() > 0 {
        lemma_lane_orderly(w, p, owner, l, listeners.drop_last());
        let x = with_lane(w, p, owner, l, listeners.drop_last());
        lemma_with_route(x.places, listeners.last().address, l.host, lane_path(p, owner, l));
    }
}

proof fn lemma_lanes_orderly(
    w: World,
    p: Settled,
    owner: usize,
    v: Seq<Lane>,
    listeners: Seq<Listener>,
)
    requires
        orderly(w),
    ensures
        orderly(with_lanes(w, p, owner, v, listeners)),
    decreases v.len(),
{
    if v.len() > 0 {
        lemma_lanes_orderly(w, p, owner, v.drop_last(), listeners);
        lemma_lane_orderly(
            with_lanes(w, p, owner, v.drop_last(), listeners),
            p,
            owner,
            v.last(),
            listeners,
        );
    }
}

proof fn lemma_name_orderly(
    w: World,
    owner: usize,
    entry: usize,
    name: Seq<char>,
    listeners: Seq<Listener>,
)
    requires
        orderly(w),
    ensures
        orderly(with_name(w, owner, entry, name, listeners)),
    decreases listeners.len(),
{
    if listeners.len() > 0 {
        lemma_name_orderly(w, owner, entry, name, listeners.drop_last());
        let x = with_name(w, owner, entry, name, listeners.drop_last());
        let l = listeners.last();
        if l.tls && !titled(x.titles, l.address, name) {
            let t = x.titles.push(Title { owner, entry, listener: l.address, name });
            assert forall|i: int, j: int| 0 <= i < j < t.len() implies (#[trigger] t[i]).listener
                != (#[trigger] t[j]).listener || t[i].name != t[j].name by {
                if j < x.titles.len() {
                    assert(x.titles[i].listener != x.titles[j].listener || x.titles[i].name
                        != x.titles[j].name);
                } else {
                    assert(x.titles[i] == t[i]);
                }
            }
        }
    }
}

proof fn lemma_names_orderly(
    w: World,
    owner: usize,
    entry: usize,
    names: Seq<Seq<char>>,
    listeners: Seq<Listener>,
)
    requires
        orderly(w),
    ensures
        orderly(with_names(w, owner, entry, names, listeners)),
    decreases names.len(),
{
    if names.len() > 0 {
        lemma_names_orderly(w, owner, entry, names.drop_last(), listeners);
        lemma_name_orderly(
            with_names(w, owner, entry, names.drop_last(), listeners),
            owner,
            entry,
            text::lowercase(names.last()),
            listeners,
        );
    }
}

proof fn lemma_tls_orderly(w: World, owner: usize, v: Seq<TlsRule>, listeners: Seq<Listener>)
    requires
        orderly(w),
    ensures
        orderly(with_tls(w, owner, v, listeners)),
    decreases v.len(),
{
    if v.len() > 0 {
        lemma_tls_orderly(w, owner, v.drop_last(), listeners);
        lemma_names_orderly(
            with_tls(w, owner, v.drop_last(), listeners),
            owner,
            (v.len() - 1) as usize,
            v.last().hosts,
            listeners,
        );
    }
}

/// Paths at a host and a listener belong to one Ingress, and so does a name at a listener.
pub proof fn law_routes_and_names_have_one_owner(v: Seq<Settled>, listeners: Seq<Listener>)
    ensures
        orderly(assembled(v, listeners)),
    decreases v.len(),
{
    if v.len() > 0 {
        law_routes_and_names_have_one_owner(v.drop_last(), listeners);
        let w = assembled(v.drop_last(), listeners);
        let p = v.last();
        let owner = (v.len() - 1) as usize;
        let (lanes, types) = all_lanes(p.routing);
        let first = if p.routing.default_backend == Some(None::<Target>) {
            w.complaints.push((owner, Complaint::UnsupportedBackend))
        } else {
            w.complaints
        };
        let start = World { complaints: first + unsupported(owner, types), ..w };
        lemma_lanes_orderly(start, p, owner, lanes, listeners);
        lemma_tls_orderly(
            with_lanes(start, p, owner, lanes, listeners),
            owner,
            p.tls,
            listeners,
        );
    }
}

proof fn lemma_name_keeps(
    w: World,
    owner: usize,
    entry: usize,
    name: Seq<char>,
    listeners: Seq<Listener>,
)
    ensures
        w.titles.is_prefix_of(with_name(w, owner, entry, name, listeners).titles),
    decreases listeners.len(),
{
    if listeners.len() > 0 {
        lemma_name_keeps(w, owner, entry, name, listeners.drop_last());
    }
}

proof fn lemma_names_keep(
    w: World,
    owner: usize,
    entry: usize,
    names: Seq<Seq<char>>,
    listeners: Seq<Listener>,
)
    ensures
        w.titles.is_prefix_of(with_names(w, owner, entry, names, listeners).titles),
    decreases names.len(),
{
    if names.len() > 0 {
        lemma_names_keep(w, owner, entry, names.drop_last(), listeners);
        lemma_name_keeps(
            with_names(w, owner, entry, names.drop_last(), listeners),
            owner,
            entry,
            text::lowercase(names.last()),
            listeners,
        );
    }
}

proof fn lemma_tls_keeps(w: World, owner: usize, v: Seq<TlsRule>, listeners: Seq<Listener>)
    ensures
        w.titles.is_prefix_of(with_tls(w, owner, v, listeners).titles),
    decreases v.len(),
{
    if v.len() > 0 {
        lemma_tls_keeps(w, owner, v.drop_last(), listeners);
        lemma_names_keep(
            with_tls(w, owner, v.drop_last(), listeners),
            owner,
            (v.len() - 1) as usize,
            v.last().hosts,
            listeners,
        );
    }
}

proof fn lemma_lane_titles(w: World, p: Settled, owner: usize, l: Lane, listeners: Seq<Listener>)
    ensures
        with_lane(w, p, owner, l, listeners).titles == w.titles,
    decreases listeners.len(),
{
    if listeners.len() > 0 {
        lemma_lane_titles(w, p, owner, l, listeners.drop_last());
    }
}

proof fn lemma_lanes_titles(
    w: World,
    p: Settled,
    owner: usize,
    v: Seq<Lane>,
    listeners: Seq<Listener>,
)
    ensures
        with_lanes(w, p, owner, v, listeners).titles == w.titles,
    decreases v.len(),
{
    if v.len() > 0 {
        lemma_lanes_titles(w, p, owner, v.drop_last(), listeners);
        lemma_lane_titles(
            with_lanes(w, p, owner, v.drop_last(), listeners),
            p,
            owner,
            v.last(),
            listeners,
        );
    }
}

/// A younger Ingress takes no name from an older one.
pub proof fn law_older_ingresses_keep_their_names(v: Seq<Settled>, p: Settled, listeners: Seq<Listener>)
    ensures
        assembled(v, listeners).titles.is_prefix_of(assembled(v.push(p), listeners).titles),
{
    assert(v.push(p).drop_last() =~= v);
    let w = assembled(v, listeners);
    let owner = v.len() as usize;
    let (lanes, types) = all_lanes(p.routing);
    let first = if p.routing.default_backend == Some(None::<Target>) {
        w.complaints.push((owner, Complaint::UnsupportedBackend))
    } else {
        w.complaints
    };
    let start = World { complaints: first + unsupported(owner, types), ..w };
    lemma_lanes_titles(start, p, owner, lanes, listeners);
    lemma_tls_keeps(with_lanes(start, p, owner, lanes, listeners), owner, p.tls, listeners);
}

/// The routes of a host at a listener.
pub open spec fn routes_at(v: Seq<Place>, l: Socket, h: Seq<char>) -> Seq<Path>
    decreases v.len(),
{
    if v.len() == 0 {
        Seq::empty()
    } else if v[0].listener == l && v[0].host == h {
        v[0].routes
    } else {
        routes_at(v.drop_first(), l, h)
    }
}

proof fn lemma_route_keeps(v: Seq<Place>, l: Socket, h: Seq<char>, r: Path, m: Socket, k: Seq<char>)
    requires
        tidy(v),
    ensures
        routes_at(v, m, k).is_prefix_of(routes_at(with_route(v, l, h, r), m, k)),
    decreases v.len(),
{
    let n = with_route(v, l, h, r);
    if v.len() == 0 {
    } else if v[0].listener == l && v[0].host == h {
        if !owned(v[0].routes, r.matcher) {
            assert(n.drop_first() =~= v.drop_first());
        }
    } else if place_before(l, h, v[0]) {
        assert(n.drop_first() =~= v);
        if m == l && k == h {
            lemma_absent(v, l, h);
        }
    } else {
        let w = v.drop_first();
        assert(tidy(w)) by {
            assert forall|i: int, j: int| 0 <= i < j < w.len() implies precedes(
                #[trigger] w[i],
                #[trigger] w[j],
            ) by {
                assert(precedes(v[i + 1], v[j + 1]));
            }
            assert forall|i: int| 0 <= i < w.len() implies unshared((#[trigger] w[i]).routes) by {
                assert(w[i] == v[i + 1]);
            }
        }
        lemma_route_keeps(w, l, h, r, m, k);
        assert(n.drop_first() =~= with_route(w, l, h, r));
    }
}

proof fn lemma_absent(v: Seq<Place>, l: Socket, h: Seq<char>)
    requires
        tidy(v),
        v.len() > 0 ==> place_before(l, h, v[0]),
    ensures
        routes_at(v, l, h).len() == 0,
    decreases v.len(),
{
    if v.len() > 0 {
        let new = Place { listener: l, host: h, routes: Seq::empty() };
        text::lemma_before_total(h, h);
        assert(!(v[0].listener == l && v[0].host == h));
        let w = v.drop_first();
        assert(tidy(w)) by {
            assert forall|i: int, j: int| 0 <= i < j < w.len() implies precedes(
                #[trigger] w[i],
                #[trigger] w[j],
            ) by {
                assert(precedes(v[i + 1], v[j + 1]));
            }
            assert forall|i: int| 0 <= i < w.len() implies unshared((#[trigger] w[i]).routes) by {
                assert(w[i] == v[i + 1]);
            }
        }
        if w.len() > 0 {
            assert(precedes(v[0], v[1]));
            lemma_precedes(new, v[0], v[1]);
        }
        lemma_absent(w, l, h);
    }
}

proof fn lemma_lane_keeps(
    w: World,
    p: Settled,
    owner: usize,
    l: Lane,
    listeners: Seq<Listener>,
    m: Socket,
    k: Seq<char>,
)
    requires
        orderly(w),
    ensures
        routes_at(w.places, m, k).is_prefix_of(
            routes_at(with_lane(w, p, owner, l, listeners).places, m, k),
        ),
    decreases listeners.len(),
{
    if listeners.len() > 0 {
        lemma_lane_keeps(w, p, owner, l, listeners.drop_last(), m, k);
        lemma_lane_orderly(w, p, owner, l, listeners.drop_last());
        let x = with_lane(w, p, owner, l, listeners.drop_last());
        lemma_route_keeps(
            x.places,
            listeners.last().address,
            l.host,
            lane_path(p, owner, l),
            m,
            k,
        );
    }
}

proof fn lemma_lanes_keep(
    w: World,
    p: Settled,
    owner: usize,
    v: Seq<Lane>,
    listeners: Seq<Listener>,
    m: Socket,
    k: Seq<char>,
)
    requires
        orderly(w),
    ensures
        routes_at(w.places, m, k).is_prefix_of(
            routes_at(with_lanes(w, p, owner, v, listeners).places, m, k),
        ),
    decreases v.len(),
{
    if v.len() > 0 {
        lemma_lanes_keep(w, p, owner, v.drop_last(), listeners, m, k);
        lemma_lanes_orderly(w, p, owner, v.drop_last(), listeners);
        lemma_lane_keeps(
            with_lanes(w, p, owner, v.drop_last(), listeners),
            p,
            owner,
            v.last(),
            listeners,
            m,
            k,
        );
    }
}

proof fn lemma_tls_places(w: World, owner: usize, v: Seq<TlsRule>, listeners: Seq<Listener>)
    ensures
        with_tls(w, owner, v, listeners).places == w.places,
    decreases v.len(),
{
    if v.len() > 0 {
        lemma_tls_places(w, owner, v.drop_last(), listeners);
        lemma_names_places(
            with_tls(w, owner, v.drop_last(), listeners),
            owner,
            (v.len() - 1) as usize,
            v.last().hosts,
            listeners,
        );
    }
}

proof fn lemma_names_places(
    w: World,
    owner: usize,
    entry: usize,
    names: Seq<Seq<char>>,
    listeners: Seq<Listener>,
)
    ensures
        with_names(w, owner, entry, names, listeners).places == w.places,
    decreases names.len(),
{
    if names.len() > 0 {
        lemma_names_places(w, owner, entry, names.drop_last(), listeners);
        lemma_name_places(
            with_names(w, owner, entry, names.drop_last(), listeners),
            owner,
            entry,
            text::lowercase(names.last()),
            listeners,
        );
    }
}

proof fn lemma_name_places(
    w: World,
    owner: usize,
    entry: usize,
    name: Seq<char>,
    listeners: Seq<Listener>,
)
    ensures
        with_name(w, owner, entry, name, listeners).places == w.places,
    decreases listeners.len(),
{
    if listeners.len() > 0 {
        lemma_name_places(w, owner, entry, name, listeners.drop_last());
    }
}

/// A younger Ingress takes no path from an older one.
pub proof fn law_older_ingresses_keep_their_routes(
    v: Seq<Settled>,
    p: Settled,
    listeners: Seq<Listener>,
    l: Socket,
    h: Seq<char>,
)
    ensures
        routes_at(assembled(v, listeners).places, l, h).is_prefix_of(
            routes_at(assembled(v.push(p), listeners).places, l, h),
        ),
{
    assert(v.push(p).drop_last() =~= v);
    law_routes_and_names_have_one_owner(v, listeners);
    let w = assembled(v, listeners);
    let owner = v.len() as usize;
    let (lanes, types) = all_lanes(p.routing);
    let first = if p.routing.default_backend == Some(None::<Target>) {
        w.complaints.push((owner, Complaint::UnsupportedBackend))
    } else {
        w.complaints
    };
    let start = World { complaints: first + unsupported(owner, types), ..w };
    lemma_lanes_keep(start, p, owner, lanes, listeners, l, h);
    lemma_tls_places(with_lanes(start, p, owner, lanes, listeners), owner, p.tls, listeners);
}

proof fn lemma_aged(v: Seq<Age>, order: Seq<int>, i: int)
    ensures
        aged(v, order, i).len() == order.len() + 1,
        forall|j: int|
            0 <= j < order.len() ==> aged(v, order, i).contains(#[trigger] order[j]),
        aged(v, order, i).contains(i),
    decreases order.len(),
{
    let n = aged(v, order, i);
    if order.len() == 0 {
        assert(n[0] == i);
    } else if older(v[i], v[order.last()]) {
        let w = order.drop_last();
        lemma_aged(v, w, i);
        let m = aged(v, w, i);
        let k = choose|k: int| 0 <= k < m.len() && m[k] == i;
        assert(n[k] == i);
        assert forall|j: int| 0 <= j < order.len() implies n.contains(#[trigger] order[j]) by {
            if j < w.len() {
                assert(w[j] == order[j]);
                assert(m.contains(order[j]));
                let q = choose|q: int| 0 <= q < m.len() && m[q] == order[j];
                assert(n[q] == order[j]);
            } else {
                assert(n[n.len() - 1] == order[j]);
            }
        }
    } else {
        assert(n[order.len() as int] == i);
        assert forall|j: int| 0 <= j < order.len() implies n.contains(#[trigger] order[j]) by {
            assert(n[j] == order[j]);
        }
    }
}

/// Every resource has its place in the order.
pub proof fn law_no_resource_is_lost(v: Seq<Age>, n: int, i: int)
    requires
        0 <= i < n,
    ensures
        by_age(v, n).len() == n,
        by_age(v, n).contains(i),
    decreases n,
{
    lemma_aged(v, by_age(v, n - 1), n - 1);
    if n > 1 {
        law_no_resource_is_lost(
            v,
            n - 1,
            if i < n - 1 {
                i
            } else {
                0
            },
        );
    }
    if i < n - 1 {
        let w = by_age(v, n - 1);
        let k = choose|k: int| 0 <= k < w.len() && w[k] == i;
        assert(w[k] == i);
    }
}

/// What an `Age` holds.
pub open spec fn birth(a: Age) -> (Option<i64>, Option<Seq<char>>, Seq<char>) {
    (a.created, text::opt(a.namespace), a.name@)
}

pub open spec fn births(v: Seq<Age>) -> Seq<(Option<i64>, Option<Seq<char>>, Seq<char>)> {
    Seq::new(v.len(), |i: int| birth(v[i]))
}

/// Whether no two resources are of one age; those of one kind never are, by their namespaces and names.
pub open spec fn all_distinct(v: Seq<Age>) -> bool {
    forall|i: int, j: int|
        0 <= i < j < v.len() ==> birth(#[trigger] v[i]) != birth(#[trigger] v[j])
}

proof fn lemma_older_total(a: Age, b: Age)
    ensures
        birth(a) != birth(b) ==> older(a, b) || older(b, a),
        !(older(a, b) && older(b, a)),
        birth(a) == birth(b) ==> !older(a, b),
{
    text::lemma_before_total(a.name@, b.name@);
    if a.namespace is Some && b.namespace is Some {
        text::lemma_before_total(a.namespace->0@, b.namespace->0@);
    }
}

proof fn lemma_older_transitive(a: Age, b: Age, c: Age)
    requires
        older(a, b),
        older(b, c),
    ensures
        older(a, c),
{
    let (x, y, z) = (text::opt(a.namespace), text::opt(b.namespace), text::opt(c.namespace));
    if x is Some && y is Some && z is Some {
        if text::before(x->0, y->0) && text::before(y->0, z->0) {
            text::lemma_before_transitive(x->0, y->0, z->0);
        }
        text::lemma_before_total(x->0, y->0);
        text::lemma_before_total(y->0, z->0);
        text::lemma_before_total(x->0, z->0);
    }
    if text::before(a.name@, b.name@) && text::before(b.name@, c.name@) {
        text::lemma_before_transitive(a.name@, b.name@, c.name@);
    }
}

/// Whether indexes are of resources before `n`, each older than those behind it.
pub open spec fn in_age(v: Seq<Age>, order: Seq<int>, n: int) -> bool {
    &&& forall|i: int| 0 <= i < order.len() ==> 0 <= #[trigger] order[i] < n
    &&& forall|i: int, j: int|
        0 <= i < j < order.len() ==> older(v[#[trigger] order[i]], v[#[trigger] order[j]])
}

proof fn lemma_aged_members(v: Seq<Age>, order: Seq<int>, i: int)
    ensures
        forall|k: int|
            0 <= k < aged(v, order, i).len() ==> #[trigger] aged(v, order, i)[k] == i || order.contains(
                aged(v, order, i)[k],
            ),
    decreases order.len(),
{
    let out = aged(v, order, i);
    if order.len() > 0 {
        if older(v[i], v[order.last()]) {
            let w = order.drop_last();
            lemma_aged_members(v, w, i);
            assert forall|k: int| 0 <= k < out.len() implies #[trigger] out[k] == i || order.contains(
                out[k],
            ) by {
                if k < out.len() - 1 {
                    assert(out[k] == aged(v, w, i)[k]);
                    if out[k] != i {
                        let j = choose|j: int| 0 <= j < w.len() && w[j] == out[k];
                        assert(order[j] == out[k]);
                    }
                } else {
                    assert(order[order.len() - 1] == out[k]);
                }
            }
        } else {
            assert forall|k: int| 0 <= k < out.len() implies #[trigger] out[k] == i || order.contains(
                out[k],
            ) by {
                if k < out.len() - 1 {
                    assert(order[k] == out[k]);
                }
            }
        }
    }
}

proof fn lemma_aged_in_age(v: Seq<Age>, order: Seq<int>, i: int)
    requires
        0 <= i < v.len(),
        all_distinct(v),
        in_age(v, order, i),
    ensures
        in_age(v, aged(v, order, i), i + 1),
    decreases order.len(),
{
    let out = aged(v, order, i);
    if order.len() > 0 {
        let last = order.last();
        assert(order[order.len() - 1] == last);
        lemma_older_total(v[i], v[last]);
        let w = order.drop_last();
        assert(in_age(v, w, i)) by {
            assert forall|a: int| 0 <= a < w.len() implies 0 <= #[trigger] w[a] < i by {
                assert(order[a] == w[a]);
            }
            assert forall|a: int, b: int| 0 <= a < b < w.len() implies older(
                v[#[trigger] w[a]],
                v[#[trigger] w[b]],
            ) by {
                assert(order[a] == w[a] && order[b] == w[b]);
            }
        }
        if older(v[i], v[last]) {
            lemma_aged_in_age(v, w, i);
            lemma_aged_members(v, w, i);
            let m = aged(v, w, i);
            assert forall|a: int| 0 <= a < out.len() implies 0 <= #[trigger] out[a] < i + 1 by {
                if a < m.len() {
                    assert(out[a] == m[a]);
                }
            }
            assert forall|a: int, b: int| 0 <= a < b < out.len() implies older(
                v[#[trigger] out[a]],
                v[#[trigger] out[b]],
            ) by {
                assert(out[a] == m[a]);
                if b < m.len() {
                    assert(out[b] == m[b]);
                } else if m[a] != i {
                    let j = choose|j: int| 0 <= j < w.len() && w[j] == m[a];
                    assert(order[j] == m[a]);
                }
            }
        } else {
            assert(birth(v[last]) != birth(v[i]));
            assert forall|a: int, b: int| 0 <= a < b < out.len() implies older(
                v[#[trigger] out[a]],
                v[#[trigger] out[b]],
            ) by {
                assert(out[a] == order[a]);
                if b < order.len() {
                    assert(out[b] == order[b]);
                } else if a < order.len() - 1 {
                    lemma_older_transitive(v[order[a]], v[last], v[i]);
                }
            }
            assert forall|a: int| 0 <= a < out.len() implies 0 <= #[trigger] out[a] < i + 1 by {
                if a < order.len() {
                    assert(out[a] == order[a]);
                }
            }
        }
    }
}

proof fn lemma_by_age_in_age(v: Seq<Age>, n: int)
    requires
        0 <= n <= v.len(),
        all_distinct(v),
    ensures
        in_age(v, by_age(v, n), n),
        by_age(v, n).len() == n,
    decreases n,
{
    if n > 0 {
        lemma_by_age_in_age(v, n - 1);
        lemma_aged_in_age(v, by_age(v, n - 1), n - 1);
        lemma_aged(v, by_age(v, n - 1), n - 1);
    }
}

/// Whether a resource of an age is among others.
pub open spec fn found(v: Seq<Age>, a: Age) -> bool {
    exists|j: int| 0 <= j < v.len() && birth(#[trigger] v[j]) == birth(a)
}

/// Whether each resource is older than those behind it.
pub open spec fn descending(v: Seq<Age>) -> bool {
    forall|i: int, j: int| 0 <= i < j < v.len() ==> older(#[trigger] v[i], #[trigger] v[j])
}

proof fn lemma_older_births(a: Age, b: Age, c: Age, d: Age)
    requires
        birth(a) == birth(c),
        birth(b) == birth(d),
    ensures
        older(a, b) == older(c, d),
{
}

proof fn lemma_rank(v: Seq<Age>, w: Seq<Age>, k: int)
    requires
        descending(v),
        descending(w),
        v.len() == w.len(),
        forall|i: int| 0 <= i < v.len() ==> found(w, #[trigger] v[i]),
        forall|j: int| 0 <= j < w.len() ==> found(v, #[trigger] w[j]),
        0 <= k < v.len(),
    ensures
        birth(v[k]) == birth(w[k]),
    decreases k,
{
    assert(found(w, v[k]) && found(v, w[k]));
    let j = choose|j: int| 0 <= j < w.len() && birth(#[trigger] w[j]) == birth(v[k]);
    let i = choose|i: int| 0 <= i < v.len() && birth(#[trigger] v[i]) == birth(w[k]);
    if j < k {
        lemma_rank(v, w, j);
        assert(older(v[j], v[k]));
        lemma_older_total(v[j], v[k]);
    } else if i < k {
        lemma_rank(v, w, i);
        assert(older(w[i], w[k]));
        lemma_older_total(w[i], w[k]);
    } else if j > k && i > k {
        assert(older(w[k], w[j]));
        assert(older(v[k], v[i]));
        lemma_older_births(w[k], w[j], v[i], v[k]);
        lemma_older_total(v[i], v[k]);
    }
}

/// The resources at the places of an order.
pub open spec fn arranged(v: Seq<Age>, order: Seq<int>) -> Seq<Age> {
    Seq::new(order.len(), |k: int| v[order[k]])
}

proof fn lemma_arranged(v: Seq<Age>)
    requires
        all_distinct(v),
    ensures
        descending(arranged(v, by_age(v, v.len() as int))),
        arranged(v, by_age(v, v.len() as int)).len() == v.len(),
        forall|i: int|
            0 <= i < v.len() ==> found(arranged(v, by_age(v, v.len() as int)), #[trigger] v[i]),
        forall|k: int|
            0 <= k < v.len() ==> found(v, #[trigger] arranged(v, by_age(v, v.len() as int))[k]),
{
    let n = v.len() as int;
    let order = by_age(v, n);
    let out = arranged(v, order);
    lemma_by_age_in_age(v, n);
    assert forall|i: int, j: int| 0 <= i < j < out.len() implies older(
        #[trigger] out[i],
        #[trigger] out[j],
    ) by {
        assert(older(v[order[i]], v[order[j]]));
    }
    assert forall|i: int| 0 <= i < v.len() implies found(out, #[trigger] v[i]) by {
        law_no_resource_is_lost(v, n, i);
        let k = choose|k: int| 0 <= k < order.len() && order[k] == i;
        assert(birth(out[k]) == birth(v[i]));
    }
    assert forall|k: int| 0 <= k < v.len() implies found(v, #[trigger] out[k]) by {
        assert(0 <= order[k] < n);
        assert(birth(v[order[k]]) == birth(out[k]));
    }
}

proof fn lemma_found(v: Seq<Age>, w: Seq<Age>, x: Seq<Age>, a: Age)
    requires
        found(v, a),
        forall|i: int| 0 <= i < v.len() ==> found(w, #[trigger] v[i]),
        forall|i: int| 0 <= i < w.len() ==> found(x, #[trigger] w[i]),
    ensures
        found(x, a),
{
    let i = choose|i: int| 0 <= i < v.len() && birth(#[trigger] v[i]) == birth(a);
    assert(found(w, v[i]));
    let j = choose|j: int| 0 <= j < w.len() && birth(#[trigger] w[j]) == birth(v[i]);
    assert(found(x, w[j]));
    let k = choose|k: int| 0 <= k < x.len() && birth(#[trigger] x[k]) == birth(w[j]);
    assert(birth(x[k]) == birth(a));
}

/// The order of resources does not depend on the order in which they came.
pub proof fn law_age_gives_one_order(v: Seq<Age>, w: Seq<Age>)
    requires
        all_distinct(v),
        all_distinct(w),
        v.len() == w.len(),
        forall|i: int| 0 <= i < v.len() ==> found(w, #[trigger] v[i]),
        forall|j: int| 0 <= j < w.len() ==> found(v, #[trigger] w[j]),
    ensures
        births(arranged(v, by_age(v, v.len() as int))) == births(arranged(w, by_age(w, w.len() as int))),
{
    let (a, b) = (arranged(v, by_age(v, v.len() as int)), arranged(w, by_age(w, w.len() as int)));
    lemma_arranged(v);
    lemma_arranged(w);
    assert forall|i: int| 0 <= i < a.len() implies found(b, #[trigger] a[i]) by {
        lemma_found(v, w, b, a[i]);
    }
    assert forall|j: int| 0 <= j < b.len() implies found(a, #[trigger] b[j]) by {
        lemma_found(w, v, a, b[j]);
    }
    assert forall|k: int| 0 <= k < a.len() implies births(a)[k] == births(b)[k] by {
        lemma_rank(a, b, k);
    }
    assert(births(a) =~= births(b));
}

// ---------------------------------------------------------------------------
// Laws of classes, quotas and rules
// ---------------------------------------------------------------------------

/// A class is one of this controller's that has the name.
pub proof fn law_classes_are_of_this_controller(v: Seq<ClassObject>, name: Seq<char>, i: int)
    requires
        0 <= i < v.len(),
    ensures
        class_at(v, name) matches Some(c) ==> c.name@ == name && text::opt(c.controller) == Some(
            "rgnix.io/ingress-controller"@,
        ),
        v[i].name@ == name && text::opt(v[i].controller) == Some("rgnix.io/ingress-controller"@) ==> class_at(
            v,
            name,
        ) is Some,
    decreases v.len(),
{
    let t = v.drop_first();
    if t.len() > 0 {
        let j = if i > 0 {
            i - 1
        } else {
            0
        };
        law_classes_are_of_this_controller(t, name, j);
        if i > 0 {
            assert(t[j] == v[i]);
        }
    } else {
        assert(class_at(t, name) is None);
    }
}

/// An Ingress is of the class that it names; one that names none is of the default class.
pub proof fn law_ingresses_are_of_their_class(c: ClassObject, n: Seq<char>)
    ensures
        of_class(c, Some(n)) <==> n == c.name@,
        of_class(c, None) <==> text::opt(c.default) == Some("true"@),
{
}

/// What was made first is older; of what was made at the same time, that with the first namespace and name.
pub proof fn law_first_made_is_older(a: Age, b: Age, x: i64, y: i64)
    ensures
        a.created == Some(x) && b.created == Some(y) && x < y ==> older(a, b) && !older(b, a),
        a.created is None && b.created is Some ==> older(a, b) && !older(b, a),
        a.created == b.created && text::opt(a.namespace) == text::opt(b.namespace) ==> (older(a, b)
            <==> text::before(a.name@, b.name@)),
        a.created == b.created && a.namespace is Some && b.namespace is Some && text::opt(a.namespace)
            != text::opt(b.namespace) ==> (older(a, b) <==> text::before(a.namespace->0@, b.namespace->0@)),
{
}

/// The older of two stands first.
pub proof fn law_oldest_stand_first(v: Seq<Age>, i: int, j: int)
    requires
        all_distinct(v),
        0 <= i < j < v.len(),
    ensures
        by_age(v, v.len() as int).len() == v.len(),
        older(
            v[by_age(v, v.len() as int)[i]],
            v[by_age(v, v.len() as int)[j]],
        ),
{
    lemma_by_age_in_age(v, v.len() as int);
    law_no_resource_is_lost(v, v.len() as int, 0);
}

/// A namespace may have as many Ingresses, routes and backends as its quota says, and scripts where it may have
/// them, of the length that it says.
pub proof fn law_quotas_bound_a_namespace(u: Usage, d: Demand, q: Quota)
    ensures
        u.ingresses >= q.max_ingresses ==> exceeds(u, d, q),
        u.routes + d.routes > q.max_routes ==> exceeds(u, d, q),
        u.routes + d.retained_routes > q.max_routes ==> exceeds(u, d, q),
        d.scripted && !q.allow_scripts ==> exceeds(u, d, q),
        d.script is Some && d.script->0 > q.max_script_bytes ==> exceeds(u, d, q),
        joined(text::texts(u.backends@), text::texts(d.backends@)).len() > q.max_backends ==> exceeds(u, d, q),
        u.ingresses < q.max_ingresses && u.routes + d.routes <= q.max_routes && u.routes + d.retained_routes
            <= q.max_routes && joined(text::texts(u.backends@), text::texts(d.backends@)).len()
            <= q.max_backends && (d.scripted ==> q.allow_scripts) && (d.script is Some ==> d.script->0
            <= q.max_script_bytes) ==> !exceeds(u, d, q),
{
}

/// A backend counts once, however often it is named.
pub proof fn law_backends_count_once(v: Seq<Seq<char>>, w: Seq<Seq<char>>, x: Seq<char>)
    ensures
        joined(v, w).contains(x) <==> v.contains(x) || w.contains(x),
        joined(v, w).len() <= v.len() + w.len(),
        joined(v, w).contains(x) ==> joined(v, w.push(x)) == joined(v, w),
        !joined(v, w).contains(x) ==> joined(v, w.push(x)).len() == joined(v, w).len() + 1,
    decreases w.len(),
{
    assert(w.push(x).drop_last() =~= w);
    if w.len() > 0 {
        let l = w.drop_last();
        let a = joined(v, l);
        law_backends_count_once(v, l, x);
        if w.contains(x) && x != w.last() {
            let i = choose|i: int| 0 <= i < w.len() && w[i] == x;
            assert(l[i] == x);
        }
        if l.contains(x) {
            let i = choose|i: int| 0 <= i < l.len() && l[i] == x;
            assert(w[i] == x);
        }
        if !a.contains(w.last()) {
            let b = a.push(w.last());
            assert(b.last() == w.last());
            if a.contains(x) {
                let i = choose|i: int| 0 <= i < a.len() && a[i] == x;
                assert(b[i] == x);
            }
            if b.contains(x) && x != w.last() {
                let i = choose|i: int| 0 <= i < b.len() && b[i] == x;
                assert(a[i] == x);
            }
        }
        assert(w[w.len() - 1] == w.last());
    }
}

/// A rule is met by its path alone, or by it and what lies below it; a rule of another type is not taken.
pub proof fn law_rules_are_met_as_they_say(p: PathRule, path: Seq<char>)
    requires
        p.path == Some(path),
        path.len() > 0,
        path.last() != '/',
    ensures
        p.path_type == "Exact"@ ==> rule_matcher(p) == Some(Matcher::Exact(path)),
        p.path_type == "Prefix"@ || p.path_type == "ImplementationSpecific"@ ==> rule_matcher(p) == Some(
            Matcher::IngressPrefix(path),
        ),
        p.path_type != "Exact"@ && p.path_type != "Prefix"@ && p.path_type != "ImplementationSpecific"@
            ==> rule_matcher(p) is None,
{
    reveal_strlit("Exact");
    reveal_strlit("Prefix");
    assert("Exact"@.len() != "Prefix"@.len());
    reveal_strlit("ImplementationSpecific");
    assert("Exact"@.len() != "ImplementationSpecific"@.len());
    assert(text::trim_end_char_spec(path, '/') == path);
}

/// A rule without a path is for all of them.
pub proof fn law_rules_without_a_path_are_for_all(p: PathRule)
    requires
        p.path is None,
        p.path_type == "Prefix"@,
    ensures
        rule_matcher(p) == Some(Matcher::IngressPrefix("/"@)),
{
    reveal_strlit("Prefix");
    reveal_strlit("Exact");
    assert("Prefix"@.len() != "Exact"@.len());
    reveal_strlit("/");
    reveal_with_fuel(text::trim_end_char_spec, 2);
}

/// Each path of a rule is a route for its host, in lower case, to its service.
pub proof fn law_paths_are_routes_for_their_host(v: Seq<HostRule>, h: Seq<char>, p: PathRule)
    requires
        rule_matcher(p) is Some,
    ensures
        rule_lanes(v.push(HostRule { host: Some(h), paths: seq![p] })).0 == rule_lanes(v).0.push(
            Lane { host: text::lowercase(h), matcher: rule_matcher(p)->0, service: p.service },
        ),
        rule_lanes(v.push(HostRule { host: None, paths: seq![p] })).0 == rule_lanes(v).0.push(
            Lane { host: Seq::empty(), matcher: rule_matcher(p)->0, service: p.service },
        ),
        rule_lanes(v.push(HostRule { host: Some(h), paths: Seq::empty() })).0 == rule_lanes(v).0,
{
    let a = HostRule { host: Some(h), paths: seq![p] };
    let b = HostRule { host: None, paths: seq![p] };
    let c = HostRule { host: Some(h), paths: Seq::empty() };
    assert(v.push(a).drop_last() =~= v);
    assert(v.push(b).drop_last() =~= v);
    assert(v.push(c).drop_last() =~= v);
    assert(seq![p].drop_last() =~= Seq::empty());
    reveal_with_fuel(path_lanes, 2);
    assert(rule_lanes(v.push(c)).0 =~= rule_lanes(v).0);
}

/// The default backend is for all hosts and paths.
pub proof fn law_default_backends_are_for_all(s: Shape, service: Option<Target>)
    requires
        s.default_backend == Some(service),
    ensures
        all_lanes(s).0.len() == rule_lanes(s.rules).0.len() + 1,
        all_lanes(s).0[0] == (Lane { host: Seq::empty(), matcher: Matcher::IngressDefault, service }),
{
}

/// A route asks the backend of its service in its namespace; one that is invalid, or whose backend is no
/// service, answers that nothing is there.
pub proof fn law_routes_ask_their_service(namespace: Seq<char>, name: Seq<char>, own: bool, t: Target)
    ensures
        lane_deed(namespace, name, own, true, Some(t)) == Deed::Unavailable,
        lane_deed(namespace, name, own, false, None) == Deed::Unavailable,
        lane_deed(namespace, name, false, false, Some(t)) == (Deed::Proxy {
            backend: namespace + "/"@ + alias_of(t),
            uri: None,
        }),
        lane_deed(namespace, name, true, false, Some(t)) == (Deed::Proxy {
            backend: namespace + "/"@ + name + "/"@ + alias_of(t),
            uri: None,
        }),
{
}

/// A route is named after its Ingress, its host and its path.
pub proof fn law_routes_are_named(namespace: Seq<char>, name: Seq<char>, l: Lane)
    ensures
        l.matcher is IngressDefault ==> lane_id(namespace, name, l) == namespace + "/"@ + name + ":"@ + l.host
            + ":"@ + "default"@,
        l.matcher !is IngressDefault ==> lane_id(namespace, name, l) == namespace + "/"@ + name + ":"@ + l.host
            + ":"@ + l.matcher.path(),
{
}

/// A route takes its place where none has it; where one has, it is not taken, and that is told.
pub proof fn law_free_places_are_taken(w: World, p: Settled, owner: usize, l: Lane, listener: Listener)
    requires
        tidy(w.places),
    ensures
        ({
            let x = with_lane(w, p, owner, l, seq![listener]);
            let had = routes_at(w.places, listener.address, l.host);
            let has = routes_at(x.places, listener.address, l.host);
            &&& owned(had, l.matcher) ==> has == had && x.complaints == w.complaints.push((owner, conflict(l)))
            &&& !owned(had, l.matcher) ==> has == had.push(lane_path(p, owner, l)) && x.complaints
                == w.complaints
        }),
{
    let v = seq![listener];
    assert(v.drop_last() =~= Seq::empty());
    reveal_with_fuel(with_lane, 2);
    lemma_place_taken(w.places, listener.address, l.host, lane_path(p, owner, l));
}

proof fn lemma_place_taken(v: Seq<Place>, l: Socket, h: Seq<char>, r: Path)
    requires
        tidy(v),
    ensures
        taken(v, l, h, r.matcher) == owned(routes_at(v, l, h), r.matcher),
        routes_at(with_route(v, l, h, r), l, h) == if owned(routes_at(v, l, h), r.matcher) {
            routes_at(v, l, h)
        } else {
            routes_at(v, l, h).push(r)
        },
    decreases v.len(),
{
    reveal_with_fuel(routes_at, 2);
    let n = with_route(v, l, h, r);
    if v.len() == 0 {
        assert(routes_at(v, l, h).push(r) =~= seq![r]);
    } else if v[0].listener == l && v[0].host == h {
        assert(n[0].routes == if owned(v[0].routes, r.matcher) {
            v[0].routes
        } else {
            v[0].routes.push(r)
        });
    } else if place_before(l, h, v[0]) {
        lemma_absent(v, l, h);
        assert(routes_at(v, l, h).push(r) =~= seq![r]);
    } else {
        let t = v.drop_first();
        assert(tidy(t)) by {
            assert(forall|i: int| 0 <= i < t.len() ==> t[i] == v[i + 1]);
        }
        lemma_place_taken(t, l, h, r);
        assert(n.drop_first() =~= with_route(t, l, h, r));
    }
}

/// A secure name is claimed on the secure listeners; where it is claimed already, that is told.
pub proof fn law_names_are_claimed_on_secure_listeners(
    w: World,
    owner: usize,
    entry: usize,
    name: Seq<char>,
    l: Listener,
)
    ensures
        ({
            let x = with_name(w, owner, entry, name, seq![l]);
            &&& !l.tls ==> x == w
            &&& l.tls && titled(w.titles, l.address, name) ==> x.titles == w.titles && x.complaints
                == w.complaints.push((owner, Complaint::TlsConflict(name)))
            &&& l.tls && !titled(w.titles, l.address, name) ==> x.titles == w.titles.push(
                Title { owner, entry, listener: l.address, name },
            ) && x.complaints == w.complaints
        }),
{
    let v = seq![l];
    assert(v.drop_last() =~= Seq::empty());
    reveal_with_fuel(with_name, 2);
}

} // verus!

//! Deciding on one Ingress: whether its namespace may have it, what of it is served, and which backends
//! its routes may name.
use crate::body::BodyPolicy;
use crate::ingress::backends::{alias_of, backend_alias, is_named};
use crate::ingress::checkpoint::{grant, shape, Accepted, Grant, SCHEMA};
use crate::ingress::dependencies::target_of;
use crate::ingress::history::{decide, ruled, Entry, Offer, Past, Reason, Ruling, Verdict, Wish};
use crate::ingress::policy::{auth_service, service_of, Port};
use crate::ingress::routes::{
    admit_ingress, backend_key, exceeds, key_of, larger, retained_exceeds, Demand, Quota, Usage,
};
use crate::ingress::spec::{
    host_rules, path_rules, HostRule, IngressSpec, PathRule, PathSpec, PortRef, ServiceBackend, Shape,
    Target,
};
use crate::text;
use crate::text::{lookup, pairs, texts};
use vstd::prelude::*;

verus! {

// ---------------------------------------------------------------------------
// What is asked of a namespace
// ---------------------------------------------------------------------------

pub open spec fn path_targets(v: Seq<PathRule>) -> Seq<Option<Target>> {
    Seq::new(v.len(), |i: int| v[i].service)
}

pub open spec fn rule_targets(v: Seq<HostRule>) -> Seq<Option<Target>>
    decreases v.len(),
{
    if v.len() == 0 {
        Seq::empty()
    } else {
        rule_targets(v.drop_last()) + path_targets(v.last().paths)
    }
}

/// What an Ingress refers to: its default backend and the backends of its paths, in order. One that is no
/// service is nothing.
pub open spec fn targets_of(s: Shape) -> Seq<Option<Target>> {
    match s.default_backend {
        Some(t) => seq![t] + rule_targets(s.rules),
        None => rule_targets(s.rules),
    }
}

/// The names of the services among some backends.
pub open spec fn aliases_of(v: Seq<Option<Target>>) -> Seq<Seq<char>>
    decreases v.len(),
{
    if v.len() == 0 {
        Seq::empty()
    } else {
        match v.last() {
            Some(t) => aliases_of(v.drop_last()).push(alias_of(t)),
            None => aliases_of(v.drop_last()),
        }
    }
}

proof fn lemma_aliases(a: Seq<Option<Target>>, b: Seq<Option<Target>>)
    ensures
        aliases_of(a + b) == aliases_of(a) + aliases_of(b),
    decreases b.len(),
{
    if b.len() == 0 {
        assert(a + b =~= a);
        assert(aliases_of(a) + aliases_of(b) =~= aliases_of(a));
    } else {
        lemma_aliases(a, b.drop_last());
        assert((a + b).drop_last() =~= a + b.drop_last());
        assert((a + b).last() == b.last());
        if b.last() is Some {
            assert(aliases_of(a) + aliases_of(b) =~= (aliases_of(a) + aliases_of(
                b.drop_last(),
            )).push(alias_of(b.last()->0)));
        }
    }
}

/// Adds the names of the services of some paths.
fn add_path_aliases(v: &Vec<PathSpec>, out: &mut Vec<String>)
    ensures
        texts(final(out)@) == texts(old(out)@) + aliases_of(path_targets(path_rules(v@))),
{
    let ghost start = texts(out@);
    let ghost all = path_targets(path_rules(v@));
    let mut i: usize = 0;
    assert(start + aliases_of(all.take(0)) =~= start);
    while i < v.len()
        invariant
            i <= v.len(),
            all == path_targets(path_rules(v@)),
            all.len() == v@.len(),
            texts(out@) == start + aliases_of(all.take(i as int)),
        decreases v.len() - i,
    {
        let ghost before = texts(out@);
        proof {
            assert(all.take(i + 1).drop_last() =~= all.take(i as int));
            assert(all.take(i + 1).last() == all[i as int]);
            assert(all[i as int] == v@[i as int]@.service);
        }
        if let Some(s) = &v[i].backend.service {
            let a = backend_alias(s);
            let ghost x = a@;
            out.push(a);
            assert(texts(out@) =~= before.push(x));
            assert(texts(out@) =~= start + aliases_of(all.take(i + 1)));
        }
        i += 1;
    }
    assert(all.take(i as int) =~= all);
}

/// Adds the names of the services that an Ingress refers to.
pub fn add_aliases(spec: &IngressSpec, out: &mut Vec<String>)
    ensures
        texts(final(out)@) == texts(old(out)@) + aliases_of(targets_of(spec@)),
{
    let ghost start = texts(out@);
    let ghost mut head: Seq<Option<Target>> = Seq::empty();
    if let Some(b) = &spec.default_backend {
        proof {
            head = seq![spec@.default_backend->0];
            assert(head.drop_last() =~= Seq::empty());
            reveal_with_fuel(aliases_of, 2);
        }
        if let Some(s) = &b.service {
            let a = backend_alias(s);
            let ghost x = a@;
            out.push(a);
            assert(texts(out@) =~= start.push(x));
            assert(aliases_of(head) =~= seq![x]);
        } else {
            assert(aliases_of(head) =~= Seq::empty());
        }
    }
    assert(texts(out@) =~= start + aliases_of(head));
    let ghost all = host_rules(spec.rules@);
    let mut i: usize = 0;
    assert(rule_targets(all.take(0)) =~= Seq::empty());
    assert(head + rule_targets(all.take(0)) =~= head);
    while i < spec.rules.len()
        invariant
            i <= spec.rules.len(),
            all == host_rules(spec.rules@),
            all.len() == spec.rules@.len(),
            texts(out@) == start + aliases_of(head + rule_targets(all.take(i as int))),
        decreases spec.rules.len() - i,
    {
        proof {
            let done = rule_targets(all.take(i as int));
            let next = path_targets(all[i as int].paths);
            assert(all.take(i + 1).drop_last() =~= all.take(i as int));
            assert(all.take(i + 1).last() == all[i as int]);
            assert(all[i as int] == spec.rules@[i as int]@);
            assert(head + (done + next) =~= (head + done) + next);
            lemma_aliases(head + done, next);
        }
        let ghost before = texts(out@);
        add_path_aliases(&spec.rules[i].paths, out);
        assert(texts(out@) =~= start + aliases_of(head + rule_targets(all.take(i + 1))));
        i += 1;
    }
    assert(all.take(i as int) =~= all);
    assert(head + rule_targets(all) =~= targets_of(spec@));
}

/// How many backends an Ingress refers to, where that can be counted.
pub fn count_targets(spec: &IngressSpec) -> (r: Option<usize>)
    ensures
        match r {
            Some(n) => n == targets_of(spec@).len(),
            None => targets_of(spec@).len() > usize::MAX,
        },
{
    let mut n: usize = if spec.default_backend.is_some() {
        1
    } else {
        0
    };
    let ghost first = n as int;
    let ghost all = host_rules(spec.rules@);
    let mut i: usize = 0;
    while i < spec.rules.len()
        invariant
            i <= spec.rules.len(),
            all == host_rules(spec.rules@),
            all.len() == spec.rules@.len(),
            n == first + rule_targets(all.take(i as int)).len(),
            targets_of(spec@).len() == first + rule_targets(all).len(),
        decreases spec.rules.len() - i,
    {
        proof {
            assert(all.take(i + 1).drop_last() =~= all.take(i as int));
            assert(all.take(i + 1).last() == all[i as int]);
            assert(all[i as int] == spec.rules@[i as int]@);
            assert(path_targets(all[i as int].paths).len() == spec.rules@[i as int].paths@.len());
            lemma_rule_targets(all, i + 1);
        }
        match n.checked_add(spec.rules[i].paths.len()) {
            None => return None,
            Some(k) => {
                n = k;
            },
        }
        i += 1;
    }
    assert(all.take(i as int) =~= all);
    Some(n)
}

proof fn lemma_rule_targets(v: Seq<HostRule>, n: int)
    requires
        0 <= n <= v.len(),
    ensures
        rule_targets(v.take(n)).len() <= rule_targets(v).len(),
    decreases v.len() - n,
{
    if n == v.len() {
        assert(v.take(n) =~= v);
    } else {
        assert(v.take(n + 1).drop_last() =~= v.take(n));
        lemma_rule_targets(v, n + 1);
    }
}

/// The name of the service of a reference with a path.
pub open spec fn reference_alias(value: Seq<char>) -> Option<Seq<char>> {
    match service_of(value) {
        None => None,
        Some(s) => Some(alias_of(target_of(s))),
    }
}

fn read_alias(value: &str) -> (r: Option<String>)
    ensures
        text::opt(r) == reference_alias(value@),
{
    match auth_service(value) {
        None => None,
        Some(s) => {
            let ghost named = s@;
            let port = match s.port {
                Port::Number(n) => PortRef { name: None, number: Some(n as i32) },
                Port::Name(p) => PortRef { name: Some(p), number: None },
            };
            let b = ServiceBackend { name: s.name, port: Some(port) };
            assert(b@ == target_of(named));
            Some(backend_alias(&b))
        },
    }
}

/// The name of the service that decides on requests, by the annotations.
pub open spec fn decider_alias(values: Seq<(Seq<char>, Seq<char>)>) -> Option<Seq<char>> {
    match lookup(values, "rgnix.io/auth-service"@) {
        None => None,
        Some(s) => reference_alias(s),
    }
}

fn find_decider(values: &Vec<(String, String)>) -> (r: Option<String>)
    ensures
        text::opt(r) == decider_alias(pairs(values@)),
{
    match text::find(values, "rgnix.io/auth-service") {
        None => None,
        Some(v) => read_alias(v),
    }
}

/// What a policy adds to the backends: the services that its traffic goes to, and its decider.
pub open spec fn policy_aliases(values: Seq<(Seq<char>, Seq<char>)>, traffic: Seq<Seq<char>>) -> Seq<
    Seq<char>,
> {
    match decider_alias(values) {
        Some(a) => traffic.push(a),
        None => traffic,
    }
}

fn add_policy(values: &Vec<(String, String)>, traffic: &Vec<String>, out: &mut Vec<String>)
    ensures
        texts(final(out)@) == texts(old(out)@) + policy_aliases(pairs(values@), texts(traffic@)),
{
    let ghost start = texts(out@);
    let ghost all = texts(traffic@);
    let mut i: usize = 0;
    assert(start + all.take(0) =~= start);
    while i < traffic.len()
        invariant
            i <= traffic.len(),
            all == texts(traffic@),
            texts(out@) == start + all.take(i as int),
        decreases traffic.len() - i,
    {
        let ghost before = texts(out@);
        out.push(traffic[i].clone());
        assert(texts(out@) =~= before.push(all[i as int]));
        assert(texts(out@) =~= start + all.take(i + 1));
        i += 1;
    }
    assert(all.take(i as int) =~= all);
    if let Some(a) = find_decider(values) {
        let ghost before = texts(out@);
        let ghost x = a@;
        out.push(a);
        assert(texts(out@) =~= before.push(x));
        assert(texts(out@) =~= start + all.push(x));
    }
}

/// A policy, with the services that its traffic goes to.
#[derive(Debug)]
pub struct Terms {
    pub values: Vec<(String, String)>,
    pub traffic: Vec<String>,
}

pub open spec fn terms_aliases(t: Option<Terms>) -> Seq<Seq<char>> {
    match t {
        Some(t) => policy_aliases(pairs(t.values@), texts(t.traffic@)),
        None => Seq::empty(),
    }
}

pub open spec fn shape_aliases(s: Option<Shape>) -> Seq<Seq<char>> {
    match s {
        Some(s) => aliases_of(targets_of(s)),
        None => Seq::empty(),
    }
}

pub open spec fn target_count(s: Option<Shape>) -> nat {
    match s {
        Some(s) => targets_of(s).len(),
        None => 0,
    }
}

/// What an Ingress asks of its namespace, with its rules and those that are kept from before, its policy and
/// the one that is kept, and with the length of its script where it has one that was found. There is nothing
/// where there are more backends than can be counted.
pub fn demand(
    spec: &IngressSpec,
    retained: &Option<IngressSpec>,
    terms: &Terms,
    kept: &Option<Terms>,
    script: Option<usize>,
    scripted: bool,
) -> (r: Option<Demand>)
    ensures
        match r {
            Some(d) => {
                &&& d.routes == targets_of(spec@).len()
                &&& d.retained_routes == target_count(shape(*retained))
                &&& texts(d.backends@) == shape_aliases(shape(*retained)) + aliases_of(
                    targets_of(spec@),
                ) + policy_aliases(pairs(terms.values@), texts(terms.traffic@)) + terms_aliases(*kept)
                &&& d.script == script && d.scripted == scripted
            },
            None => targets_of(spec@).len() > usize::MAX || target_count(shape(*retained))
                > usize::MAX,
        },
{
    let routes = match count_targets(spec) {
        None => return None,
        Some(n) => n,
    };
    let mut backends: Vec<String> = Vec::new();
    assert(texts(backends@) =~= Seq::<Seq<char>>::empty());
    let ghost a = shape_aliases(shape(*retained));
    let mut retained_routes: usize = 0;
    if let Some(s) = retained {
        retained_routes = match count_targets(s) {
            None => return None,
            Some(n) => n,
        };
        add_aliases(s, &mut backends);
    }
    assert(texts(backends@) =~= a);
    add_aliases(spec, &mut backends);
    add_policy(&terms.values, &terms.traffic, &mut backends);
    if let Some(t) = kept {
        add_policy(&t.values, &t.traffic, &mut backends);
    }
    let d = Demand { routes, retained_routes, backends, script, scripted };
    assert(texts(d.backends@) =~= a + aliases_of(targets_of(spec@)) + policy_aliases(
        pairs(terms.values@),
        texts(terms.traffic@),
    ) + terms_aliases(*kept));
    Some(d)
}

/// What administrators have to say of a namespace.
#[derive(Clone, Copy, Debug, PartialEq, Eq, Structural)]
pub enum Tenancy {
    /// There are no rules.
    Free,
    /// The namespace is not admitted.
    Denied,
    Limited(Quota),
}

/// Why an Ingress is not served, or not as it asks.
#[derive(Clone, Copy, Debug, PartialEq, Eq, Structural)]
pub enum Notice {
    NamespaceDenied,
    NamespaceQuota,
    Plugin(Reason),
    UnavailablePolicyResource,
    RetainedPlugin,
    ForbiddenCopies,
    DomainDenied,
}

impl Notice {
    pub open spec fn spec_reason(self) -> Seq<char> {
        match self {
            Notice::NamespaceDenied => "NamespaceDenied"@,
            Notice::NamespaceQuota => "NamespaceQuota"@,
            Notice::Plugin(Reason::UnrecoverablePlugin) => "UnrecoverablePlugin"@,
            Notice::Plugin(Reason::PendingCheckpoint) => "PendingCheckpoint"@,
            Notice::Plugin(Reason::InvalidPlugin) => "InvalidPlugin"@,
            Notice::Plugin(Reason::MissingPlugin) => "MissingPlugin"@,
            Notice::UnavailablePolicyResource => "UnavailablePolicyResource"@,
            Notice::RetainedPlugin => "NamespaceQuota"@,
            Notice::ForbiddenCopies => "NamespaceQuota"@,
            Notice::DomainDenied => "DomainDenied"@,
        }
    }

    /// The reason as events name it.
    pub fn reason(&self) -> (r: &'static str)
        ensures
            r@ == self.spec_reason(),
    {
        match self {
            Notice::NamespaceDenied => "NamespaceDenied",
            Notice::NamespaceQuota => "NamespaceQuota",
            Notice::Plugin(Reason::UnrecoverablePlugin) => "UnrecoverablePlugin",
            Notice::Plugin(Reason::PendingCheckpoint) => "PendingCheckpoint",
            Notice::Plugin(Reason::InvalidPlugin) => "InvalidPlugin",
            Notice::Plugin(Reason::MissingPlugin) => "MissingPlugin",
            Notice::UnavailablePolicyResource => "UnavailablePolicyResource",
            Notice::RetainedPlugin => "NamespaceQuota",
            Notice::ForbiddenCopies => "NamespaceQuota",
            Notice::DomainDenied => "DomainDenied",
        }
    }
}

/// Whether a namespace may have an Ingress. It is counted where it may, and there is a rule.
pub fn enter(tenancy: Tenancy, usage: &mut Usage, d: &Demand) -> (r: Option<Notice>)
    ensures
        r == match tenancy {
            Tenancy::Free => None::<Notice>,
            Tenancy::Denied => Some(Notice::NamespaceDenied),
            Tenancy::Limited(q) => if exceeds(*old(usage), *d, q) {
                Some(Notice::NamespaceQuota)
            } else {
                None
            },
        },
        match tenancy {
            Tenancy::Limited(q) => if exceeds(*old(usage), *d, q) {
                *final(usage) == *old(usage)
            } else {
                &&& final(usage).ingresses == old(usage).ingresses + 1
                &&& final(usage).routes == old(usage).routes + larger(d.routes, d.retained_routes)
                &&& texts(final(usage).backends@) == crate::ingress::routes::joined(
                    texts(old(usage).backends@),
                    texts(d.backends@),
                )
            },
            _ => *final(usage) == *old(usage),
        },
{
    match tenancy {
        Tenancy::Free => None,
        Tenancy::Denied => Some(Notice::NamespaceDenied),
        Tenancy::Limited(q) => if admit_ingress(usage, d, &q) {
            None
        } else {
            Some(Notice::NamespaceQuota)
        },
    }
}

/// A namespace that may have one more Ingress stays within its limits.
pub proof fn law_admitted_ingresses_fit(u: Usage, d: Demand, q: Quota)
    requires
        !exceeds(u, d, q),
    ensures
        u.ingresses + 1 <= q.max_ingresses,
        u.routes + larger(d.routes, d.retained_routes) <= q.max_routes,
        crate::ingress::routes::joined(texts(u.backends@), texts(d.backends@)).len()
            <= q.max_backends,
        d.scripted ==> q.allow_scripts,
{
}

// ---------------------------------------------------------------------------
// The script
// ---------------------------------------------------------------------------

/// An object that holds texts, among them scripts.
#[derive(Debug)]
pub struct MapObject {
    pub namespace: Option<String>,
    pub name: String,
    pub uid: Option<String>,
    pub data: Option<Vec<(String, String)>>,
}

/// The first object of a name in a namespace.
pub open spec fn map_at(v: Seq<MapObject>, ns: Seq<char>, name: Seq<char>) -> Option<MapObject>
    decreases v.len(),
{
    if v.len() == 0 {
        None
    } else if text::opt(v[0].namespace) == Some(ns) && v[0].name@ == name {
        Some(v[0])
    } else {
        map_at(v.drop_first(), ns, name)
    }
}

fn find_map<'a>(v: &'a Vec<MapObject>, ns: &str, name: &str) -> (r: Option<&'a MapObject>)
    ensures
        match r {
            Some(m) => map_at(v@, ns@, name@) == Some(*m),
            None => map_at(v@, ns@, name@) is None,
        },
{
    let mut i: usize = 0;
    assert(v@.skip(0) =~= v@);
    while i < v.len()
        invariant
            i <= v.len(),
            map_at(v@.skip(i as int), ns@, name@) == map_at(v@, ns@, name@),
        decreases v.len() - i,
    {
        assert(v@.skip(i as int).drop_first() =~= v@.skip(i + 1));
        assert(v@.skip(i as int)[0] == v@[i as int]);
        if is_named(&v[i].namespace, ns) && text::same(v[i].name.as_str(), name) {
            return Some(&v[i]);
        }
        i += 1;
    }
    None
}

pub open spec fn or_empty_text(s: Option<Seq<char>>) -> Seq<char> {
    match s {
        Some(s) => s,
        None => Seq::empty(),
    }
}

/// The script at a place, and the identity of the object that holds it. The built-in script lets every
/// request pass; its place is empty.
pub open spec fn script_at(v: Seq<MapObject>, ns: Seq<char>, place: Seq<char>) -> Option<
    (Seq<char>, Seq<char>),
> {
    if place.len() == 0 {
        Some(("function on_request() return route.pass() end"@, "builtin"@))
    } else {
        match text::split_once_spec(place, '/') {
            None => None,
            Some((name, key)) => match map_at(v, ns, name) {
                None => None,
                Some(m) => match m.data {
                    None => None,
                    Some(d) => match lookup(pairs(d@), key) {
                        None => None,
                        Some(s) => Some((s, or_empty_text(text::opt(m.uid)))),
                    },
                },
            },
        }
    }
}

pub open spec fn found(p: Option<(String, String)>) -> Option<(Seq<char>, Seq<char>)> {
    match p {
        Some((a, b)) => Some((a@, b@)),
        None => None,
    }
}

/// The script at a place, and the identity of the object that holds it.
pub fn find_script(v: &Vec<MapObject>, ns: &str, place: &str) -> (r: Option<(String, String)>)
    ensures
        found(r) == script_at(v@, ns@, place@),
{
    if place.is_empty() {
        return Some(
            ("function on_request() return route.pass() end".to_owned(), "builtin".to_owned()),
        );
    }
    let (name, key) = match text::split_once(place, '/') {
        None => return None,
        Some(p) => p,
    };
    let m = match find_map(v, ns, name.as_str()) {
        None => return None,
        Some(m) => m,
    };
    let d = match &m.data {
        None => return None,
        Some(d) => d,
    };
    match text::find(d, key.as_str()) {
        None => None,
        Some(s) => {
            let uid = match &m.uid {
                Some(u) => u.clone(),
                None => {
                    let e = String::new();
                    assert(e@ =~= Seq::<char>::empty());
                    e
                },
            };
            Some((s.to_owned(), uid))
        },
    }
}

/// The identity of the object that holds the script of an annotation, for finding its checkpoint: that of
/// the built-in script where there is no such object.
pub open spec fn holder_of(v: Seq<MapObject>, ns: Seq<char>, annotation: Option<Seq<char>>) -> Seq<char> {
    match annotation {
        None => "builtin"@,
        Some(place) => match text::split_once_spec(place, '/') {
            None => "builtin"@,
            Some((name, _)) => match map_at(v, ns, name) {
                None => "builtin"@,
                Some(m) => match text::opt(m.uid) {
                    Some(u) => u,
                    None => "builtin"@,
                },
            },
        },
    }
}

pub fn find_holder(v: &Vec<MapObject>, ns: &str, annotation: &Option<String>) -> (r: String)
    ensures
        r@ == holder_of(v@, ns@, text::opt(*annotation)),
{
    if let Some(place) = annotation {
        if let Some((name, _)) = text::split_once(place.as_str(), '/') {
            if let Some(m) = find_map(v, ns, name.as_str()) {
                if let Some(u) = &m.uid {
                    return u.clone();
                }
            }
        }
    }
    "builtin".to_owned()
}

// ---------------------------------------------------------------------------
// What is served
// ---------------------------------------------------------------------------

/// An Ingress that asks to be served, under one class.
#[derive(Debug)]
pub struct Asked {
    pub class: String,
    pub uid: String,
    pub namespace: String,
    pub name: String,
    pub spec: IngressSpec,
    /// The annotations that say how requests are treated.
    pub values: Vec<(String, String)>,
    /// The place of the script, if any.
    pub place: Option<String>,
}

/// What is known of it beyond that.
#[derive(Debug)]
pub struct Answers {
    /// The script at that place.
    pub script: Option<(String, String)>,
    /// The policy on bodies, where the annotations hold and all that they refer to is there.
    pub body: Option<BodyPolicy>,
    /// Whether the script compiles.
    pub compiles: bool,
    /// The checkpoint for that script.
    pub checkpoint: Option<Accepted>,
    /// Whether the script of the checkpoint compiles.
    pub durable_compiles: bool,
    /// Whether the outcome is only looked at.
    pub preview: bool,
}

/// The configuration that would be accepted.
pub open spec fn candidate_of(
    a: Asked,
    place: Seq<char>,
    script: (Seq<char>, Seq<char>),
    body: BodyPolicy,
) -> Grant {
    Grant {
        schema: SCHEMA,
        class: a.class@,
        uid: a.uid@,
        namespace: a.namespace@,
        name: a.name@,
        reference: place,
        plugin_uid: script.1,
        source: script.0,
        spec: a.spec@,
        body_policy: body,
        policy: pairs(a.values@),
    }
}

/// What an Ingress asks for, by what is known.
pub open spec fn wish_of(a: Asked, k: Answers) -> Wish {
    Wish {
        reference: text::opt(a.place),
        plugin: match found(k.script) {
            Some((_, uid)) => Some(uid),
            None => None,
        },
        durable: match grant(k.checkpoint) {
            Some(g) => if g.namespace == a.namespace@ && g.name == a.name@ {
                Some(g)
            } else {
                None
            },
            None => None,
        },
        durable_compiles: k.durable_compiles,
        candidate: match (text::opt(a.place), found(k.script), k.body) {
            (Some(place), Some(script), Some(body)) => if k.compiles {
                Some(candidate_of(a, place, script, body))
            } else {
                None
            },
            _ => None,
        },
        preview: k.preview,
    }
}

fn offer(a: &Asked, k: &Answers) -> (r: Offer)
    ensures
        r@ == wish_of(*a, *k),
{
    let durable = match &k.checkpoint {
        Some(g) => if text::same(g.namespace.as_str(), a.namespace.as_str()) && text::same(
            g.name.as_str(),
            a.name.as_str(),
        ) {
            Some(g.copy())
        } else {
            None
        },
        None => None,
    };
    let candidate = match (&a.place, &k.script, k.body) {
        (Some(place), Some((source, plugin)), Some(body)) => if k.compiles {
            let c = Accepted {
                schema: SCHEMA,
                class: a.class.clone(),
                uid: a.uid.clone(),
                namespace: a.namespace.clone(),
                name: a.name.clone(),
                reference: place.clone(),
                plugin_uid: plugin.clone(),
                source: source.clone(),
                spec: a.spec.copy(),
                body_policy: body,
                policy: crate::config::settings::copy_pairs(&a.values),
            };
            assert(c@ =~= candidate_of(*a, place@, (source@, plugin@), body));
            Some(c)
        } else {
            None
        },
        _ => None,
    };
    let found = match &k.script {
        Some((s, p)) => Some((s.clone(), p.clone())),
        None => None,
    };
    let reference = crate::model::copy_opt(&a.place);
    let r = Offer {
        reference,
        found,
        durable,
        durable_compiles: k.durable_compiles,
        candidate,
        preview: k.preview,
    };
    assert(r@ =~= wish_of(*a, *k));
    r
}

/// Decides what of an Ingress is served, and notes it.
pub fn propose(e: &mut Entry, a: &Asked, k: &Answers) -> (r: Verdict)
    ensures
        (final(e)@, r@) == ruled(old(e)@, wish_of(*a, *k)),
{
    decide(e, &offer(a, k))
}

/// The policy in effect: that of the configuration that is served, else that of the annotations.
pub open spec fn effective_of(p: Past, values: Seq<(Seq<char>, Seq<char>)>) -> Seq<
    (Seq<char>, Seq<char>),
> {
    match p.accepted {
        Some(g) => g.policy,
        None => values,
    }
}

pub fn effective<'a>(e: &'a Entry, values: &'a Vec<(String, String)>) -> (r: &'a Vec<(String, String)>)
    ensures
        pairs(r@) == effective_of(e@, pairs(values@)),
{
    match &e.accepted {
        Some(a) => &a.policy,
        None => values,
    }
}

/// The policy on bodies in effect: that of the configuration that is served, else that of the annotations.
pub fn effective_body(e: &Entry, own: BodyPolicy) -> (r: BodyPolicy)
    ensures
        r == match e@.accepted {
            Some(g) => g.body_policy,
            None => own,
        },
{
    match &e.accepted {
        Some(a) => a.body_policy,
        None => own,
    }
}

/// Whether the routes of an Ingress answer that nothing is there, and what is told of it.
#[derive(Debug)]
pub struct Outcome {
    pub invalid: bool,
    pub notices: Vec<Notice>,
}

pub open spec fn plugin_notices(v: Seq<Reason>) -> Seq<Notice> {
    Seq::new(v.len(), |i: int| Notice::Plugin(v[i]))
}

/// Whether the script that is served breaks the rules of its namespace.
pub open spec fn breaks_rules(p: Past, t: Tenancy) -> bool {
    match (p.accepted, t) {
        (Some(g), Tenancy::Limited(q)) => text::byte_len(g.source) > q.max_script_bytes || (
        g.reference.len() > 0 && !q.allow_scripts),
        _ => false,
    }
}

/// What is served of an Ingress after it was decided on: nothing where something that the policy in effect
/// refers to is missing, and nothing where its script breaks the rules of its namespace.
pub open spec fn outcome_of(p: Past, r: Ruling, ready: bool, t: Tenancy) -> (bool, Seq<Notice>) {
    let missing = if ready {
        Seq::<Notice>::empty()
    } else {
        seq![Notice::UnavailablePolicyResource]
    };
    let broken = if breaks_rules(p, t) {
        seq![Notice::RetainedPlugin]
    } else {
        Seq::<Notice>::empty()
    };
    (r.invalid || !ready || breaks_rules(p, t), plugin_notices(r.reasons) + missing + broken)
}

/// What is served of an Ingress after it was decided on; `ready` tells whether all that the policy in effect
/// refers to is there.
pub fn restrict(e: &Entry, v: &Verdict, ready: bool, tenancy: Tenancy) -> (r: Outcome)
    ensures
        (r.invalid, r.notices@) == outcome_of(e@, v@, ready, tenancy),
{
    let mut notices: Vec<Notice> = Vec::new();
    let ghost all = v.reasons@;
    let mut i: usize = 0;
    assert(notices@ =~= plugin_notices(all.take(0)));
    while i < v.reasons.len()
        invariant
            i <= v.reasons.len(),
            all == v.reasons@,
            notices@ == plugin_notices(all.take(i as int)),
        decreases v.reasons.len() - i,
    {
        notices.push(Notice::Plugin(v.reasons[i]));
        i += 1;
        assert(notices@ =~= plugin_notices(all.take(i as int)));
    }
    assert(all.take(i as int) =~= all);
    let ghost told = notices@;
    let mut invalid = v.invalid;
    if !ready {
        invalid = true;
        notices.push(Notice::UnavailablePolicyResource);
    }
    let broken = match (&e.accepted, tenancy) {
        (Some(a), Tenancy::Limited(q)) => retained_exceeds(
            a.source.as_str(),
            a.reference.as_str(),
            &q,
        ),
        _ => false,
    };
    if broken {
        invalid = true;
        notices.push(Notice::RetainedPlugin);
    }
    assert(notices@ =~= outcome_of(e@, v@, ready, tenancy).1);
    Outcome { invalid, notices }
}

/// Whether copies of requests that a policy asks for are forbidden to its namespace.
pub fn forbids_copies(copies: bool, tenancy: Tenancy) -> (r: bool)
    ensures
        r == (copies && tenancy is Limited && !tenancy->Limited_0.allow_mirroring),
{
    match tenancy {
        Tenancy::Limited(q) => copies && !q.allow_mirroring,
        _ => false,
    }
}

/// Nothing is served of an Ingress whose policy refers to something that is missing.
pub proof fn law_missing_resources_disable_routes(p: Past, r: Ruling, t: Tenancy)
    ensures
        outcome_of(p, r, false, t).0,
        outcome_of(p, r, false, t).1.contains(Notice::UnavailablePolicyResource),
{
    let n = plugin_notices(r.reasons).len() as int;
    assert(outcome_of(p, r, false, t).1[n] == Notice::UnavailablePolicyResource);
}

/// No script is served that is longer than its namespace may have.
pub proof fn law_served_scripts_keep_to_the_rules(p: Past, r: Ruling, ready: bool, q: Quota)
    requires
        p.accepted is Some,
        !outcome_of(p, r, ready, Tenancy::Limited(q)).0,
    ensures
        text::byte_len(p.accepted->0.source) <= q.max_script_bytes,
        p.accepted->0.reference.len() > 0 ==> q.allow_scripts,
{
}

// ---------------------------------------------------------------------------
// Backends
// ---------------------------------------------------------------------------

/// The backends that the routes of an Ingress may name: each alias with the key that it stands for. The
/// later one of two with one alias counts, which is the same.
pub open spec fn named_backends(
    ns: Seq<char>,
    name: Seq<char>,
    own: bool,
    aliases: Seq<Seq<char>>,
) -> Seq<(Seq<char>, Seq<char>)>
    decreases aliases.len(),
{
    if aliases.len() == 0 {
        Seq::empty()
    } else {
        text::put(
            named_backends(ns, name, own, aliases.drop_last()),
            aliases.last(),
            backend_key(ns, name, own, aliases.last()),
        )
    }
}

/// The names of the services that traffic goes to; nothing where one cannot be read.
pub open spec fn traffic_aliases(v: Seq<Seq<char>>) -> Option<Seq<Seq<char>>>
    decreases v.len(),
{
    if v.len() == 0 {
        Some(Seq::empty())
    } else {
        match (traffic_aliases(v.drop_last()), reference_alias(v.last() + "/"@)) {
            (Some(rest), Some(a)) => Some(rest.push(a)),
            _ => None,
        }
    }
}

proof fn lemma_traffic_none(v: Seq<Seq<char>>, n: int)
    requires
        0 <= n <= v.len(),
        traffic_aliases(v.take(n)) is None,
    ensures
        traffic_aliases(v) is None,
    decreases v.len() - n,
{
    if n == v.len() {
        assert(v.take(n) =~= v);
    } else {
        assert(v.take(n + 1).drop_last() =~= v.take(n));
        lemma_traffic_none(v, n + 1);
    }
}

/// Adds the names of the services that traffic goes to; `false` where one cannot be read.
fn add_traffic(traffic: &Vec<String>, out: &mut Vec<String>) -> (r: bool)
    ensures
        r == (traffic_aliases(texts(traffic@)) is Some),
        r ==> texts(final(out)@) == texts(old(out)@) + traffic_aliases(texts(traffic@))->0,
{
    let ghost start = texts(out@);
    let ghost all = texts(traffic@);
    let mut i: usize = 0;
    assert(start + Seq::<Seq<char>>::empty() =~= start);
    while i < traffic.len()
        invariant
            i <= traffic.len(),
            all == texts(traffic@),
            traffic_aliases(all.take(i as int)) is Some,
            texts(out@) == start + traffic_aliases(all.take(i as int))->0,
        decreases traffic.len() - i,
    {
        let ghost before = texts(out@);
        proof {
            assert(all.take(i + 1).drop_last() =~= all.take(i as int));
            assert(all.take(i + 1).last() == traffic@[i as int]@);
        }
        match read_alias(text::concat(traffic[i].as_str(), "/").as_str()) {
            None => {
                proof {
                    lemma_traffic_none(all, i + 1);
                }
                return false;
            },
            Some(a) => {
                let ghost x = a@;
                out.push(a);
                assert(texts(out@) =~= before.push(x));
                assert(texts(out@) =~= start + traffic_aliases(all.take(i + 1))->0);
            },
        }
        i += 1;
    }
    assert(all.take(i as int) =~= all);
    true
}

/// The backends that the routes of an Ingress may name: those of its rules, and those that its traffic goes
/// to. They are its own where a policy is in effect. There is nothing where one that traffic goes to cannot
/// be read.
pub fn name_backends(ns: &str, name: &str, own: bool, routing: &IngressSpec, traffic: &Vec<String>) -> (r: Option<
    Vec<(String, String)>,
>)
    ensures
        match r {
            Some(v) => traffic_aliases(texts(traffic@)) is Some && pairs(v@) == named_backends(
                ns@,
                name@,
                own,
                aliases_of(targets_of(routing@)) + traffic_aliases(texts(traffic@))->0,
            ),
            None => traffic_aliases(texts(traffic@)) is None,
        },
{
    let mut all: Vec<String> = Vec::new();
    assert(texts(all@) =~= Seq::<Seq<char>>::empty());
    add_aliases(routing, &mut all);
    let ghost head = aliases_of(targets_of(routing@));
    assert(texts(all@) =~= head);
    if !add_traffic(traffic, &mut all) {
        return None;
    }
    let ghost goal = texts(all@);
    let mut r: Vec<(String, String)> = Vec::new();
    let mut k: usize = 0;
    assert(pairs(r@) =~= named_backends(ns@, name@, own, goal.take(0)));
    while k < all.len()
        invariant
            k <= all.len(),
            goal == texts(all@),
            pairs(r@) == named_backends(ns@, name@, own, goal.take(k as int)),
        decreases all.len() - k,
    {
        proof {
            assert(goal.take(k + 1).drop_last() =~= goal.take(k as int));
            assert(goal.take(k + 1).last() == all@[k as int]@);
        }
        let key = key_of(ns, name, own, all[k].as_str());
        text::put_pair(&mut r, all[k].clone(), key);
        k += 1;
    }
    assert(goal.take(k as int) =~= goal);
    Some(r)
}

/// The backends of an Ingress are its default, if any, and those of its paths.
pub proof fn law_backends_are_those_of_rules(s: Shape, t: Option<Target>, r: HostRule, p: PathRule)
    ensures
        s.default_backend == Some(t) ==> targets_of(s) == seq![t] + rule_targets(s.rules),
        s.default_backend is None ==> targets_of(s) == rule_targets(s.rules),
        rule_targets(s.rules.push(HostRule { paths: seq![p], ..r })) == rule_targets(s.rules).push(p.service),
{
    let x = HostRule { paths: seq![p], ..r };
    assert(s.rules.push(x).drop_last() =~= s.rules);
    assert(rule_targets(s.rules) + path_targets(seq![p]) =~= rule_targets(s.rules).push(p.service));
}

/// The names of backends are those of services; what is no service has none.
pub proof fn law_only_services_are_named(v: Seq<Option<Target>>, t: Target)
    ensures
        aliases_of(v.push(Some(t))) == aliases_of(v).push(alias_of(t)),
        aliases_of(v.push(None)) == aliases_of(v),
        aliases_of(Seq::empty()).len() == 0,
{
    assert(v.push(Some(t)).drop_last() =~= v);
    assert(v.push(None).drop_last() =~= v);
}

/// A script is found in the map and under the key that its place names, in the namespace; no place is the
/// built-in one.
pub proof fn law_scripts_are_found_at_their_place(
    v: Seq<MapObject>,
    ns: Seq<char>,
    name: Seq<char>,
    key: Seq<char>,
    m: MapObject,
    d: Vec<(String, String)>,
    s: Seq<char>,
    uid: Seq<char>,
)
    requires
        !name.contains('/'),
    ensures
        script_at(v, ns, Seq::empty()) == Some(
            ("function on_request() return route.pass() end"@, "builtin"@),
        ),
        map_at(v, ns, name) is None ==> script_at(v, ns, name + seq!['/'] + key) is None,
        map_at(v, ns, name) == Some(m) && m.data == Some(d) && text::opt(m.uid) == Some(uid) && lookup(
            pairs(d@),
            key,
        ) == Some(s) ==> script_at(v, ns, name + seq!['/'] + key) == Some((s, uid)),
        map_at(v, ns, name) == Some(m) && m.data == Some(d) && lookup(pairs(d@), key) is None ==> script_at(
            v,
            ns,
            name + seq!['/'] + key,
        ) is None,
{
    let p = name + seq!['/'] + key;
    assert forall|i: int| 0 <= i < name.len() implies p[i] != '/' by {
        assert(name.contains(p[i]));
    }
    text::lemma_position_is(p, '/', name.len() as int);
    assert(p.take(name.len() as int) =~= name);
    assert(p.skip(name.len() as int + 1) =~= key);
}

/// What is asked to be served holds what it is made of, and is only asked for where its script compiles.
pub proof fn law_candidates_hold_what_is_asked(
    a: Asked,
    k: Answers,
    place: Seq<char>,
    source: Seq<char>,
    uid: Seq<char>,
    body: BodyPolicy,
)
    requires
        text::opt(a.place) == Some(place),
        found(k.script) == Some((source, uid)),
        k.body == Some(body),
    ensures
        !k.compiles ==> wish_of(a, k).candidate is None,
        k.compiles ==> {
            let c = wish_of(a, k).candidate->0;
            &&& wish_of(a, k).candidate is Some
            &&& c.source == source && c.plugin_uid == uid && c.reference == place
            &&& c.class == a.class@ && c.uid == a.uid@ && c.namespace == a.namespace@ && c.name == a.name@
            &&& c.spec == a.spec@ && c.body_policy == body && c.policy == pairs(a.values@)
        },
        wish_of(a, k).plugin == Some(uid),
        wish_of(a, k).preview == k.preview,
{
}

/// A checkpoint of another Ingress does not count.
pub proof fn law_checkpoints_are_of_their_ingress(a: Asked, k: Answers, g: Grant)
    requires
        grant(k.checkpoint) == Some(g),
    ensures
        g.namespace != a.namespace@ || g.name != a.name@ ==> wish_of(a, k).durable is None,
        g.namespace == a.namespace@ && g.name == a.name@ ==> wish_of(a, k).durable == Some(g),
{
}

/// What was accepted says how requests are treated; without it the annotations do.
pub proof fn law_accepted_policies_count(p: Past, values: Seq<(Seq<char>, Seq<char>)>, g: Grant)
    ensures
        p.accepted == Some(g) ==> effective_of(p, values) == g.policy,
        p.accepted is None ==> effective_of(p, values) == values,
{
}

/// An Ingress is served where nothing speaks against it.
pub proof fn law_good_ingresses_are_served(p: Past, r: Ruling)
    ensures
        !r.invalid ==> outcome_of(p, r, true, Tenancy::Free) == (false, plugin_notices(r.reasons)),
        r.invalid ==> outcome_of(p, r, true, Tenancy::Free).0,
{
    assert(plugin_notices(r.reasons) + Seq::<Notice>::empty() + Seq::<Notice>::empty() =~= plugin_notices(
        r.reasons,
    ));
}

/// A script may ask the backends of its Ingress by their names.
pub proof fn law_scripts_know_backends_by_name(
    ns: Seq<char>,
    name: Seq<char>,
    own: bool,
    aliases: Seq<Seq<char>>,
    a: Seq<char>,
)
    ensures
        named_backends(ns, name, own, aliases.push(a)) == text::put(
            named_backends(ns, name, own, aliases),
            a,
            if own {
                ns + "/"@ + name + "/"@ + a
            } else {
                ns + "/"@ + a
            },
        ),
{
    assert(aliases.push(a).drop_last() =~= aliases);
}

/// A script is held by the map that its place names, and by nothing else where there is none.
pub proof fn law_scripts_are_held_by_their_map(v: Seq<MapObject>, ns: Seq<char>, name: Seq<char>, key: Seq<char>)
    requires
        !name.contains('/'),
    ensures
        holder_of(v, ns, None) == "builtin"@,
        holder_of(v, ns, Some(name)) == "builtin"@,
        map_at(v, ns, name) is None ==> holder_of(v, ns, Some(name + seq!['/'] + key)) == "builtin"@,
        map_at(v, ns, name) is Some && text::opt(map_at(v, ns, name)->0.uid) is Some ==> holder_of(
            v,
            ns,
            Some(name + seq!['/'] + key),
        ) == text::opt(map_at(v, ns, name)->0.uid)->0,
{
    text::law_texts_are_split_once(name, '/', key);
}

/// The Service that decides on requests counts as a backend beside those of the traffic.
pub proof fn law_deciders_count_as_backends(
    values: Seq<(Seq<char>, Seq<char>)>,
    traffic: Seq<Seq<char>>,
    value: Seq<char>,
)
    ensures
        lookup(values, "rgnix.io/auth-service"@) is None ==> policy_aliases(values, traffic) == traffic,
        lookup(values, "rgnix.io/auth-service"@) == Some(value) && reference_alias(value) is Some ==> policy_aliases(
            values,
            traffic,
        ) == traffic.push(reference_alias(value)->0),
{
}

} // verus!

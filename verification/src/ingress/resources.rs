//! Which objects the Ingresses of a class need, and in which order they are taken.
use crate::ingress::backends::is_named;
use crate::ingress::checkpoint::{
    checkpoint_name, grant, name as checkpoint_name_text, restorable, restore, Accepted, Grant,
    MAX_CHECKPOINT,
};
use crate::ingress::routes::{
    aged, by_age, indexes, of_class, older, oldest_first, selects, Age, ClassObject,
};
use crate::ingress::spec::{
    host_rules, path_rules, same_opt, tls_rules, HostRule, IngressSpec, PathRule, PathSpec,
    Shape, Target, TlsRule, TlsSpec,
};
use crate::text;
use vstd::prelude::*;

verus! {

/// An Ingress, with what is known of it from before.
#[derive(Debug)]
pub struct IngressObject {
    pub namespace: Option<String>,
    pub name: String,
    pub uid: Option<String>,
    pub created: Option<i64>,
    pub spec: Option<IngressSpec>,
    /// The script that it is annotated with.
    pub script: Option<String>,
    /// The rules that were accepted last, while the controller ran.
    pub routed: Option<IngressSpec>,
    /// What its checkpoint reads as, and the length of its text.
    pub checkpoint: Option<Accepted>,
    pub checkpoint_length: usize,
}

/// An object that Ingresses need: its namespace, its name, and its identifier.
#[derive(Debug)]
pub struct Needed {
    pub namespace: Option<String>,
    pub name: String,
    pub uid: Option<String>,
}

/// A part of the endpoints of a service: its name and the service that its label names.
#[derive(Debug)]
pub struct SliceName {
    pub namespace: Option<String>,
    pub name: String,
    pub service: Option<String>,
}

/// All objects, as they were observed.
#[derive(Debug)]
pub struct Resources {
    pub classes: Vec<ClassObject>,
    pub ingresses: Vec<IngressObject>,
    pub services: Vec<Needed>,
    pub slices: Vec<SliceName>,
    pub secrets: Vec<Needed>,
    pub maps: Vec<Needed>,
}

/// A text, or nothing where it is missing.
pub open spec fn or_empty(s: Option<Seq<char>>) -> Seq<char> {
    match s {
        Some(s) => s,
        None => Seq::empty(),
    }
}

pub fn text_or_empty(s: &Option<String>) -> (out: String)
    ensures
        out@ == or_empty(text::opt(*s)),
{
    match s {
        Some(s) => s.clone(),
        None => {
            let r = String::new();
            assert(r@ =~= Seq::<char>::empty());
            r
        },
    }
}

// ---------------------------------------------------------------------------
// Which Ingresses count
// ---------------------------------------------------------------------------

/// The first class of a name, whoever serves it.
pub open spec fn class_named(v: Seq<ClassObject>, name: Seq<char>) -> Option<ClassObject>
    decreases v.len(),
{
    if v.len() == 0 {
        None
    } else if v[0].name@ == name {
        Some(v[0])
    } else {
        class_named(v.drop_first(), name)
    }
}

pub fn find_named<'a>(v: &'a Vec<ClassObject>, name: &str) -> (r: Option<&'a ClassObject>)
    ensures
        match r {
            Some(c) => class_named(v@, name@) == Some(*c),
            None => class_named(v@, name@) is None,
        },
{
    let mut i: usize = 0;
    assert(v@.skip(0) =~= v@);
    while i < v.len()
        invariant
            i <= v.len(),
            class_named(v@.skip(i as int), name@) == class_named(v@, name@),
        decreases v.len() - i,
    {
        assert(v@.skip(i as int).drop_first() =~= v@.skip(i + 1));
        assert(v@.skip(i as int)[0] == v@[i as int]);
        if text::same(v[i].name.as_str(), name) {
            return Some(&v[i]);
        }
        i += 1;
    }
    None
}

/// Whether a class is one that this controller serves.
pub open spec fn served(c: ClassObject) -> bool {
    text::opt(c.controller) == Some("rgnix.io/ingress-controller"@)
}

/// Whether an Ingress is one of the class.
pub open spec fn chosen(i: IngressObject, class: Option<ClassObject>) -> bool {
    &&& class is Some
    &&& served(class->0)
    &&& i.spec is Some
    &&& of_class(class->0, i.spec->0@.class_name)
}

fn is_chosen(i: &IngressObject, class: Option<&ClassObject>) -> (r: bool)
    ensures
        r == chosen(
            *i,
            match class {
                Some(c) => Some(*c),
                None => None,
            },
        ),
{
    match (class, &i.spec) {
        (Some(c), Some(s)) => is_named(&c.controller, "rgnix.io/ingress-controller") && selects(
            c,
            &s.class_name,
        ),
        _ => false,
    }
}

// ---------------------------------------------------------------------------
// What they need
// ---------------------------------------------------------------------------

/// A name in a namespace.
pub type Key = (Seq<char>, Seq<char>);

/// The services that paths lead to.
pub open spec fn path_services(v: Seq<PathRule>, ns: Seq<char>) -> Seq<Key>
    decreases v.len(),
{
    if v.len() == 0 {
        Seq::empty()
    } else {
        let before = path_services(v.drop_last(), ns);
        match v.last().service {
            Some(t) => before.push((ns, t.name)),
            None => before,
        }
    }
}

pub open spec fn rule_services(v: Seq<HostRule>, ns: Seq<char>) -> Seq<Key>
    decreases v.len(),
{
    if v.len() == 0 {
        Seq::empty()
    } else {
        rule_services(v.drop_last(), ns) + path_services(v.last().paths, ns)
    }
}

/// The services that the rules of an Ingress lead to.
pub open spec fn services_of(s: Shape, ns: Seq<char>) -> Seq<Key> {
    match s.default_backend {
        Some(Some(t)) => seq![(ns, t.name)] + rule_services(s.rules, ns),
        _ => rule_services(s.rules, ns),
    }
}

fn add_path_services(v: &Vec<PathSpec>, ns: &str, out: &mut Vec<(String, String)>)
    ensures
        text::pairs(final(out)@) == text::pairs(old(out)@) + path_services(path_rules(v@), ns@),
{
    let ghost start = text::pairs(out@);
    let ghost all = path_rules(v@);
    let mut i: usize = 0;
    assert(start + path_services(all.take(0), ns@) =~= start);
    while i < v.len()
        invariant
            i <= v.len(),
            all == path_rules(v@),
            text::pairs(out@) == start + path_services(all.take(i as int), ns@),
        decreases v.len() - i,
    {
        let ghost before = text::pairs(out@);
        proof {
            assert(all.take(i + 1).drop_last() =~= all.take(i as int));
            assert(all.take(i + 1).last() == v@[i as int]@);
        }
        if let Some(s) = &v[i].backend.service {
            out.push((ns.to_owned(), s.name.clone()));
            proof {
                assert(text::pairs(out@) =~= before.push((ns@, s.name@)));
                assert(start + path_services(all.take(i + 1), ns@) =~= before.push((ns@, s.name@)));
            }
        }
        i += 1;
    }
    assert(all.take(i as int) =~= all);
}

/// Adds the services that the rules of an Ingress lead to.
pub fn service_dependencies(spec: &IngressSpec, ns: &str, out: &mut Vec<(String, String)>)
    ensures
        text::pairs(final(out)@) == text::pairs(old(out)@) + services_of(spec@, ns@),
{
    let ghost start = text::pairs(out@);
    let ghost mut head: Seq<Key> = Seq::empty();
    if let Some(b) = &spec.default_backend {
        if let Some(s) = &b.service {
            out.push((ns.to_owned(), s.name.clone()));
            proof {
                head = seq![(ns@, s.name@)];
                assert(text::pairs(out@) =~= start + head);
            }
        }
    }
    let ghost all = host_rules(spec.rules@);
    let mut i: usize = 0;
    assert(text::pairs(out@) =~= start + head + rule_services(all.take(0), ns@));
    while i < spec.rules.len()
        invariant
            i <= spec.rules.len(),
            all == host_rules(spec.rules@),
            text::pairs(out@) == start + head + rule_services(all.take(i as int), ns@),
        decreases spec.rules.len() - i,
    {
        proof {
            assert(all.take(i + 1).drop_last() =~= all.take(i as int));
            assert(all.take(i + 1).last() == spec.rules@[i as int]@);
        }
        let ghost before = text::pairs(out@);
        add_path_services(&spec.rules[i].paths, ns, out);
        assert(text::pairs(out@) =~= start + head + rule_services(all.take(i + 1), ns@));
        i += 1;
    }
    assert(all.take(i as int) =~= all);
    assert(start + head + rule_services(all, ns@) =~= start + services_of(spec@, ns@));
}

/// The secrets with the certificates of an Ingress.
pub open spec fn secrets_of(v: Seq<TlsRule>, ns: Seq<char>) -> Seq<Key>
    decreases v.len(),
{
    if v.len() == 0 {
        Seq::empty()
    } else {
        let before = secrets_of(v.drop_last(), ns);
        match v.last().secret_name {
            Some(s) => before.push((ns, s)),
            None => before,
        }
    }
}

fn add_secrets(v: &Vec<TlsSpec>, ns: &str, out: &mut Vec<(String, String)>)
    ensures
        text::pairs(final(out)@) == text::pairs(old(out)@) + secrets_of(tls_rules(v@), ns@),
{
    let ghost start = text::pairs(out@);
    let ghost all = tls_rules(v@);
    let mut i: usize = 0;
    assert(start + secrets_of(all.take(0), ns@) =~= start);
    while i < v.len()
        invariant
            i <= v.len(),
            all == tls_rules(v@),
            text::pairs(out@) == start + secrets_of(all.take(i as int), ns@),
        decreases v.len() - i,
    {
        let ghost before = text::pairs(out@);
        proof {
            assert(all.take(i + 1).drop_last() =~= all.take(i as int));
            assert(all.take(i + 1).last() == v@[i as int]@);
        }
        if let Some(s) = &v[i].secret_name {
            out.push((ns.to_owned(), s.clone()));
            proof {
                assert(text::pairs(out@) =~= before.push((ns@, s@)));
                assert(start + secrets_of(all.take(i + 1), ns@) =~= before.push((ns@, s@)));
            }
        }
        i += 1;
    }
    assert(all.take(i as int) =~= all);
}

/// What Ingresses need: services, secrets and config maps, and the names of their checkpoints.
#[derive(Debug)]
pub struct Wanted {
    pub services: Vec<(String, String)>,
    pub secrets: Vec<(String, String)>,
    pub maps: Vec<(String, String)>,
    pub checkpoints: Vec<String>,
}

/// What a `Wanted` holds.
#[verifier::ext_equal]
pub ghost struct Needs {
    pub services: Seq<Key>,
    pub secrets: Seq<Key>,
    pub maps: Seq<Key>,
    pub checkpoints: Seq<Seq<char>>,
}

impl View for Wanted {
    type V = Needs;

    open spec fn view(&self) -> Needs {
        Needs {
            services: text::pairs(self.services@),
            secrets: text::pairs(self.secrets@),
            maps: text::pairs(self.maps@),
            checkpoints: text::texts(self.checkpoints@),
        }
    }
}

/// The identifier of the first config map of a name in a namespace.
pub open spec fn map_uid(v: Seq<Needed>, ns: Option<Seq<char>>, name: Seq<char>) -> Option<Seq<char>>
    decreases v.len(),
{
    if v.len() == 0 {
        None
    } else if text::opt(v[0].namespace) == ns && v[0].name@ == name {
        text::opt(v[0].uid)
    } else {
        map_uid(v.drop_first(), ns, name)
    }
}

fn find_map_uid<'a>(v: &'a Vec<Needed>, ns: &Option<String>, name: &str) -> (r: Option<&'a str>)
    ensures
        match r {
            Some(s) => map_uid(v@, text::opt(*ns), name@) == Some(s@),
            None => map_uid(v@, text::opt(*ns), name@) is None,
        },
{
    let mut i: usize = 0;
    assert(v@.skip(0) =~= v@);
    while i < v.len()
        invariant
            i <= v.len(),
            map_uid(v@.skip(i as int), text::opt(*ns), name@) == map_uid(
                v@,
                text::opt(*ns),
                name@,
            ),
        decreases v.len() - i,
    {
        assert(v@.skip(i as int).drop_first() =~= v@.skip(i + 1));
        assert(v@.skip(i as int)[0] == v@[i as int]);
        if same_opt(&v[i].namespace, ns) && text::same(v[i].name.as_str(), name) {
            return match &v[i].uid {
                Some(s) => Some(s.as_str()),
                None => None,
            };
        }
        i += 1;
    }
    None
}

/// The checkpoint of an Ingress that still counts: it is one for the Ingress, its class and its script.
pub open spec fn recalled(i: IngressObject, maps: Seq<Needed>, class: Seq<char>, script: Seq<
    char,
>) -> Option<Grant> {
    let uid = or_empty(text::opt(i.uid));
    match (map_uid(maps, text::opt(i.namespace), script), grant(i.checkpoint)) {
        (Some(plugin), Some(g)) => if i.checkpoint_length <= MAX_CHECKPOINT && restorable(
            g,
            class,
            uid,
            plugin,
        ) && g.namespace == or_empty(text::opt(i.namespace)) && g.name == i.name@ {
            Some(g)
        } else {
            None
        },
        _ => None,
    }
}

pub open spec fn routed_services(s: Option<IngressSpec>, ns: Seq<char>) -> Seq<Key> {
    match s {
        Some(s) => services_of(s@, ns),
        None => Seq::empty(),
    }
}

/// What is needed with one more Ingress.
pub open spec fn with_ingress(n: Needs, i: IngressObject, maps: Seq<Needed>, class: Seq<char>) -> Needs {
    let ns = or_empty(text::opt(i.namespace));
    let base = Needs {
        services: n.services + routed_services(i.spec, ns) + routed_services(i.routed, ns),
        secrets: n.secrets + match i.spec {
            Some(s) => secrets_of(s@.tls, ns),
            None => Seq::empty(),
        },
        ..n
    };
    let script = match i.script {
        Some(s) => text::split_once_spec(s@, '/'),
        None => None,
    };
    match script {
        None => base,
        Some((name, _)) => Needs {
            services: match recalled(i, maps, class, name) {
                Some(g) => base.services + services_of(g.spec, g.namespace),
                None => base.services,
            },
            maps: n.maps.push((ns, name)),
            checkpoints: n.checkpoints.push(
                checkpoint_name(class, or_empty(text::opt(i.uid))),
            ),
            ..base
        },
    }
}

pub open spec fn no_needs() -> Needs {
    Needs {
        services: Seq::empty(),
        secrets: Seq::empty(),
        maps: Seq::empty(),
        checkpoints: Seq::empty(),
    }
}

/// What the first Ingresses of an order need.
pub open spec fn needs(
    v: Seq<IngressObject>,
    order: Seq<int>,
    maps: Seq<Needed>,
    class: Seq<char>,
) -> Needs
    decreases order.len(),
{
    if order.len() == 0 {
        no_needs()
    } else {
        with_ingress(needs(v, order.drop_last(), maps, class), v[order.last()], maps, class)
    }
}

fn add_ingress(w: &mut Wanted, i: &IngressObject, maps: &Vec<Needed>, class: &str)
    ensures
        final(w)@ == with_ingress(old(w)@, *i, maps@, class@),
{
    let ghost before = w@;
    let ns = text_or_empty(&i.namespace);
    if let Some(s) = &i.spec {
        service_dependencies(s, ns.as_str(), &mut w.services);
    }
    proof {
        assert(w@.services =~= before.services + routed_services(i.spec, ns@));
    }
    if let Some(s) = &i.routed {
        service_dependencies(s, ns.as_str(), &mut w.services);
    }
    proof {
        assert(w@.services =~= before.services + routed_services(i.spec, ns@) + routed_services(
            i.routed,
            ns@,
        ));
    }
    if let Some(s) = &i.spec {
        add_secrets(&s.tls, ns.as_str(), &mut w.secrets);
    }
    proof {
        assert(w@.secrets =~= before.secrets + match i.spec {
            Some(s) => secrets_of(s@.tls, ns@),
            None => Seq::empty(),
        });
    }
    let script = match &i.script {
        Some(s) => text::split_once(s.as_str(), '/'),
        None => None,
    };
    if let Some((name, _)) = script {
        let uid = text_or_empty(&i.uid);
        if let Some(plugin) = find_map_uid(maps, &i.namespace, name.as_str()) {
            let found = restore(&i.checkpoint, i.checkpoint_length, class, uid.as_str(), plugin);
            if let Some(a) = found {
                if text::same(a.namespace.as_str(), ns.as_str()) && text::same(
                    a.name.as_str(),
                    i.name.as_str(),
                ) {
                    service_dependencies(&a.spec, a.namespace.as_str(), &mut w.services);
                }
            }
        }
        let ghost maps_before = w@.maps;
        let ghost names_before = w@.checkpoints;
        let checkpoint = checkpoint_name_text(class, uid.as_str());
        w.maps.push((ns, name));
        w.checkpoints.push(checkpoint);
        proof {
            assert(w@.maps =~= maps_before.push((ns@, name@)));
            assert(w@.checkpoints =~= names_before.push(checkpoint@));
        }
    }
}

// ---------------------------------------------------------------------------
// What is kept
// ---------------------------------------------------------------------------

/// Whether a name in a namespace is needed.
pub open spec fn wants(v: Seq<Key>, ns: Option<Seq<char>>, name: Seq<char>) -> bool {
    v.contains((or_empty(ns), name))
}

fn is_wanted(v: &Vec<(String, String)>, ns: &Option<String>, name: &str) -> (r: bool)
    ensures
        r == wants(text::pairs(v@), text::opt(*ns), name@),
{
    let space = text_or_empty(ns);
    let ghost all = text::pairs(v@);
    let ghost key = (space@, name@);
    let mut i: usize = 0;
    while i < v.len()
        invariant
            i <= v.len(),
            all == text::pairs(v@),
            key == (space@, name@),
            space@ == or_empty(text::opt(*ns)),
            forall|j: int| 0 <= j < i ==> all[j] != key,
        decreases v.len() - i,
    {
        assert(all[i as int] == (v@[i as int].0@, v@[i as int].1@));
        if text::same(v[i].0.as_str(), space.as_str()) && text::same(v[i].1.as_str(), name) {
            assert(all[i as int] == key);
            return true;
        }
        i += 1;
    }
    assert(!all.contains(key));
    false
}

/// Of an order, what is kept.
pub open spec fn picked(order: Seq<int>, keep: Seq<bool>) -> Seq<int>
    decreases order.len(),
{
    if order.len() == 0 {
        Seq::empty()
    } else if keep[order.last()] {
        picked(order.drop_last(), keep).push(order.last())
    } else {
        picked(order.drop_last(), keep)
    }
}

fn pick(order: &Vec<usize>, keep: &Vec<bool>) -> (out: Vec<usize>)
    requires
        forall|i: int| 0 <= i < order@.len() ==> #[trigger] order@[i] < keep@.len(),
    ensures
        indexes(out@) == picked(indexes(order@), keep@),
        forall|i: int| 0 <= i < out@.len() ==> #[trigger] out@[i] < keep@.len(),
{
    let ghost all = indexes(order@);
    let mut out: Vec<usize> = Vec::new();
    let mut i: usize = 0;
    assert(indexes(out@) =~= picked(all.take(0), keep@));
    while i < order.len()
        invariant
            i <= order.len(),
            all == indexes(order@),
            forall|i: int| 0 <= i < order@.len() ==> #[trigger] order@[i] < keep@.len(),
            forall|i: int| 0 <= i < out@.len() ==> #[trigger] out@[i] < keep@.len(),
            indexes(out@) == picked(all.take(i as int), keep@),
        decreases order.len() - i,
    {
        let ghost before = indexes(out@);
        let k = order[i];
        proof {
            assert(all.take(i + 1).drop_last() =~= all.take(i as int));
            assert(all.take(i + 1).last() == k as int);
        }
        if keep[k] {
            out.push(k);
            assert(indexes(out@) =~= before.push(k as int));
        }
        i += 1;
    }
    assert(all.take(i as int) =~= all);
    out
}

/// What is ordered by a namespace and a name.
pub open spec fn age_of(created: Option<i64>, ns: Option<String>, name: String, a: Age) -> bool {
    a.created == created && text::opt(a.namespace) == text::opt(ns) && a.name@ == name@
}

/// What orders Ingresses.
pub open spec fn ingress_ages(v: Seq<IngressObject>, w: Seq<Age>) -> bool {
    w.len() == v.len() && forall|i: int|
        0 <= i < v.len() ==> age_of(v[i].created, v[i].namespace, v[i].name, #[trigger] w[i])
}

/// What orders other objects.
pub open spec fn object_ages(v: Seq<Needed>, w: Seq<Age>) -> bool {
    w.len() == v.len() && forall|i: int|
        0 <= i < v.len() ==> age_of(None, v[i].namespace, v[i].name, #[trigger] w[i])
}

pub open spec fn slice_ages(v: Seq<SliceName>, w: Seq<Age>) -> bool {
    w.len() == v.len() && forall|i: int|
        0 <= i < v.len() ==> age_of(None, v[i].namespace, v[i].name, #[trigger] w[i])
}

pub open spec fn chosen_all(v: Seq<IngressObject>, class: Option<ClassObject>) -> Seq<bool> {
    Seq::new(v.len(), |i: int| chosen(v[i], class))
}

pub open spec fn wanted_all(v: Seq<Needed>, n: Seq<Key>) -> Seq<bool> {
    Seq::new(v.len(), |i: int| wants(n, text::opt(v[i].namespace), v[i].name@))
}

pub open spec fn wanted_slices(v: Seq<SliceName>, n: Seq<Key>) -> Seq<bool> {
    Seq::new(
        v.len(),
        |i: int|
            v[i].service is Some && wants(n, text::opt(v[i].namespace), v[i].service->0@),
    )
}

/// A config map is kept for a script, or as a checkpoint.
pub open spec fn wanted_maps(v: Seq<Needed>, n: Needs, publish: Seq<char>) -> Seq<bool> {
    Seq::new(
        v.len(),
        |i: int|
            wants(n.maps, text::opt(v[i].namespace), v[i].name@) || (text::opt(v[i].namespace)
                == Some(publish) && n.checkpoints.contains(v[i].name@)),
    )
}

/// What is kept, in the order in which it is taken: the places of the objects.
#[derive(Debug)]
pub struct Selection {
    pub ingresses: Vec<usize>,
    pub services: Vec<usize>,
    pub slices: Vec<usize>,
    pub secrets: Vec<usize>,
    pub maps: Vec<usize>,
}

/// Whether a selection is the one for a class.
pub open spec fn selection_of(r: Resources, class: Seq<char>, publish: Seq<char>, s: Selection) -> bool {
    let c = class_named(r.classes@, class);
    let n = needs(r.ingresses@, indexes(s.ingresses@), r.maps@, class);
    &&& exists|w: Seq<Age>| #[trigger]
        ingress_ages(r.ingresses@, w) && indexes(s.ingresses@) == picked(
            by_age(w, w.len() as int),
            chosen_all(r.ingresses@, c),
        )
    &&& exists|w: Seq<Age>| #[trigger]
        object_ages(r.services@, w) && indexes(s.services@) == picked(
            by_age(w, w.len() as int),
            wanted_all(r.services@, n.services),
        )
    &&& exists|w: Seq<Age>| #[trigger]
        slice_ages(r.slices@, w) && indexes(s.slices@) == picked(
            by_age(w, w.len() as int),
            wanted_slices(r.slices@, n.services),
        )
    &&& exists|w: Seq<Age>| #[trigger]
        object_ages(r.secrets@, w) && indexes(s.secrets@) == picked(
            by_age(w, w.len() as int),
            wanted_all(r.secrets@, n.secrets),
        )
    &&& exists|w: Seq<Age>| #[trigger]
        object_ages(r.maps@, w) && indexes(s.maps@) == picked(
            by_age(w, w.len() as int),
            wanted_maps(r.maps@, n, publish),
        )
}

fn copy_age(created: Option<i64>, ns: &Option<String>, name: &String) -> (a: Age)
    ensures
        age_of(created, *ns, *name, a),
{
    Age { created, namespace: crate::model::copy_opt(ns), name: name.clone() }
}

fn ages_of(v: &Vec<Needed>) -> (out: Vec<Age>)
    ensures
        object_ages(v@, out@),
{
    let mut out: Vec<Age> = Vec::new();
    let mut i: usize = 0;
    while i < v.len()
        invariant
            i <= v.len(),
            out@.len() == i,
            forall|j: int|
                0 <= j < i ==> age_of(None, v@[j].namespace, v@[j].name, #[trigger] out@[j]),
        decreases v.len() - i,
    {
        out.push(copy_age(None, &v[i].namespace, &v[i].name));
        i += 1;
    }
    out
}

fn keep_wanted(v: &Vec<Needed>, n: &Vec<(String, String)>) -> (out: Vec<bool>)
    ensures
        out@ == wanted_all(v@, text::pairs(n@)),
{
    let mut out: Vec<bool> = Vec::new();
    let mut i: usize = 0;
    while i < v.len()
        invariant
            i <= v.len(),
            out@ =~= wanted_all(v@, text::pairs(n@)).take(i as int),
        decreases v.len() - i,
    {
        out.push(is_wanted(n, &v[i].namespace, v[i].name.as_str()));
        i += 1;
    }
    out
}

fn keep_slices(v: &Vec<SliceName>, n: &Vec<(String, String)>) -> (r: (Vec<bool>, Vec<Age>))
    ensures
        r.0@ == wanted_slices(v@, text::pairs(n@)),
        slice_ages(v@, r.1@),
{
    let mut out: Vec<bool> = Vec::new();
    let mut ages: Vec<Age> = Vec::new();
    let mut i: usize = 0;
    while i < v.len()
        invariant
            i <= v.len(),
            out@ =~= wanted_slices(v@, text::pairs(n@)).take(i as int),
            ages@.len() == i,
            forall|j: int|
                0 <= j < i ==> age_of(None, v@[j].namespace, v@[j].name, #[trigger] ages@[j]),
        decreases v.len() - i,
    {
        let keep = match &v[i].service {
            Some(s) => is_wanted(n, &v[i].namespace, s.as_str()),
            None => false,
        };
        out.push(keep);
        ages.push(copy_age(None, &v[i].namespace, &v[i].name));
        i += 1;
    }
    (out, ages)
}

fn keep_maps(v: &Vec<Needed>, n: &Wanted, publish: &str) -> (out: Vec<bool>)
    ensures
        out@ == wanted_maps(v@, n@, publish@),
{
    let mut out: Vec<bool> = Vec::new();
    let mut i: usize = 0;
    while i < v.len()
        invariant
            i <= v.len(),
            out@ =~= wanted_maps(v@, n@, publish@).take(i as int),
        decreases v.len() - i,
    {
        let keep = is_wanted(&n.maps, &v[i].namespace, v[i].name.as_str()) || (is_named(
            &v[i].namespace,
            publish,
        ) && text::contains(&n.checkpoints, v[i].name.as_str()));
        out.push(keep);
        i += 1;
    }
    out
}

fn keep_ingresses(v: &Vec<IngressObject>, class: Option<&ClassObject>) -> (r: (
    Vec<bool>,
    Vec<Age>,
))
    ensures
        r.0@ == chosen_all(
            v@,
            match class {
                Some(c) => Some(*c),
                None => None,
            },
        ),
        ingress_ages(v@, r.1@),
{
    let ghost c: Option<ClassObject> = match class {
        Some(c) => Some(*c),
        None => None,
    };
    let mut out: Vec<bool> = Vec::new();
    let mut ages: Vec<Age> = Vec::new();
    let mut i: usize = 0;
    while i < v.len()
        invariant
            i <= v.len(),
            c == (match class {
                Some(c) => Some(*c),
                None => None,
            }),
            out@ =~= chosen_all(v@, c).take(i as int),
            ages@.len() == i,
            forall|j: int|
                0 <= j < i ==> age_of(v@[j].created, v@[j].namespace, v@[j].name, #[trigger] ages@[j]),
        decreases v.len() - i,
    {
        out.push(is_chosen(&v[i], class));
        ages.push(copy_age(v[i].created, &v[i].namespace, &v[i].name));
        i += 1;
    }
    (out, ages)
}

fn gather(v: &Vec<IngressObject>, order: &Vec<usize>, maps: &Vec<Needed>, class: &str) -> (w: Wanted)
    requires
        forall|i: int| 0 <= i < order@.len() ==> #[trigger] order@[i] < v@.len(),
    ensures
        w@ == needs(v@, indexes(order@), maps@, class@),
{
    let ghost all = indexes(order@);
    let mut w = Wanted {
        services: Vec::new(),
        secrets: Vec::new(),
        maps: Vec::new(),
        checkpoints: Vec::new(),
    };
    let mut i: usize = 0;
    assert(w@ =~= no_needs());
    while i < order.len()
        invariant
            i <= order.len(),
            all == indexes(order@),
            forall|i: int| 0 <= i < order@.len() ==> #[trigger] order@[i] < v@.len(),
            w@ == needs(v@, all.take(i as int), maps@, class@),
        decreases order.len() - i,
    {
        let k = order[i];
        proof {
            assert(all.take(i + 1).drop_last() =~= all.take(i as int));
            assert(all.take(i + 1).last() == k as int);
        }
        add_ingress(&mut w, &v[k], maps, class);
        i += 1;
    }
    assert(all.take(i as int) =~= all);
    w
}

impl Resources {
    /// What is kept for a class; checkpoints are in the namespace `publish`.
    pub fn prepare(&self, class: &str, publish: &str) -> (s: Selection)
        ensures
            selection_of(*self, class@, publish@, s),
            forall|i: int| 0 <= i < s.ingresses@.len() ==> #[trigger] s.ingresses@[i] < self.ingresses@.len(),
    {
        let c = find_named(&self.classes, class);
        let (keep, ages) = keep_ingresses(&self.ingresses, c);
        let ingresses = pick(&oldest_first(&ages), &keep);
        let w = gather(&self.ingresses, &ingresses, &self.maps, class);
        let service_ages = ages_of(&self.services);
        let services = pick(&oldest_first(&service_ages), &keep_wanted(&self.services, &w.services));
        let (keep_parts, slice_list) = keep_slices(&self.slices, &w.services);
        let slices = pick(&oldest_first(&slice_list), &keep_parts);
        let secret_ages = ages_of(&self.secrets);
        let secrets = pick(&oldest_first(&secret_ages), &keep_wanted(&self.secrets, &w.secrets));
        let map_ages = ages_of(&self.maps);
        let maps = pick(&oldest_first(&map_ages), &keep_maps(&self.maps, &w, publish));
        proof {
            assert(ingress_ages(self.ingresses@, ages@));
            assert(object_ages(self.services@, service_ages@));
            assert(slice_ages(self.slices@, slice_list@));
            assert(object_ages(self.secrets@, secret_ages@));
            assert(object_ages(self.maps@, map_ages@));
        }
        Selection { ingresses, services, slices, secrets, maps }
    }
}

// ---------------------------------------------------------------------------
// Laws
// ---------------------------------------------------------------------------

/// What a path of a rule leads to is needed.
pub proof fn law_routed_services_are_needed(s: Shape, ns: Seq<char>, rule: int, path: int, t: Target)
    requires
        0 <= rule < s.rules.len(),
        0 <= path < s.rules[rule].paths.len(),
        s.rules[rule].paths[path].service == Some(t),
    ensures
        services_of(s, ns).contains((ns, t.name)),
{
    lemma_rule_services(s.rules, ns, rule, path, t);
    let v = rule_services(s.rules, ns);
    let i = choose|i: int| 0 <= i < v.len() && v[i] == (ns, t.name);
    match s.default_backend {
        Some(Some(d)) => {
            assert(services_of(s, ns)[i + 1] == v[i]);
        },
        _ => {
            assert(services_of(s, ns)[i] == v[i]);
        },
    }
}

proof fn lemma_rule_services(v: Seq<HostRule>, ns: Seq<char>, rule: int, path: int, t: Target)
    requires
        0 <= rule < v.len(),
        0 <= path < v[rule].paths.len(),
        v[rule].paths[path].service == Some(t),
    ensures
        rule_services(v, ns).contains((ns, t.name)),
    decreases v.len(),
{
    let head = rule_services(v.drop_last(), ns);
    let tail = path_services(v.last().paths, ns);
    if rule < v.len() - 1 {
        lemma_rule_services(v.drop_last(), ns, rule, path, t);
        let i = choose|i: int| 0 <= i < head.len() && head[i] == (ns, t.name);
        assert((head + tail)[i] == head[i]);
    } else {
        lemma_path_services(v.last().paths, ns, path, t);
        let i = choose|i: int| 0 <= i < tail.len() && tail[i] == (ns, t.name);
        assert((head + tail)[head.len() + i] == tail[i]);
    }
}

proof fn lemma_path_services(v: Seq<PathRule>, ns: Seq<char>, path: int, t: Target)
    requires
        0 <= path < v.len(),
        v[path].service == Some(t),
    ensures
        path_services(v, ns).contains((ns, t.name)),
    decreases v.len(),
{
    let head = path_services(v.drop_last(), ns);
    if path < v.len() - 1 {
        lemma_path_services(v.drop_last(), ns, path, t);
        let i = choose|i: int| 0 <= i < head.len() && head[i] == (ns, t.name);
        assert(path_services(v, ns)[i] == head[i]);
    } else {
        assert(path_services(v, ns)[head.len() as int] == (ns, t.name));
    }
}

/// Ingresses of other classes, and those of a class that another controller serves, are left out.
pub proof fn law_foreign_ingresses_are_left_out(
    r: Resources,
    class: Seq<char>,
    publish: Seq<char>,
    s: Selection,
    k: int,
)
    requires
        selection_of(r, class, publish, s),
        0 <= k < s.ingresses@.len(),
    ensures
        0 <= s.ingresses@[k] < r.ingresses@.len(),
        chosen(r.ingresses@[s.ingresses@[k] as int], class_named(r.classes@, class)),
{
    let c = class_named(r.classes@, class);
    let w = choose|w: Seq<Age>| #[trigger]
        ingress_ages(r.ingresses@, w) && indexes(s.ingresses@) == picked(
            by_age(w, w.len() as int),
            chosen_all(r.ingresses@, c),
        );
    let order = by_age(w, w.len() as int);
    let i = s.ingresses@[k] as int;
    assert(indexes(s.ingresses@)[k] == i);
    assert(picked(order, chosen_all(r.ingresses@, c)).contains(i));
    lemma_picked(order, chosen_all(r.ingresses@, c), i);
    lemma_by_age(w, w.len() as int);
    let j = choose|j: int| 0 <= j < order.len() && order[j] == i;
    assert(0 <= order[j] < w.len());
}

proof fn lemma_picked(order: Seq<int>, keep: Seq<bool>, i: int)
    requires
        picked(order, keep).contains(i),
    ensures
        order.contains(i),
        keep[i],
    decreases order.len(),
{
    let w = picked(order.drop_last(), keep);
    let k = choose|k: int| 0 <= k < picked(order, keep).len() && picked(order, keep)[k] == i;
    if keep[order.last()] && k == w.len() {
        assert(order[order.len() - 1] == i);
    } else {
        assert(w[k] == i);
        lemma_picked(order.drop_last(), keep, i);
        let j = choose|j: int| 0 <= j < order.drop_last().len() && order.drop_last()[j] == i;
        assert(order[j] == i);
    }
}

proof fn lemma_by_age(v: Seq<Age>, n: int)
    requires
        0 <= n,
    ensures
        forall|i: int| 0 <= i < by_age(v, n).len() ==> 0 <= #[trigger] by_age(v, n)[i] < n,
    decreases n,
{
    if n > 0 {
        lemma_by_age(v, n - 1);
        lemma_aged(v, by_age(v, n - 1), n - 1, n);
    }
}

proof fn lemma_aged(v: Seq<Age>, order: Seq<int>, at: int, n: int)
    requires
        0 <= at < n,
        forall|i: int| 0 <= i < order.len() ==> 0 <= #[trigger] order[i] < n,
    ensures
        forall|i: int| 0 <= i < aged(v, order, at).len() ==> 0 <= #[trigger] aged(v, order, at)[i] < n,
    decreases order.len(),
{
    if order.len() > 0 {
        assert forall|i: int| 0 <= i < order.drop_last().len() implies 0
            <= #[trigger] order.drop_last()[i] < n by {
            assert(order.drop_last()[i] == order[i]);
        }
        lemma_aged(v, order.drop_last(), at, n);
        assert(0 <= order[order.len() - 1] < n);
        let w = aged(v, order.drop_last(), at);
        assert forall|i: int| 0 <= i < aged(v, order, at).len() implies 0 <= #[trigger] aged(
            v,
            order,
            at,
        )[i] < n by {
            if older(v[at], v[order.last()]) {
                if i < w.len() {
                    assert(aged(v, order, at)[i] == w[i]);
                }
            } else if i < order.len() {
                assert(aged(v, order, at)[i] == order[i]);
            }
        }
    }
}

/// An Ingress is chosen where the class is served by this controller and the Ingress names it, or names none
/// and the class is the default.
pub proof fn law_ingresses_are_chosen_by_class(i: IngressObject, c: ClassObject)
    requires
        i.spec is Some,
    ensures
        !chosen(i, None),
        text::opt(c.controller) != Some("rgnix.io/ingress-controller"@) ==> !chosen(i, Some(c)),
        text::opt(c.controller) == Some("rgnix.io/ingress-controller"@) && i.spec->0@.class_name == Some(c.name@)
            ==> chosen(i, Some(c)),
        i.spec->0@.class_name is Some && i.spec->0@.class_name->0 != c.name@ ==> !chosen(i, Some(c)),
        text::opt(c.controller) == Some("rgnix.io/ingress-controller"@) && i.spec->0@.class_name is None ==> (chosen(
            i,
            Some(c),
        ) <==> text::opt(c.default) == Some("true"@)),
{
}

/// The Service of the default backend is needed, and so are the Secrets of the certificates.
pub proof fn law_default_backends_and_secrets_are_needed(s: Shape, ns: Seq<char>, t: Target, k: int)
    ensures
        s.default_backend == Some(Some(t)) ==> services_of(s, ns).contains((ns, t.name)),
        0 <= k < s.tls.len() && s.tls[k].secret_name is Some ==> secrets_of(s.tls, ns).contains(
            (ns, s.tls[k].secret_name->0),
        ),
{
    if s.default_backend == Some(Some(t)) {
        assert(services_of(s, ns)[0] == (ns, t.name));
    }
    if 0 <= k < s.tls.len() && s.tls[k].secret_name is Some {
        lemma_secret_needed(s.tls, ns, k);
    }
}

proof fn lemma_secret_needed(v: Seq<TlsRule>, ns: Seq<char>, k: int)
    requires
        0 <= k < v.len(),
        v[k].secret_name is Some,
    ensures
        secrets_of(v, ns).contains((ns, v[k].secret_name->0)),
    decreases v.len(),
{
    let w = secrets_of(v, ns);
    if k == v.len() - 1 {
        assert(w[w.len() - 1] == (ns, v[k].secret_name->0));
    } else {
        let u = v.drop_last();
        lemma_secret_needed(u, ns, k);
        let j = choose|j: int| 0 <= j < secrets_of(u, ns).len() && secrets_of(u, ns)[j] == (ns, v[k].secret_name->0);
        assert(w[j] == (ns, v[k].secret_name->0));
    }
}

/// Of the Secrets that are needed, each is named by a certificate, in the namespace of the Ingress.
pub proof fn law_only_named_secrets_are_needed(v: Seq<TlsRule>, ns: Seq<char>, key: Key)
    requires
        secrets_of(v, ns).contains(key),
    ensures
        key.0 == ns,
        exists|k: int| 0 <= k < v.len() && (#[trigger] v[k]).secret_name == Some(key.1),
    decreases v.len(),
{
    let w = secrets_of(v, ns);
    let u = v.drop_last();
    let j = choose|j: int| 0 <= j < w.len() && w[j] == key;
    if j < secrets_of(u, ns).len() {
        assert(secrets_of(u, ns)[j] == key);
        law_only_named_secrets_are_needed(u, ns, key);
        let k = choose|k: int| 0 <= k < u.len() && (#[trigger] u[k]).secret_name == Some(key.1);
        assert(v[k].secret_name == Some(key.1));
    } else {
        assert(v[v.len() - 1].secret_name == Some(key.1));
    }
}

/// What an Ingress asks for, what was routed last and what its checkpoint holds is all needed, and what was
/// needed before stays so.
pub proof fn law_needs_of_an_ingress_are_added(n: Needs, i: IngressObject, maps: Seq<Needed>, class: Seq<char>, key: Key)
    ensures
        n.services.contains(key) ==> with_ingress(n, i, maps, class).services.contains(key),
        n.secrets.contains(key) ==> with_ingress(n, i, maps, class).secrets.contains(key),
        i.spec is Some && services_of(i.spec->0@, or_empty(text::opt(i.namespace))).contains(key) ==> with_ingress(
            n,
            i,
            maps,
            class,
        ).services.contains(key),
        i.routed is Some && services_of(i.routed->0@, or_empty(text::opt(i.namespace))).contains(key) ==> with_ingress(
            n,
            i,
            maps,
            class,
        ).services.contains(key),
        i.spec is Some && secrets_of(i.spec->0@.tls, or_empty(text::opt(i.namespace))).contains(key) ==> with_ingress(
            n,
            i,
            maps,
            class,
        ).secrets.contains(key),
{
    let ns = or_empty(text::opt(i.namespace));
    let w = with_ingress(n, i, maps, class);
    let a = routed_services(i.spec, ns);
    let b = routed_services(i.routed, ns);
    if n.services.contains(key) {
        let k = choose|k: int| 0 <= k < n.services.len() && n.services[k] == key;
        assert(w.services[k] == key);
    }
    if n.secrets.contains(key) {
        let k = choose|k: int| 0 <= k < n.secrets.len() && n.secrets[k] == key;
        assert(w.secrets[k] == key);
    }
    if a.contains(key) {
        let k = choose|k: int| 0 <= k < a.len() && a[k] == key;
        assert(w.services[n.services.len() + k] == key);
    }
    if b.contains(key) {
        let k = choose|k: int| 0 <= k < b.len() && b[k] == key;
        assert(w.services[n.services.len() + a.len() + k] == key);
    }
    if i.spec is Some && secrets_of(i.spec->0@.tls, ns).contains(key) {
        let c = secrets_of(i.spec->0@.tls, ns);
        let k = choose|k: int| 0 <= k < c.len() && c[k] == key;
        assert(w.secrets[n.secrets.len() + k] == key);
    }
}

/// An Ingress with a script needs the map that the script stands in, and its checkpoint.
pub proof fn law_scripts_are_needed(
    n: Needs,
    i: IngressObject,
    maps: Seq<Needed>,
    class: Seq<char>,
    name: Seq<char>,
    key: Seq<char>,
)
    requires
        !name.contains('/'),
        i.script is Some,
        i.script->0@ == name + seq!['/'] + key,
    ensures
        with_ingress(n, i, maps, class).maps == n.maps.push((or_empty(text::opt(i.namespace)), name)),
        with_ingress(n, i, maps, class).checkpoints == n.checkpoints.push(
            checkpoint_name(class, or_empty(text::opt(i.uid))),
        ),
{
    text::law_texts_are_split_once(name, '/', key);
}

/// Of the objects, those are wanted that an Ingress needs, in its own namespace; of the maps also the
/// checkpoints, in the namespace of the controller.
pub proof fn law_wanted_objects_are_needed(
    v: Seq<Needed>,
    w: Seq<SliceName>,
    n: Needs,
    publish: Seq<char>,
    ns: Seq<char>,
    i: int,
)
    ensures
        0 <= i < v.len() && text::opt(v[i].namespace) == Some(ns) ==> {
            &&& wanted_all(v, n.secrets)[i] <==> n.secrets.contains((ns, v[i].name@))
            &&& wanted_maps(v, n, publish)[i] <==> n.maps.contains((ns, v[i].name@)) || (ns == publish
                && n.checkpoints.contains(v[i].name@))
        },
        0 <= i < w.len() && text::opt(w[i].namespace) == Some(ns) ==> (wanted_slices(w, n.services)[i] <==> w[i].service
            is Some && n.services.contains((ns, w[i].service->0@))),
{
}

} // verus!

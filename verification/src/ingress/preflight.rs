//! Whether an Ingress that is not stored yet would do.
use crate::ingress::backends::is_named;
use crate::ingress::resources::{class_named, find_named, served, IngressObject};
use crate::ingress::routes::{class_at, find_class, of_class, selects, ClassObject};
use crate::ingress::spec::{same_opt, IngressSpec};
use crate::tenancy::{label, namespace_name};
use crate::text;
use vstd::prelude::*;

verus! {

#[derive(Clone, Copy, Debug, PartialEq, Eq, Structural)]
pub enum PreflightError {
    NotReady,
    NoNamespace,
    Unnamed,
    OutOfScope,
    NoSpec,
    NoClass,
    ForeignClass,
    OtherClass,
    Changed,
}

/// Whether a namespace is watched; where none is named, all are.
pub open spec fn watched(v: Seq<Seq<char>>, ns: Seq<char>) -> bool {
    v.len() == 0 || v.contains(ns)
}

fn is_watched(v: &Vec<String>, ns: &str) -> (r: bool)
    ensures
        r == watched(text::texts(v@), ns@),
{
    v.len() == 0 || text::contains(v, ns)
}

/// Whether an Ingress is one that this controller serves.
pub open spec fn managed_by(
    namespaces: Seq<Seq<char>>,
    classes: Seq<ClassObject>,
    class: Seq<char>,
    ns: Option<Seq<char>>,
    spec: Option<Option<Seq<char>>>,
) -> bool {
    &&& ns is Some ==> watched(namespaces, ns->0)
    &&& spec is Some
    &&& class_at(classes, class) is Some
    &&& of_class(class_at(classes, class)->0, spec->0)
}

pub open spec fn class_name(spec: Option<IngressSpec>) -> Option<Option<Seq<char>>> {
    match spec {
        Some(s) => Some(s@.class_name),
        None => None,
    }
}

/// Whether an Ingress is one that this controller serves; `namespaces` are those that it watches.
pub fn managed(
    namespaces: &Vec<String>,
    classes: &Vec<ClassObject>,
    class: &str,
    ns: &Option<String>,
    spec: &Option<IngressSpec>,
) -> (r: bool)
    ensures
        r == managed_by(
            text::texts(namespaces@),
            classes@,
            class@,
            text::opt(*ns),
            class_name(*spec),
        ),
{
    if let Some(n) = ns {
        if !is_watched(namespaces, n.as_str()) {
            return false;
        }
    }
    match (spec, find_class(classes, class)) {
        (Some(s), Some(c)) => selects(c, &s.class_name),
        _ => false,
    }
}

/// Whether an Ingress can be checked at all.
pub open spec fn checkable(
    namespaces: Seq<Seq<char>>,
    classes: Seq<ClassObject>,
    class: Seq<char>,
    ns: Option<Seq<char>>,
    name: Seq<char>,
    spec: Option<Option<Seq<char>>>,
) -> Result<(), PreflightError> {
    if ns is None {
        Err(PreflightError::NoNamespace)
    } else if !label(ns->0) || name.len() == 0 {
        Err(PreflightError::Unnamed)
    } else if !watched(namespaces, ns->0) {
        Err(PreflightError::OutOfScope)
    } else if spec is None {
        Err(PreflightError::NoSpec)
    } else {
        match class_named(classes, class) {
            None => Err(PreflightError::NoClass),
            Some(c) => if !served(c) {
                Err(PreflightError::ForeignClass)
            } else if !of_class(c, spec->0) {
                Err(PreflightError::OtherClass)
            } else {
                Ok(())
            },
        }
    }
}

/// Whether an Ingress can be checked at all.
pub fn check(
    namespaces: &Vec<String>,
    classes: &Vec<ClassObject>,
    class: &str,
    candidate: &IngressObject,
) -> (r: Result<(), PreflightError>)
    ensures
        r == checkable(
            text::texts(namespaces@),
            classes@,
            class@,
            text::opt(candidate.namespace),
            candidate.name@,
            class_name(candidate.spec),
        ),
{
    let ns = match &candidate.namespace {
        None => return Err(PreflightError::NoNamespace),
        Some(n) => n.as_str(),
    };
    if !namespace_name(ns) || candidate.name.as_str().is_empty() {
        return Err(PreflightError::Unnamed);
    }
    if !is_watched(namespaces, ns) {
        return Err(PreflightError::OutOfScope);
    }
    let spec = match &candidate.spec {
        None => return Err(PreflightError::NoSpec),
        Some(s) => s,
    };
    let c = match find_named(classes, class) {
        None => return Err(PreflightError::NoClass),
        Some(c) => c,
    };
    if !is_named(&c.controller, "rgnix.io/ingress-controller") {
        return Err(PreflightError::ForeignClass);
    }
    if !selects(c, &spec.class_name) {
        return Err(PreflightError::OtherClass);
    }
    Ok(())
}

/// Whether an Ingress is the one of a name in a namespace.
pub open spec fn at_name(i: IngressObject, ns: Option<Seq<char>>, name: Seq<char>) -> bool {
    text::opt(i.namespace) == ns && i.name@ == name
}

/// The first Ingress of a name in a namespace.
pub open spec fn previous(v: Seq<IngressObject>, ns: Option<Seq<char>>, name: Seq<char>) -> Option<int>
    decreases v.len(),
{
    if v.len() == 0 {
        None
    } else if at_name(v[0], ns, name) {
        Some(0)
    } else {
        match previous(v.drop_first(), ns, name) {
            Some(i) => Some(i + 1),
            None => None,
        }
    }
}

/// The identifier and the time of creation that an Ingress is checked with: those of the one that it takes
/// the place of, or else ones of its own.
pub open spec fn identity_of(
    v: Seq<IngressObject>,
    ns: Seq<char>,
    name: Seq<char>,
    now: i64,
) -> (Option<Seq<char>>, Option<i64>) {
    match previous(v, Some(ns), name) {
        Some(i) => (text::opt(v[i].uid), v[i].created),
        None => (Some("preflight-"@ + ns + "-"@ + name), Some(now)),
    }
}

/// The identifier and the time of creation that an Ingress is checked with.
pub fn identify(v: &Vec<IngressObject>, ns: &str, name: &str, now: i64) -> (r: (
    Option<String>,
    Option<i64>,
))
    ensures
        (text::opt(r.0), r.1) == identity_of(v@, ns@, name@, now),
{
    let mut i: usize = 0;
    assert(v@.skip(0) =~= v@);
    while i < v.len()
        invariant
            i <= v.len(),
            previous(v@, Some(ns@), name@) == match previous(v@.skip(i as int), Some(ns@), name@) {
                Some(k) => Some(k + i),
                None => None,
            },
        decreases v.len() - i,
    {
        assert(v@.skip(i as int).drop_first() =~= v@.skip(i + 1));
        assert(v@.skip(i as int)[0] == v@[i as int]);
        if is_named(&v[i].namespace, ns) && text::same(v[i].name.as_str(), name) {
            return (crate::model::copy_opt(&v[i].uid), v[i].created);
        }
        i += 1;
    }
    let head = text::concat3("preflight-", ns, "-");
    (Some(text::concat(head.as_str(), name)), Some(now))
}

/// The Ingresses among which one is checked: the others, and it.
pub open spec fn replaced(v: Seq<IngressObject>, candidate: IngressObject) -> Seq<IngressObject> {
    rest(v, text::opt(candidate.namespace), candidate.name@).push(candidate)
}

/// The Ingresses of other names.
pub open spec fn rest(v: Seq<IngressObject>, ns: Option<Seq<char>>, name: Seq<char>) -> Seq<
    IngressObject,
>
    decreases v.len(),
{
    if v.len() == 0 {
        Seq::empty()
    } else if at_name(v[0], ns, name) {
        rest(v.drop_first(), ns, name)
    } else {
        seq![v[0]] + rest(v.drop_first(), ns, name)
    }
}

/// Puts an Ingress in the place of the one of its name.
pub fn replace(v: &mut Vec<IngressObject>, candidate: IngressObject)
    ensures
        final(v)@ == replaced(old(v)@, candidate),
{
    let ghost all = v@;
    let ghost ns = text::opt(candidate.namespace);
    let ghost whole = rest(all, ns, candidate.name@);
    let mut i: usize = 0;
    assert(v@.take(0) + rest(v@.skip(0), ns, candidate.name@) =~= whole) by {
        assert(v@.skip(0) =~= v@);
    }
    while i < v.len()
        invariant
            i <= v.len(),
            ns == text::opt(candidate.namespace),
            v@.take(i as int) + rest(v@.skip(i as int), ns, candidate.name@) == whole,
        decreases v.len() - i,
    {
        let ghost now = v@;
        proof {
            assert(now.skip(i as int).drop_first() =~= now.skip(i + 1));
            assert(now.skip(i as int)[0] == now[i as int]);
        }
        if same_opt(&v[i].namespace, &candidate.namespace) && text::same(
            v[i].name.as_str(),
            candidate.name.as_str(),
        ) {
            v.remove(i);
            proof {
                assert(v@.take(i as int) =~= now.take(i as int));
                assert(v@.skip(i as int) =~= now.skip(i + 1));
            }
        } else {
            proof {
                assert(now.take(i + 1) + rest(now.skip(i + 1), ns, candidate.name@)
                    =~= now.take(i as int) + (seq![now[i as int]] + rest(
                    now.skip(i + 1),
                    ns,
                    candidate.name@,
                )));
            }
            i += 1;
        }
    }
    proof {
        assert(v@.skip(i as int) =~= Seq::empty());
        assert(v@.take(i as int) =~= v@);
        assert(v@ =~= whole);
    }
    v.push(candidate);
}

/// Whether what is wrong with an Ingress keeps it from being stored.
pub open spec fn only_warns(reason: Seq<char>) -> bool {
    reason == "UnavailableBackend"@ || reason == "TrafficRolledBack"@
}

pub fn is_warning(reason: &str) -> (r: bool)
    ensures
        r == only_warns(reason@),
{
    text::same(reason, "UnavailableBackend") || text::same(reason, "TrafficRolledBack")
}

/// Whether an Ingress would do: nothing keeps it from being stored.
pub open spec fn acceptable(v: Seq<Seq<char>>) -> bool {
    forall|i: int| 0 <= i < v.len() ==> only_warns(#[trigger] v[i])
}

/// Whether an Ingress would do, by the reasons of what is wrong with it.
pub fn is_acceptable(v: &Vec<String>) -> (r: bool)
    ensures
        r == acceptable(text::texts(v@)),
{
    let ghost all = text::texts(v@);
    let mut i: usize = 0;
    while i < v.len()
        invariant
            i <= v.len(),
            all == text::texts(v@),
            forall|j: int| 0 <= j < i ==> only_warns(#[trigger] all[j]),
        decreases v.len() - i,
    {
        assert(all[i as int] == v@[i as int]@);
        if !is_warning(v[i].as_str()) {
            return false;
        }
        i += 1;
    }
    true
}

/// Whether what an Ingress was checked against is still so.
pub fn check_unchanged(base: u64, version: u64, digest: &str, current: &str) -> (r: Result<
    (),
    PreflightError,
>)
    ensures
        r == if base == version && digest@ == current@ {
            Ok::<(), PreflightError>(())
        } else {
            Err(PreflightError::Changed)
        },
{
    if base == version && text::same(digest, current) {
        Ok(())
    } else {
        Err(PreflightError::Changed)
    }
}

// ---------------------------------------------------------------------------
// Laws
// ---------------------------------------------------------------------------

/// What can be checked is what this controller serves.
pub proof fn law_checked_ingresses_are_managed(
    namespaces: Seq<Seq<char>>,
    classes: Seq<ClassObject>,
    class: Seq<char>,
    ns: Option<Seq<char>>,
    name: Seq<char>,
    spec: Option<Option<Seq<char>>>,
)
    requires
        checkable(namespaces, classes, class, ns, name, spec) is Ok,
    ensures
        managed_by(namespaces, classes, class, ns, spec),
{
    lemma_class(classes, class);
}

proof fn lemma_class(v: Seq<ClassObject>, name: Seq<char>)
    ensures
        class_named(v, name) is Some && served(class_named(v, name)->0) ==> class_at(v, name)
            == class_named(v, name),
    decreases v.len(),
{
    if v.len() > 0 {
        lemma_class(v.drop_first(), name);
    }
}

/// An Ingress is checked among the others once: it is there, and nothing else of its name.
pub proof fn law_candidates_are_alone(v: Seq<IngressObject>, candidate: IngressObject, i: int)
    requires
        0 <= i < replaced(v, candidate).len(),
        at_name(replaced(v, candidate)[i], text::opt(candidate.namespace), candidate.name@),
    ensures
        i == replaced(v, candidate).len() - 1,
        replaced(v, candidate)[i] == candidate,
{
    lemma_rest(v, text::opt(candidate.namespace), candidate.name@);
}

proof fn lemma_rest(v: Seq<IngressObject>, ns: Option<Seq<char>>, name: Seq<char>)
    ensures
        forall|i: int|
            0 <= i < rest(v, ns, name).len() ==> !at_name(#[trigger] rest(v, ns, name)[i], ns, name),
    decreases v.len(),
{
    if v.len() > 0 {
        lemma_rest(v.drop_first(), ns, name);
        let w = rest(v.drop_first(), ns, name);
        assert forall|i: int| 0 <= i < rest(v, ns, name).len() implies !at_name(
            #[trigger] rest(v, ns, name)[i],
            ns,
            name,
        ) by {
            if at_name(v[0], ns, name) {
                assert(rest(v, ns, name)[i] == w[i]);
            } else if i > 0 {
                assert(rest(v, ns, name)[i] == w[i - 1]);
            }
        }
    }
}

/// An Ingress is checked where it has a namespace that is watched, a name, rules, and the class of the
/// controller; what is missing first is what is told.
pub proof fn law_checks_name_what_is_missing(
    namespaces: Seq<Seq<char>>,
    classes: Seq<ClassObject>,
    class: Seq<char>,
    ns: Option<Seq<char>>,
    name: Seq<char>,
    spec: Option<Option<Seq<char>>>,
)
    ensures
        ns is None ==> checkable(namespaces, classes, class, ns, name, spec) == Err::<(), PreflightError>(
            PreflightError::NoNamespace,
        ),
        ns is Some && label(ns->0) && name.len() == 0 ==> checkable(namespaces, classes, class, ns, name, spec) == Err::<
            (),
            PreflightError,
        >(PreflightError::Unnamed),
        ns is Some && label(ns->0) && name.len() > 0 && namespaces.len() > 0 && !namespaces.contains(ns->0)
            ==> checkable(namespaces, classes, class, ns, name, spec) == Err::<(), PreflightError>(
            PreflightError::OutOfScope,
        ),
        ns is Some && label(ns->0) && name.len() > 0 && (namespaces.len() == 0 || namespaces.contains(ns->0)) && spec
            is None ==> checkable(namespaces, classes, class, ns, name, spec) == Err::<(), PreflightError>(
            PreflightError::NoSpec,
        ),
        checkable(namespaces, classes, class, ns, name, spec) is Ok ==> exists|i: int|
            {
                &&& 0 <= i < classes.len()
                &&& (#[trigger] classes[i]).name@ == class
                &&& text::opt(classes[i].controller) == Some("rgnix.io/ingress-controller"@)
                &&& spec->0 is Some ==> (spec->0)->0 == class
                &&& spec->0 is None ==> text::opt(classes[i].default) == Some("true"@)
            },
{
    lemma_class_named(classes, class);
}

proof fn lemma_class_named(v: Seq<ClassObject>, name: Seq<char>)
    ensures
        class_named(v, name) is Some ==> exists|i: int|
            0 <= i < v.len() && #[trigger] v[i] == class_named(v, name)->0 && v[i].name@ == name,
    decreases v.len(),
{
    if v.len() > 0 {
        if v[0].name@ == name {
            assert(v[0] == class_named(v, name)->0);
        } else {
            let r = v.drop_first();
            lemma_class_named(r, name);
            if class_named(r, name) is Some {
                let i = choose|i: int|
                    0 <= i < r.len() && #[trigger] r[i] == class_named(r, name)->0 && r[i].name@ == name;
                assert(v[i + 1] == r[i]);
            }
        }
    }
}

/// Only a backend that is not available and traffic that was rolled back are warnings; any other reason
/// refuses.
pub proof fn law_other_reasons_refuse(v: Seq<Seq<char>>, k: int)
    requires
        0 <= k < v.len(),
    ensures
        v[k] != "UnavailableBackend"@ && v[k] != "TrafficRolledBack"@ ==> !acceptable(v),
        (forall|i: int|
            0 <= i < v.len() ==> #[trigger] v[i] == "UnavailableBackend"@ || v[i] == "TrafficRolledBack"@)
            ==> acceptable(v),
        acceptable(Seq::empty()),
{
    if v[k] != "UnavailableBackend"@ && v[k] != "TrafficRolledBack"@ {
        assert(!only_warns(v[k]));
    }
}

/// A candidate takes the place of the Ingress of its namespace and name; every other stays.
pub proof fn law_other_ingresses_stay(v: Seq<IngressObject>, candidate: IngressObject, o: IngressObject)
    ensures
        replaced(v, candidate).last() == candidate,
        !(text::opt(o.namespace) == text::opt(candidate.namespace) && o.name@ == candidate.name@) && v.contains(o)
            ==> replaced(v, candidate).contains(o),
{
    let r = rest(v, text::opt(candidate.namespace), candidate.name@);
    let w = replaced(v, candidate);
    if !at_name(o, text::opt(candidate.namespace), candidate.name@) && v.contains(o) {
        lemma_rest_keeps(v, text::opt(candidate.namespace), candidate.name@, o);
        let k = choose|k: int| 0 <= k < r.len() && r[k] == o;
        assert(w[k] == o);
    }
}

proof fn lemma_rest_keeps(v: Seq<IngressObject>, ns: Option<Seq<char>>, name: Seq<char>, o: IngressObject)
    requires
        v.contains(o),
        !at_name(o, ns, name),
    ensures
        rest(v, ns, name).contains(o),
    decreases v.len(),
{
    let k = choose|k: int| 0 <= k < v.len() && v[k] == o;
    let d = v.drop_first();
    let w = rest(v, ns, name);
    if k == 0 {
        assert(w[0] == o);
    } else {
        assert(d[k - 1] == o);
        lemma_rest_keeps(d, ns, name, o);
        let r = rest(d, ns, name);
        let j = choose|j: int| 0 <= j < r.len() && r[j] == o;
        if at_name(v[0], ns, name) {
            assert(w[j] == o);
        } else {
            assert(w[j + 1] == o);
        }
    }
}

/// A candidate has the identity of the Ingress that it replaces, and a made-up one where there is none.
pub proof fn law_candidates_take_an_identity(v: Seq<IngressObject>, ns: Seq<char>, name: Seq<char>, now: i64, k: int)
    requires
        0 <= k <= v.len(),
        forall|i: int|
            0 <= i < k ==> !(text::opt((#[trigger] v[i]).namespace) == Some(ns) && v[i].name@ == name),
        k < v.len() ==> text::opt(v[k].namespace) == Some(ns) && v[k].name@ == name,
    ensures
        k < v.len() ==> identity_of(v, ns, name, now) == (text::opt(v[k].uid), v[k].created),
        k == v.len() ==> identity_of(v, ns, name, now) == (Some("preflight-"@ + ns + "-"@ + name), Some(now)),
{
    lemma_previous(v, Some(ns), name, k);
}

proof fn lemma_previous(v: Seq<IngressObject>, ns: Option<Seq<char>>, name: Seq<char>, k: int)
    requires
        0 <= k <= v.len(),
        forall|i: int| 0 <= i < k ==> !at_name(#[trigger] v[i], ns, name),
        k < v.len() ==> at_name(v[k], ns, name),
    ensures
        k < v.len() ==> previous(v, ns, name) == Some(k),
        k == v.len() ==> previous(v, ns, name) is None,
    decreases v.len(),
{
    if k > 0 {
        assert(!at_name(v[0], ns, name));
        let d = v.drop_first();
        assert forall|i: int| 0 <= i < k - 1 implies !at_name(#[trigger] d[i], ns, name) by {
            assert(d[i] == v[i + 1]);
        }
        lemma_previous(d, ns, name, k - 1);
    }
}

} // verus!

//! Whether a gateway or a route that is not stored yet would do.
use crate::gateway::attachment::{parent_targets, targets};
use crate::gateway::references::{find_place, place, Object};
use crate::gateway::spec::Reference;
use crate::gateway::status::Served;
use crate::ingress::preflight::watched;
use crate::json::{lemma_at, lemma_tree, member_trees, trees, Json, Tree};
use crate::model::copy_opt;
use crate::tenancy::{label, namespace_name};
use crate::text;
use vstd::prelude::*;

verus! {

#[derive(Clone, Copy, Debug, PartialEq, Eq, Structural)]
pub enum PreflightError {
    NoType,
    WrongType,
    NoNamespace,
    NotManaged,
    Unnamed,
    Unreported,
    Changed,
}

/// Whether an object is one that can be checked.
pub open spec fn kind_checked(version: Option<Seq<char>>, kind: Seq<char>) -> Result<
    (),
    PreflightError,
> {
    match version {
        None => Err(PreflightError::NoType),
        Some(v) => if v == "gateway.networking.k8s.io/v1"@ && (kind == "Gateway"@ || kind
            == "HTTPRoute"@ || kind == "GRPCRoute"@) {
            Ok(())
        } else {
            Err(PreflightError::WrongType)
        },
    }
}

/// Whether an object is one that can be checked, by its version and kind.
pub fn check_kind(version: &Option<String>, kind: &str) -> (r: Result<(), PreflightError>)
    ensures
        r == kind_checked(text::opt(*version), kind@),
{
    match version {
        None => Err(PreflightError::NoType),
        Some(v) => if text::same(v.as_str(), "gateway.networking.k8s.io/v1") && (text::same(
            kind,
            "Gateway",
        ) || text::same(kind, "HTTPRoute") || text::same(kind, "GRPCRoute")) {
            Ok(())
        } else {
            Err(PreflightError::WrongType)
        },
    }
}

pub open spec fn any_target(v: Seq<Reference>, ns: Seq<char>, s: Served) -> bool {
    exists|i: int| 0 <= i < v.len() && targets(#[trigger] v[i], ns, s)
}

fn has_target(v: &Vec<Reference>, ns: &str, s: &Served) -> (r: bool)
    ensures
        r == any_target(v@, ns@, *s),
{
    let mut i: usize = 0;
    while i < v.len()
        invariant
            i <= v.len(),
            forall|j: int| 0 <= j < i ==> !targets(#[trigger] v@[j], ns@, *s),
        decreases v.len() - i,
    {
        if parent_targets(&v[i], ns, s) {
            assert(targets(v@[i as int], ns@, *s));
            return true;
        }
        i += 1;
    }
    false
}

/// Whether an object is the gateway that is served, or a route for it in a namespace that is watched.
pub open spec fn managed_by(
    kind: Seq<char>,
    ns: Seq<char>,
    name: Seq<char>,
    parents: Seq<Reference>,
    namespaces: Seq<Seq<char>>,
    s: Served,
) -> bool {
    if kind == "Gateway"@ {
        ns == s.namespace@ && name == s.name@
    } else {
        watched(namespaces, ns) && any_target(parents, ns, s)
    }
}

/// Whether an object is the gateway that is served, or a route for it in a namespace that is watched.
pub fn managed(
    kind: &str,
    ns: &Option<String>,
    name: &str,
    parents: &Vec<Reference>,
    namespaces: &Vec<String>,
    s: &Served,
) -> (r: Result<bool, PreflightError>)
    ensures
        r == match text::opt(*ns) {
            None => Err::<bool, PreflightError>(PreflightError::NoNamespace),
            Some(n) => Ok(
                managed_by(kind@, n, name@, parents@, text::texts(namespaces@), *s),
            ),
        },
{
    let n = match ns {
        None => return Err(PreflightError::NoNamespace),
        Some(n) => n.as_str(),
    };
    if text::same(kind, "Gateway") {
        return Ok(text::same(n, s.namespace.as_str()) && text::same(name, s.name.as_str()));
    }
    assert(text::texts(namespaces@).len() == namespaces@.len());
    if namespaces.len() > 0 && !text::contains(namespaces, n) {
        return Ok(false);
    }
    Ok(has_target(parents, n, s))
}

/// Whether an object has a namespace and a name.
pub fn check_name(ns: &str, name: &str) -> (r: Result<(), PreflightError>)
    ensures
        r == if label(ns@) && name@.len() > 0 {
            Ok::<(), PreflightError>(())
        } else {
            Err(PreflightError::Unnamed)
        },
{
    if namespace_name(ns) && !name.is_empty() {
        Ok(())
    } else {
        Err(PreflightError::Unnamed)
    }
}

/// The identifier and the time of creation that an object is checked with: those of the one that it takes
/// the place of, or else ones of its own.
pub open spec fn identity_of(v: Seq<Object>, kind: Seq<char>, ns: Seq<char>, name: Seq<char>, now: i64) -> (
    Option<Seq<char>>,
    Option<i64>,
) {
    match place(v, ns, name) {
        Some(i) => (text::opt(v[i].uid), v[i].created),
        None => (Some("preflight-"@ + ns + "-"@ + kind + "-"@ + name), Some(now)),
    }
}

/// The identifier and the time of creation that an object is checked with.
pub fn identify(v: &Vec<Object>, kind: &str, ns: &str, name: &str, now: i64) -> (r: (
    Option<String>,
    Option<i64>,
))
    ensures
        (text::opt(r.0), r.1) == identity_of(v@, kind@, ns@, name@, now),
{
    match find_place(v, ns, name) {
        Some(i) => (copy_opt(&v[i].uid), v[i].created),
        None => {
            let a = text::concat3("preflight-", ns, "-");
            let b = text::concat3(a.as_str(), kind, "-");
            (Some(text::concat(b.as_str(), name)), Some(now))
        },
    }
}

// ---------------------------------------------------------------------------
// What is wrong
// ---------------------------------------------------------------------------

/// What is wrong, as a condition says it.
#[derive(Debug)]
pub struct Fault {
    pub condition: Json,
    pub reason: Json,
    pub message: Json,
}

/// What a `Fault` holds.
#[verifier::ext_equal]
pub ghost struct Flaw {
    pub condition: Tree,
    pub reason: Tree,
    pub message: Tree,
}

impl View for Fault {
    type V = Flaw;

    open spec fn view(&self) -> Flaw {
        Flaw {
            condition: self.condition.tree(),
            reason: self.reason.tree(),
            message: self.message.tree(),
        }
    }
}

pub open spec fn flaws(v: Seq<Fault>) -> Seq<Flaw> {
    Seq::new(v.len(), |i: int| v[i]@)
}

/// Everything that a status says is wrong.
pub open spec fn flaws_of(t: Tree) -> Seq<Flaw>
    decreases t, 0nat,
{
    match t {
        Tree::Object(v) => (if t.at("status"@) == Tree::Text("False"@) {
            seq![
                Flaw {
                    condition: t.at("type"@),
                    reason: t.at("reason"@),
                    message: t.at("message"@),
                },
            ]
        } else {
            Seq::empty()
        }) + member_flaws(v),
        Tree::List(v) => list_flaws(v),
        _ => Seq::empty(),
    }
}

pub open spec fn member_flaws(v: Seq<(Seq<char>, Tree)>) -> Seq<Flaw>
    decreases v, 1nat,
{
    if v.len() == 0 {
        Seq::empty()
    } else {
        flaws_of(v[0].1) + member_flaws(v.drop_first())
    }
}

pub open spec fn list_flaws(v: Seq<Tree>) -> Seq<Flaw>
    decreases v, 1nat,
{
    if v.len() == 0 {
        Seq::empty()
    } else {
        flaws_of(v[0]) + list_flaws(v.drop_first())
    }
}

fn collect_members(v: &Vec<(String, Json)>, out: &mut Vec<Fault>)
    ensures
        flaws(final(out)@) == flaws(old(out)@) + member_flaws(member_trees(v@)),
    decreases v@, 1nat,
{
    let ghost all = member_trees(v@);
    let ghost whole = flaws(out@) + member_flaws(all);
    let mut i: usize = 0;
    assert(all.skip(0) =~= all);
    while i < v.len()
        invariant
            i <= v.len(),
            all == member_trees(v@),
            flaws(out@) + member_flaws(all.skip(i as int)) == whole,
        decreases v.len() - i,
    {
        let ghost before = flaws(out@);
        proof {
            assert(all.skip(i as int).drop_first() =~= all.skip(i + 1));
            assert(all.skip(i as int)[0] == (v@[i as int].0@, v@[i as int].1.tree()));
            assert(decreases_to!(v@ => v@[i as int]));
            assert(decreases_to!(v@[i as int] => v@[i as int].1));
        }
        collect_errors(&v[i].1, out);
        proof {
            let a = flaws_of(v@[i as int].1.tree());
            let b = member_flaws(all.skip(i + 1));
            assert(before + a + b =~= before + (a + b));
        }
        i += 1;
    }
    assert(all.skip(i as int) =~= Seq::empty());
    assert(flaws(out@) + Seq::<Flaw>::empty() =~= flaws(out@));
}

fn collect_list(v: &Vec<Json>, out: &mut Vec<Fault>)
    ensures
        flaws(final(out)@) == flaws(old(out)@) + list_flaws(trees(v@)),
    decreases v@, 1nat,
{
    let ghost all = trees(v@);
    let ghost whole = flaws(out@) + list_flaws(all);
    let mut i: usize = 0;
    assert(all.skip(0) =~= all);
    while i < v.len()
        invariant
            i <= v.len(),
            all == trees(v@),
            flaws(out@) + list_flaws(all.skip(i as int)) == whole,
        decreases v.len() - i,
    {
        let ghost before = flaws(out@);
        proof {
            assert(all.skip(i as int).drop_first() =~= all.skip(i + 1));
            assert(all.skip(i as int)[0] == v@[i as int].tree());
            assert(decreases_to!(v@ => v@[i as int]));
        }
        collect_errors(&v[i], out);
        proof {
            let a = flaws_of(v@[i as int].tree());
            let b = list_flaws(all.skip(i + 1));
            assert(before + a + b =~= before + (a + b));
        }
        i += 1;
    }
    assert(all.skip(i as int) =~= Seq::empty());
    assert(flaws(out@) + Seq::<Flaw>::empty() =~= flaws(out@));
}

/// Collects everything that a status says is wrong.
pub fn collect_errors(j: &Json, out: &mut Vec<Fault>)
    ensures
        flaws(final(out)@) == flaws(old(out)@) + flaws_of(j.tree()),
    decreases *j, 0nat,
{
    let ghost start = flaws(out@);
    proof {
        lemma_tree(*j);
        lemma_at(*j, "status"@);
        lemma_at(*j, "type"@);
        lemma_at(*j, "reason"@);
        lemma_at(*j, "message"@);
        lemma_tree(j.at("status"@));
    }
    match j {
        Json::Object(v) => {
            proof {
                assert(decreases_to!(*j => v@));
            }
            let wrong = match j.get_str("status") {
                Some(s) => text::same(s, "False"),
                None => false,
            };
            let ghost mut head: Seq<Flaw> = Seq::empty();
            if wrong {
                let f = Fault {
                    condition: j.field("type").copy(),
                    reason: j.field("reason").copy(),
                    message: j.field("message").copy(),
                };
                let ghost x = f@;
                out.push(f);
                proof {
                    head = seq![x];
                    assert(flaws(out@) =~= start + head);
                }
            } else {
                assert(flaws(out@) =~= start + head);
            }
            collect_members(v, out);
            proof {
                let tail = member_flaws(member_trees(v@));
                assert(start + head + tail =~= start + (head + tail));
            }
        },
        Json::List(v) => {
            proof {
                assert(decreases_to!(*j => v@));
            }
            collect_list(v, out);
        },
        _ => {
            assert(flaws(out@) =~= start + Seq::<Flaw>::empty());
        },
    }
}

/// Whether a check counts: the object was reported on, and what it was checked against is still so.
pub fn conclude(reported: bool, base: u64, version: u64, digest: &str, current: &str) -> (r: Result<
    (),
    PreflightError,
>)
    ensures
        r == if !reported {
            Err::<(), PreflightError>(PreflightError::Unreported)
        } else if base != version || digest@ != current@ {
            Err(PreflightError::Changed)
        } else {
            Ok(())
        },
{
    if !reported {
        return Err(PreflightError::Unreported);
    }
    if base != version || !text::same(digest, current) {
        return Err(PreflightError::Changed);
    }
    Ok(())
}

// ---------------------------------------------------------------------------
// Laws
// ---------------------------------------------------------------------------

/// A condition that does not hold is found, wherever it is in a list of a status.
pub proof fn law_failed_conditions_are_found(v: Seq<Tree>, i: int)
    requires
        0 <= i < v.len(),
        v[i] is Object,
        v[i].at("status"@) == Tree::Text("False"@),
    ensures
        list_flaws(v).len() > 0,
    decreases v.len(),
{
    if i > 0 {
        assert(v.drop_first()[i - 1] == v[i]);
        law_failed_conditions_are_found(v.drop_first(), i - 1);
    } else {
        assert(flaws_of(v[0]).len() > 0);
    }
}

/// Only Gateways and the two kinds of routes, of the version that is served, are checked.
pub proof fn law_only_served_kinds_are_checked(version: Option<Seq<char>>, kind: Seq<char>)
    ensures
        kind_checked(version, kind) is Ok <==> version == Some("gateway.networking.k8s.io/v1"@) && (kind == "Gateway"@
            || kind == "HTTPRoute"@ || kind == "GRPCRoute"@),
        version is None ==> kind_checked(version, kind) == Err::<(), PreflightError>(PreflightError::NoType),
        version is Some && kind_checked(version, kind) is Err ==> kind_checked(version, kind) == Err::<
            (),
            PreflightError,
        >(PreflightError::WrongType),
{
}

/// A Gateway is managed where it is the one that is served; a route, where its namespace is watched and one
/// of its parents is that Gateway.
pub proof fn law_managed_objects_are_those_of_the_gateway(
    kind: Seq<char>,
    ns: Seq<char>,
    name: Seq<char>,
    parents: Seq<Reference>,
    namespaces: Seq<Seq<char>>,
    s: Served,
    i: int,
)
    ensures
        kind == "Gateway"@ ==> (managed_by(kind, ns, name, parents, namespaces, s) <==> ns == s.namespace@ && name
            == s.name@),
        kind != "Gateway"@ && namespaces.len() > 0 && !namespaces.contains(ns) ==> !managed_by(
            kind,
            ns,
            name,
            parents,
            namespaces,
            s,
        ),
        kind != "Gateway"@ && (namespaces.len() == 0 || namespaces.contains(ns)) && 0 <= i < parents.len() && targets(
            parents[i],
            ns,
            s,
        ) ==> managed_by(kind, ns, name, parents, namespaces, s),
        kind != "Gateway"@ && (forall|k: int| 0 <= k < parents.len() ==> !targets(#[trigger] parents[k], ns, s))
            ==> !managed_by(kind, ns, name, parents, namespaces, s),
{
}

/// A condition that fails is found with its type, its reason and its message.
pub proof fn law_failed_conditions_are_told(t: Tree, v: Seq<Tree>, i: int)
    requires
        t is Object,
        t.at("status"@) == Tree::Text("False"@),
    ensures
        flaws_of(t).len() > 0,
        flaws_of(t)[0].condition == t.at("type"@),
        flaws_of(t)[0].reason == t.at("reason"@),
        flaws_of(t)[0].message == t.at("message"@),
        0 <= i < v.len() && v[i] == t ==> flaws_of(Tree::List(v)).contains(flaws_of(t)[0]),
{
    if 0 <= i < v.len() && v[i] == t {
        lemma_flaw_listed(v, i, 0);
    }
}

proof fn lemma_flaw_listed(v: Seq<Tree>, i: int, k: int)
    requires
        0 <= i < v.len(),
        0 <= k < flaws_of(v[i]).len(),
    ensures
        list_flaws(v).contains(flaws_of(v[i])[k]),
    decreases v.len(),
{
    let w = list_flaws(v);
    if i == 0 {
        assert(w[k] == flaws_of(v[0])[k]);
    } else {
        let r = v.drop_first();
        assert(r[i - 1] == v[i]);
        lemma_flaw_listed(r, i - 1, k);
        let j = choose|j: int| 0 <= j < list_flaws(r).len() && list_flaws(r)[j] == flaws_of(v[i])[k];
        assert(w[flaws_of(v[0]).len() + j] == flaws_of(v[i])[k]);
    }
}

} // verus!

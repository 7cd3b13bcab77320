//! What is served of a route: the backends of its rules, and its entries in the routing table.
use crate::backend::{Access, Approach, Setup, Shape};
use crate::gateway::attachment::{
    attach, bind, parent_targets, places, rule_links, targets, Bound, Links, RefError,
};
use crate::gateway::entries::rule_backends;
use crate::gateway::placing::{
    actives, filled, ruled, sound_rules, Chart, Placing, RoutePlan, Ruling, Word,
};
use crate::gateway::reach::{all_reached, reach_rule, shapes, Asker, Cluster};
use crate::gateway::references::Resources;
use crate::gateway::spec::{Reference, Rule};
use crate::gateway::status::Served;
use crate::text;
use vstd::prelude::*;

verus! {

// ---------------------------------------------------------------------------
// The backends of a route
// ---------------------------------------------------------------------------

/// What a policy on traffic names, and whether what is on record of its rollout can be read.
#[derive(Debug)]
pub struct Traffic {
    pub services: Vec<String>,
    pub readable: bool,
}

/// Whether a policy on traffic can be carried out with the backends of a rule.
pub open spec fn carried_out(t: Traffic, l: Links) -> bool {
    t.readable && forall|i: int|
        0 <= i < t.services@.len() ==> text::lookup(l.bindings, (#[trigger] t.services@[i])@) is Some
}

fn is_carried_out(t: &Traffic, l: &Bound) -> (r: bool)
    ensures
        r == carried_out(*t, l@),
{
    if !t.readable {
        return false;
    }
    let mut i: usize = 0;
    while i < t.services.len()
        invariant
            i <= t.services.len(),
            forall|j: int|
                0 <= j < i ==> text::lookup(l@.bindings, (#[trigger] t.services@[j])@) is Some,
        decreases t.services.len() - i,
    {
        if text::find(&l.bindings, t.services[i].as_str()).is_none() {
            assert(text::lookup(l@.bindings, t.services@[i as int]@) is None);
            return false;
        }
        i += 1;
    }
    true
}

/// What the backends of a rule amount to; where its policy on traffic cannot be carried out, nothing can be
/// reached.
pub open spec fn bound_of(r: Rule, outcomes: Seq<Option<RefError>>, a: Asker, traffic: Option<Traffic>) -> Links {
    let l = rule_links(r, outcomes, a.uid, a.ns, traffic is Some);
    if traffic is Some && !carried_out(traffic->0, l) {
        Links {
            weights: seq![(None, 1u32)],
            bindings: Seq::empty(),
            problem: Some(RefError::NotFound),
            ..l
        }
    } else {
        l
    }
}

/// The backends that are reached of the first rules of a route, and what they amount to for each rule.
pub open spec fn rules_bound(
    before: Seq<(Seq<char>, Shape)>,
    c: Cluster,
    v: Seq<Rule>,
    a: Asker,
    x: Approach,
    traffic: Option<Traffic>,
) -> (Seq<(Seq<char>, Shape)>, Seq<Links>)
    decreases v.len(),
{
    if v.len() == 0 {
        (before, Seq::empty())
    } else {
        let (known, links) = rules_bound(before, c, v.drop_last(), a, x, traffic);
        let r = v.last();
        let (known, outcomes) = all_reached(
            known,
            c,
            rule_backends(r),
            r.backend_refs@.len(),
            a,
            x,
            traffic is Some,
        );
        (known, links.push(bound_of(r, outcomes, a, traffic)))
    }
}

pub open spec fn all_links(v: Seq<Bound>) -> Seq<Links> {
    Seq::new(v.len(), |i: int| v[i]@)
}

/// What is wrong with the backends of a route: the last of what is wrong with those of its rules.
pub open spec fn problem_of(v: Seq<Links>) -> Option<RefError>
    decreases v.len(),
{
    if v.len() == 0 {
        None
    } else if v.last().problem is Some {
        v.last().problem
    } else {
        problem_of(v.drop_last())
    }
}

fn find_problem(v: &Vec<Bound>) -> (r: Option<RefError>)
    ensures
        r == problem_of(all_links(v@)),
{
    let ghost all = all_links(v@);
    let mut r: Option<RefError> = None;
    let mut i: usize = 0;
    assert(all.take(0) =~= Seq::empty());
    while i < v.len()
        invariant
            i <= v.len(),
            all == all_links(v@),
            r == problem_of(all.take(i as int)),
        decreases v.len() - i,
    {
        proof {
            assert(all.take(i + 1).drop_last() =~= all.take(i as int));
            assert(all.take(i + 1).last() == v@[i as int]@);
        }
        if v[i].problem.is_some() {
            r = v[i].problem;
        }
        i += 1;
    }
    assert(all.take(i as int) =~= all);
    r
}

fn bind_rules(
    backends: &mut Vec<(String, Setup)>,
    c: &Cluster,
    v: &Vec<Rule>,
    uid: &str,
    ns: &str,
    kind: &str,
    x: &Access,
    traffic: &Option<Traffic>,
) -> (out: Vec<Bound>)
    ensures
        (shapes(final(backends)@), all_links(out@)) == rules_bound(
            shapes(old(backends)@),
            *c,
            v@,
            Asker { uid: uid@, ns: ns@, kind: kind@ },
            x@,
            *traffic,
        ),
{
    let ghost a = Asker { uid: uid@, ns: ns@, kind: kind@ };
    let ghost start = shapes(backends@);
    let mut out: Vec<Bound> = Vec::new();
    let mut i: usize = 0;
    assert(v@.take(0) =~= Seq::empty());
    assert(all_links(out@) =~= Seq::empty());
    while i < v.len()
        invariant
            i <= v.len(),
            a == (Asker { uid: uid@, ns: ns@, kind: kind@ }),
            (shapes(backends@), all_links(out@)) == rules_bound(
                start,
                *c,
                v@.take(i as int),
                a,
                x@,
                *traffic,
            ),
        decreases v.len() - i,
    {
        let ghost before = all_links(out@);
        proof {
            assert(v@.take(i + 1).drop_last() =~= v@.take(i as int));
            assert(v@.take(i + 1).last() == v@[i as int]);
        }
        let outcomes = reach_rule(backends, c, &v[i], uid, ns, kind, x, traffic.is_some());
        let mut l = bind(&v[i], &outcomes, uid, ns, traffic.is_some());
        if let Some(t) = traffic {
            if !is_carried_out(t, &l) {
                l = crate::gateway::attachment::unreachable(l);
            }
        }
        let ghost y = l@;
        out.push(l);
        assert(all_links(out@) =~= before.push(y));
        i += 1;
    }
    assert(v@.take(i as int) =~= v@);
    out
}

// ---------------------------------------------------------------------------
// A route
// ---------------------------------------------------------------------------

/// The parents of a route that are the gateway, in order.
pub open spec fn own_parents(v: Seq<Reference>, ns: Seq<char>, s: Served) -> Seq<int>
    decreases v.len(),
{
    if v.len() == 0 {
        Seq::empty()
    } else {
        let before = own_parents(v.drop_last(), ns, s);
        if targets(v.last(), ns, s) {
            before.push(v.len() - 1)
        } else {
            before
        }
    }
}

/// The parents of a route that are the gateway, in order, by their places.
pub fn own(v: &Vec<Reference>, ns: &str, s: &Served) -> (out: Vec<usize>)
    ensures
        places(out@) == own_parents(v@, ns@, *s),
        forall|i: int| 0 <= i < out@.len() ==> #[trigger] out@[i] < v@.len(),
{
    let mut out: Vec<usize> = Vec::new();
    let mut i: usize = 0;
    assert(v@.take(0) =~= Seq::empty());
    assert(places(out@) =~= Seq::empty());
    while i < v.len()
        invariant
            i <= v.len(),
            places(out@) == own_parents(v@.take(i as int), ns@, *s),
            forall|j: int| 0 <= j < out@.len() ==> #[trigger] out@[j] < i,
        decreases v.len() - i,
    {
        let ghost before = places(out@);
        proof {
            assert(v@.take(i + 1).drop_last() =~= v@.take(i as int));
            assert(v@.take(i + 1).last() == v@[i as int]);
        }
        if parent_targets(&v[i], ns, s) {
            out.push(i);
            assert(places(out@) =~= before.push(i as int));
        }
        i += 1;
    }
    assert(v@.take(i as int) =~= v@);
    out
}

pub open spec fn words(v: Seq<Ruling>) -> Seq<Word> {
    Seq::new(v.len(), |i: int| v[i]@)
}

/// Whether one of the first parents of a route leads to a listener.
pub open spec fn leads(p: Placing, r: Resources, s: Served, v: Seq<Reference>, plan: RoutePlan) -> bool {
    exists|i: int| 0 <= i < v.len() && p.found(r, s, #[trigger] v[i], plan).1.len() > 0
}

/// The table with the entries of a route for the first of its parents, and what is said to each.
pub open spec fn all_placed(p: Placing, r: Resources, s: Served, v: Seq<Reference>, plan: RoutePlan) -> (
    Chart,
    Seq<Word>,
)
    decreases v.len(),
{
    if v.len() == 0 {
        (p.chart(), Seq::empty())
    } else {
        let (c, said) = all_placed(p, r, s, v.drop_last(), plan);
        let (why, found) = p.found(r, s, v.last(), plan);
        (
            filled(c, p.listeners@, p.at@, plan, found),
            said.push(ruled(why, found.len() > 0, plan)),
        )
    }
}

fn is_led(p: &Placing, r: &Resources, s: &Served, v: &Vec<Reference>, plan: &RoutePlan) -> (b: bool)
    requires
        p.wf(),
    ensures
        b == leads(*p, *r, *s, v@, *plan),
{
    let active = p.active();
    let mut i: usize = 0;
    while i < v.len()
        invariant
            i <= v.len(),
            p.wf(),
            active@ == actives(p.at@, p.fates@),
            forall|j: int| 0 <= j < i ==> p.found(*r, *s, #[trigger] v@[j], *plan).1.len() == 0,
        decreases v.len() - i,
    {
        let (_, found) = attach(
            r,
            &v[i],
            &p.listeners,
            &active,
            s.namespace.as_str(),
            plan.ns.as_str(),
            plan.kind.as_str(),
            &plan.hostnames,
        );
        assert(places(found@) == p.found(*r, *s, v@[i as int], *plan).1);
        if found.len() > 0 {
            return true;
        }
        i += 1;
    }
    false
}

/// What is served of a route to those of its parents that are the gateway: its backends are reached where
/// one of the parents leads to a listener and its policies can be carried out, and its entries come into
/// the table. What is said to each parent comes back, and what the backends of each rule amount to.
pub fn serve(
    p: &mut Placing,
    backends: &mut Vec<(String, Setup)>,
    c: &Cluster,
    s: &Served,
    parents: &Vec<Reference>,
    plan: RoutePlan,
    uid: &str,
    x: &Access,
    traffic: &Option<Traffic>,
) -> (r: (Vec<Ruling>, Vec<Bound>))
    requires
        old(p).wf(),
        sound_rules(plan.rules@, plan.grpc()),
    ensures
        final(p).wf(),
        final(p).listeners == old(p).listeners,
        final(p).fates == old(p).fates,
        final(p).at == old(p).at,
        ({
            let a = Asker { uid: uid@, ns: plan.ns@, kind: plan.kind@ };
            let (known, links) = if plan.failed is None && leads(
                *old(p),
                c.resources,
                *s,
                parents@,
                plan,
            ) {
                rules_bound(shapes(old(backends)@), *c, plan.rules@, a, x@, *traffic)
            } else {
                (shapes(old(backends)@), Seq::empty())
            };
            let whole = RoutePlan { problem: problem_of(links), ..plan };
            &&& shapes(final(backends)@) == known
            &&& all_links(r.1@) == links
            &&& (final(p).chart(), words(r.0@)) == all_placed(
                *old(p),
                c.resources,
                *s,
                parents@,
                whole,
            )
        }),
{
    let mut bound: Vec<Bound> = Vec::new();
    assert(all_links(bound@) =~= Seq::empty());
    if plan.failed.is_none() && is_led(p, &c.resources, s, parents, &plan) {
        bound = bind_rules(
            backends,
            c,
            &plan.rules,
            uid,
            plan.ns.as_str(),
            plan.kind.as_str(),
            x,
            traffic,
        );
    }
    let mut plan = plan;
    plan.problem = find_problem(&bound);
    let mut out: Vec<Ruling> = Vec::new();
    let mut i: usize = 0;
    assert(parents@.take(0) =~= Seq::empty());
    assert(words(out@) =~= Seq::empty());
    let ghost first = *p;
    while i < parents.len()
        invariant
            i <= parents.len(),
            p.wf(),
            sound_rules(plan.rules@, plan.grpc()),
            p.listeners == first.listeners,
            p.fates == first.fates,
            p.at == first.at,
            (p.chart(), words(out@)) == all_placed(
                first,
                c.resources,
                *s,
                parents@.take(i as int),
                plan,
            ),
        decreases parents.len() - i,
    {
        let ghost before = words(out@);
        proof {
            assert(parents@.take(i + 1).drop_last() =~= parents@.take(i as int));
            assert(parents@.take(i + 1).last() == parents@[i as int]);
            assert(p.found(c.resources, *s, parents@[i as int], plan) == first.found(
                c.resources,
                *s,
                parents@[i as int],
                plan,
            ));
        }
        let w = p.place(&c.resources, s, &parents[i], &plan);
        let ghost y = w@;
        out.push(w);
        assert(words(out@) =~= before.push(y));
        i += 1;
    }
    assert(parents@.take(i as int) =~= parents@);
    (out, bound)
}

/// Traffic can be split where its policy can be read and every Service that it names is bound.
pub proof fn law_unbound_traffic_reaches_nothing(
    r: Rule,
    outcomes: Seq<Option<RefError>>,
    a: Asker,
    t: Traffic,
    i: int,
)
    requires
        0 <= i < t.services@.len(),
    ensures
        !t.readable || text::lookup(rule_links(r, outcomes, a.uid, a.ns, true).bindings, t.services@[i]@) is None ==> {
            let l = bound_of(r, outcomes, a, Some(t));
            &&& l.weights.len() == 1
            &&& l.weights[0].0 is None
            &&& l.weights[0].1 == 1
            &&& l.bindings.len() == 0
            &&& l.problem == Some(RefError::NotFound)
        },
        bound_of(r, outcomes, a, None) == rule_links(r, outcomes, a.uid, a.ns, false),
{
}

/// The problem of a route is that of the last of its rules that has one.
pub proof fn law_problems_of_rules_are_those_of_the_route(v: Seq<Links>, l: Links)
    ensures
        problem_of(v) is None <==> forall|i: int| 0 <= i < v.len() ==> (#[trigger] v[i]).problem is None,
        l.problem is Some ==> problem_of(v.push(l)) == l.problem,
        l.problem is None ==> problem_of(v.push(l)) == problem_of(v),
    decreases v.len(),
{
    assert(v.push(l).drop_last() =~= v);
    if v.len() > 0 {
        let u = v.drop_last();
        law_problems_of_rules_are_those_of_the_route(u, l);
        assert(v[v.len() - 1] == v.last());
        if problem_of(v) is None {
            assert forall|i: int| 0 <= i < v.len() implies (#[trigger] v[i]).problem is None by {
                if i < u.len() {
                    assert(u[i] == v[i]);
                }
            }
        } else if v.last().problem is None {
            let k = choose|k: int| 0 <= k < u.len() && !((#[trigger] u[k]).problem is None);
            assert(v[k] == u[k]);
        }
    }
}

/// Of the parents of a route, those are its own that are the Gateway, in order.
pub proof fn law_own_parents_are_the_gateway(v: Seq<Reference>, ns: Seq<char>, s: Served, k: int)
    ensures
        own_parents(v, ns, s).contains(k) <==> 0 <= k < v.len() && targets(v[k], ns, s),
    decreases v.len(),
{
    let w = own_parents(v, ns, s);
    if v.len() > 0 {
        let u = v.drop_last();
        let b = own_parents(u, ns, s);
        law_own_parents_are_the_gateway(u, ns, s, k);
        assert(v[v.len() - 1] == v.last());
        if 0 <= k < u.len() {
            assert(u[k] == v[k]);
        }
        if b.contains(k) {
            let j = choose|j: int| 0 <= j < b.len() && b[j] == k;
            assert(w[j] == k);
        }
        if w.contains(k) {
            let j = choose|j: int| 0 <= j < w.len() && w[j] == k;
            if j < b.len() {
                assert(b[j] == k);
            }
        }
        if k == v.len() - 1 && targets(v.last(), ns, s) {
            assert(w[w.len() - 1] == k);
        }
    }
}

/// Every rule of a route gets its links, and each parent its word.
pub proof fn law_rules_and_parents_are_answered(
    before: Seq<(Seq<char>, Shape)>,
    c: Cluster,
    v: Seq<Rule>,
    a: Asker,
    x: Approach,
    traffic: Option<Traffic>,
    p: Placing,
    s: Served,
    parents: Seq<Reference>,
    plan: RoutePlan,
)
    ensures
        rules_bound(before, c, v, a, x, traffic).1.len() == v.len(),
        all_placed(p, c.resources, s, parents, plan).1.len() == parents.len(),
    decreases v.len() + parents.len(),
{
    if v.len() > 0 {
        law_rules_and_parents_are_answered(before, c, v.drop_last(), a, x, traffic, p, s, parents, plan);
    } else if parents.len() > 0 {
        law_rules_and_parents_are_answered(before, c, v, a, x, traffic, p, s, parents.drop_last(), plan);
    }
    if v.len() > 0 && parents.len() > 0 {
        law_rules_and_parents_are_answered(before, c, v, a, x, traffic, p, s, parents.drop_last(), plan);
    }
}

} // verus!

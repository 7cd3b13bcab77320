//! What a route becomes at a listener: an entry for each match of each rule at each host.
use crate::gateway::attachment::{
    address, address_of, at_least_one, one_at_least, route_id, route_id_of,
};
use crate::gateway::routes::{plain_handling, weighted, Handling, Policy};
use crate::gateway::spec::{first_mirror, BackendRef, Rule};
use crate::gateway::timeouts::Budgets;
use crate::ingress::routes::Demand;
use crate::text;
use crate::text::texts;
use vstd::prelude::*;

verus! {

// ---------------------------------------------------------------------------
// Entries
// ---------------------------------------------------------------------------

/// An entry: the host, the rule and the match by their places, and what the route is known by.
#[derive(Debug)]
pub struct Slot {
    pub hostname: String,
    pub rule: usize,
    pub matcher: usize,
    pub route_id: String,
}

/// What a `Slot` holds.
#[verifier::ext_equal]
pub ghost struct Spot {
    pub hostname: Seq<char>,
    pub rule: nat,
    pub matcher: nat,
    pub route_id: Seq<char>,
}

impl View for Slot {
    type V = Spot;

    open spec fn view(&self) -> Spot {
        Spot {
            hostname: self.hostname@,
            rule: self.rule as nat,
            matcher: self.matcher as nat,
            route_id: self.route_id@,
        }
    }
}

pub open spec fn spots(v: Seq<Slot>) -> Seq<Spot> {
    Seq::new(v.len(), |i: int| v[i]@)
}

/// A route: its namespace, its name and its kind, and the place of the listener.
#[verifier::ext_equal]
pub ghost struct Origin {
    pub ns: Seq<char>,
    pub name: Seq<char>,
    pub kind: Seq<char>,
    pub listener: nat,
}

impl Origin {
    pub open spec fn id(self, rule: nat, matcher: nat) -> Seq<char> {
        route_id_of(self.ns, self.name, self.kind, self.listener, rule, matcher)
    }
}

/// The entries of a match.
pub open spec fn match_spots(o: Origin, hosts: Seq<Seq<char>>, rule: nat, matcher: nat) -> Seq<Spot> {
    Seq::new(
        hosts.len(),
        |i: int| Spot { hostname: hosts[i], rule, matcher, route_id: o.id(rule, matcher) },
    )
}

/// The entries of the first `n` matches of a rule.
pub open spec fn rule_spots(o: Origin, hosts: Seq<Seq<char>>, rule: nat, n: nat) -> Seq<Spot>
    decreases n,
{
    if n == 0 {
        Seq::empty()
    } else {
        rule_spots(o, hosts, rule, (n - 1) as nat) + match_spots(o, hosts, rule, (n - 1) as nat)
    }
}

/// The entries of a route; a rule without matches has one.
pub open spec fn route_spots(o: Origin, hosts: Seq<Seq<char>>, v: Seq<Rule>) -> Seq<Spot>
    decreases v.len(),
{
    if v.len() == 0 {
        Seq::empty()
    } else {
        route_spots(o, hosts, v.drop_last()) + rule_spots(
            o,
            hosts,
            (v.len() - 1) as nat,
            at_least_one(v.last().matches@.len()),
        )
    }
}

fn add_match(out: &mut Vec<Slot>, hosts: &Vec<String>, rule: usize, matcher: usize, id: &str)
    ensures
        spots(final(out)@) == spots(old(out)@) + Seq::new(
            hosts@.len(),
            |i: int|
                Spot {
                    hostname: hosts@[i]@,
                    rule: rule as nat,
                    matcher: matcher as nat,
                    route_id: id@,
                },
        ),
{
    let ghost start = spots(out@);
    let ghost goal = Seq::new(
        hosts@.len(),
        |i: int|
            Spot {
                hostname: hosts@[i]@,
                rule: rule as nat,
                matcher: matcher as nat,
                route_id: id@,
            },
    );
    let mut i: usize = 0;
    assert(start + goal.take(0) =~= start);
    while i < hosts.len()
        invariant
            i <= hosts.len(),
            goal == Seq::new(
                hosts@.len(),
                |i: int|
                    Spot {
                        hostname: hosts@[i]@,
                        rule: rule as nat,
                        matcher: matcher as nat,
                        route_id: id@,
                    },
            ),
            spots(out@) == start + goal.take(i as int),
        decreases hosts.len() - i,
    {
        let ghost before = spots(out@);
        out.push(Slot { hostname: hosts[i].clone(), rule, matcher, route_id: id.to_owned() });
        i += 1;
        proof {
            assert(spots(out@) =~= before.push(goal[i - 1]));
            assert(spots(out@) =~= start + goal.take(i as int));
        }
    }
    assert(goal.take(i as int) =~= goal);
}

/// The entries of a route at the listener of a place, for the hosts that both have in common.
pub fn slots(ns: &str, name: &str, kind: &str, listener: usize, v: &Vec<Rule>, hosts: &Vec<String>) -> (out:
    Vec<Slot>)
    ensures
        spots(out@) == route_spots(
            Origin { ns: ns@, name: name@, kind: kind@, listener: listener as nat },
            texts(hosts@),
            v@,
        ),
{
    let ghost o = Origin { ns: ns@, name: name@, kind: kind@, listener: listener as nat };
    let ghost h = texts(hosts@);
    let mut out: Vec<Slot> = Vec::new();
    let mut i: usize = 0;
    assert(spots(out@) =~= route_spots(o, h, v@.take(0)));
    while i < v.len()
        invariant
            i <= v.len(),
            o == (Origin { ns: ns@, name: name@, kind: kind@, listener: listener as nat }),
            h == texts(hosts@),
            spots(out@) == route_spots(o, h, v@.take(i as int)),
        decreases v.len() - i,
    {
        let ghost before = spots(out@);
        let n = one_at_least(v[i].matches.len());
        let mut k: usize = 0;
        assert(before + rule_spots(o, h, i as nat, 0) =~= before);
        while k < n
            invariant
                k <= n,
                i < v.len(),
                o == (Origin { ns: ns@, name: name@, kind: kind@, listener: listener as nat }),
                h == texts(hosts@),
                spots(out@) == before + rule_spots(o, h, i as nat, k as nat),
            decreases n - k,
        {
            let id = route_id(ns, name, kind, listener, i, k);
            let ghost so_far = spots(out@);
            add_match(&mut out, hosts, i, k, id.as_str());
            proof {
                assert(spots(out@) =~= so_far + match_spots(o, h, i as nat, k as nat));
                assert(before + (rule_spots(o, h, i as nat, k as nat) + match_spots(
                    o,
                    h,
                    i as nat,
                    k as nat,
                )) =~= so_far + match_spots(o, h, i as nat, k as nat));
            }
            k += 1;
        }
        proof {
            assert(v@.take(i + 1).drop_last() =~= v@.take(i as int));
            assert(v@.take(i + 1).last() == v@[i as int]);
        }
        i += 1;
    }
    assert(v@.take(i as int) =~= v@);
    out
}

// ---------------------------------------------------------------------------
// What is done at an entry
// ---------------------------------------------------------------------------

/// What is done with requests: what the filters say, unless the policies of the route cannot be carried
/// out, and the backends that the rule amounts to.
pub fn handling(p: Policy, failed: bool, weights: Vec<(Option<String>, u32)>) -> (r: Policy)
    ensures
        r@ == (Handling {
            backends: weighted(weights@),
            ..if failed {
                plain_handling(0)
            } else {
                p@
            }
        }),
{
    let mut r = if failed {
        Policy::default()
    } else {
        p
    };
    r.backends = weights;
    r
}

pub open spec fn capped(t: Option<u64>, ceiling: u64) -> Option<u64> {
    match t {
        Some(n) => Some(
            if n < ceiling {
                n
            } else {
                ceiling
            },
        ),
        None => None,
    }
}

fn cap(t: Option<u64>, ceiling: u64) -> (r: Option<u64>)
    ensures
        r == capped(t, ceiling),
{
    match t {
        Some(n) => Some(
            if n < ceiling {
                n
            } else {
                ceiling
            },
        ),
        None => None,
    }
}

/// The time limits of a rule where its namespace has a longest one.
pub fn limit(b: Budgets, ceiling: u64) -> (r: Budgets)
    ensures
        r == (Budgets {
            request: capped(b.request, ceiling),
            backend_request: capped(b.backend_request, ceiling),
        }),
{
    Budgets { request: cap(b.request, ceiling), backend_request: cap(b.backend_request, ceiling) }
}

// ---------------------------------------------------------------------------
// What is asked of a namespace
// ---------------------------------------------------------------------------

/// The namespace of a backend: its own, else that of the route.
pub open spec fn home_of(b: BackendRef, ns: Seq<char>) -> Seq<char> {
    match b.namespace {
        Some(s) => s@,
        None => ns,
    }
}

/// The backends of a rule, with the one that gets copies.
pub open spec fn rule_backends(r: Rule) -> Seq<BackendRef> {
    match first_mirror(r.filters@) {
        Some(m) => r.backend_refs@.push(m.backend_ref),
        None => r.backend_refs@,
    }
}

pub open spec fn addresses_of(v: Seq<BackendRef>, ns: Seq<char>) -> Seq<Seq<char>> {
    Seq::new(v.len(), |i: int| address_of(home_of(v[i], ns), v[i]))
}

/// The addresses of all backends of some rules.
pub open spec fn all_addresses(v: Seq<Rule>, ns: Seq<char>) -> Seq<Seq<char>>
    decreases v.len(),
{
    if v.len() == 0 {
        Seq::empty()
    } else {
        all_addresses(v.drop_last(), ns) + addresses_of(rule_backends(v.last()), ns)
    }
}

fn add_addresses(out: &mut Vec<String>, rule: &Rule, ns: &str)
    ensures
        texts(final(out)@) == texts(old(out)@) + addresses_of(rule_backends(*rule), ns@),
{
    let v = rule.all_backends();
    let ghost all = rule_backends(*rule);
    let ghost goal = addresses_of(all, ns@);
    let ghost start = texts(out@);
    assert(v@.len() == all.len());
    assert forall|j: int| 0 <= j < all.len() implies *#[trigger] v@[j] == all[j] by {}
    let mut i: usize = 0;
    assert(start + goal.take(0) =~= start);
    while i < v.len()
        invariant
            i <= v.len(),
            v@.len() == all.len(),
            forall|j: int| 0 <= j < all.len() ==> *#[trigger] v@[j] == all[j],
            goal == addresses_of(all, ns@),
            texts(out@) == start + goal.take(i as int),
        decreases v.len() - i,
    {
        let ghost before = texts(out@);
        let home: &str = match &v[i].namespace {
            Some(s) => s.as_str(),
            None => ns,
        };
        let a = address(home, v[i]);
        let ghost x = a@;
        out.push(a);
        i += 1;
        proof {
            assert(x == goal[i - 1]);
            assert(texts(out@) =~= before.push(x));
            assert(texts(out@) =~= start + goal.take(i as int));
        }
    }
    assert(goal.take(i as int) =~= goal);
}

/// What a route asks of its namespace: `count` is how many routes it becomes at most.
pub fn demand(v: &Vec<Rule>, ns: &str, count: usize) -> (d: Demand)
    ensures
        d.routes == count,
        d.retained_routes == 0,
        texts(d.backends@) == all_addresses(v@, ns@),
        d.script is None,
        !d.scripted,
{
    let mut backends: Vec<String> = Vec::new();
    let mut i: usize = 0;
    assert(texts(backends@) =~= all_addresses(v@.take(0), ns@));
    while i < v.len()
        invariant
            i <= v.len(),
            texts(backends@) == all_addresses(v@.take(i as int), ns@),
        decreases v.len() - i,
    {
        proof {
            assert(v@.take(i + 1).drop_last() =~= v@.take(i as int));
            assert(v@.take(i + 1).last() == v@[i as int]);
        }
        add_addresses(&mut backends, &v[i], ns);
        i += 1;
    }
    assert(v@.take(i as int) =~= v@);
    Demand { routes: count, retained_routes: 0, backends, script: None, scripted: false }
}

// ---------------------------------------------------------------------------
// Attached routes
// ---------------------------------------------------------------------------

/// A route that is attached to the listener of a place.
#[derive(Debug)]
pub struct Attached {
    pub listener: usize,
    pub kind: String,
    pub ns: String,
    pub name: String,
}

pub open spec fn bonds(v: Seq<Attached>) -> Seq<Origin> {
    Seq::new(
        v.len(),
        |i: int|
            Origin {
                ns: v[i].ns@,
                name: v[i].name@,
                kind: v[i].kind@,
                listener: v[i].listener as nat,
            },
    )
}

/// Notes that a route is attached to the listener of a place; it counts once, however many of its parents
/// lead there.
pub fn attach_once(v: &mut Vec<Attached>, listener: usize, kind: &str, ns: &str, name: &str)
    ensures
        ({
            let o = Origin { ns: ns@, name: name@, kind: kind@, listener: listener as nat };
            bonds(final(v)@) == if bonds(old(v)@).contains(o) {
                bonds(old(v)@)
            } else {
                bonds(old(v)@).push(o)
            }
        }),
{
    let ghost o = Origin { ns: ns@, name: name@, kind: kind@, listener: listener as nat };
    let ghost all = bonds(v@);
    let mut i: usize = 0;
    while i < v.len()
        invariant
            i <= v.len(),
            all == bonds(v@),
            o == (Origin { ns: ns@, name: name@, kind: kind@, listener: listener as nat }),
            forall|j: int| 0 <= j < i ==> #[trigger] all[j] != o,
        decreases v.len() - i,
    {
        if v[i].listener == listener && text::same(v[i].kind.as_str(), kind) && text::same(
            v[i].ns.as_str(),
            ns,
        ) && text::same(v[i].name.as_str(), name) {
            assert(all[i as int] == o);
            return;
        }
        assert(all[i as int] != o);
        i += 1;
    }
    v.push(
        Attached { listener, kind: kind.to_owned(), ns: ns.to_owned(), name: name.to_owned() },
    );
    assert(bonds(v@) =~= all.push(o));
}

pub open spec fn attached_at(v: Seq<Origin>, listener: nat) -> nat
    decreases v.len(),
{
    if v.len() == 0 {
        0
    } else {
        attached_at(v.drop_last(), listener) + if v.last().listener == listener {
            1nat
        } else {
            0
        }
    }
}

/// How many routes are attached to the listener of a place.
pub fn count_attached(v: &Vec<Attached>, listener: usize) -> (n: usize)
    ensures
        n == attached_at(bonds(v@), listener as nat),
{
    let ghost all = bonds(v@);
    let mut n: usize = 0;
    let mut i: usize = 0;
    while i < v.len()
        invariant
            i <= v.len(),
            n <= i,
            all == bonds(v@),
            n == attached_at(all.take(i as int), listener as nat),
        decreases v.len() - i,
    {
        proof {
            assert(all.take(i + 1).drop_last() =~= all.take(i as int));
            assert(all.take(i + 1).last() == all[i as int]);
        }
        if v[i].listener == listener {
            n += 1;
        }
        i += 1;
    }
    assert(all.take(i as int) =~= all);
    n
}

// ---------------------------------------------------------------------------
// Laws
// ---------------------------------------------------------------------------

proof fn lemma_rule_spots(o: Origin, hosts: Seq<Seq<char>>, rule: nat, n: nat)
    ensures
        rule_spots(o, hosts, rule, n).len() == n * hosts.len(),
        forall|k: int|
            #![trigger rule_spots(o, hosts, rule, n)[k]]
            0 <= k < rule_spots(o, hosts, rule, n).len() ==> {
                let s = rule_spots(o, hosts, rule, n)[k];
                s.rule == rule && s.matcher < n && hosts.contains(s.hostname) && s.route_id == o.id(
                    s.rule,
                    s.matcher,
                )
            },
    decreases n,
{
    if n > 0 {
        let m = (n - 1) as nat;
        lemma_rule_spots(o, hosts, rule, m);
        assert(n * hosts.len() == m * hosts.len() + hosts.len()) by (nonlinear_arith)
            requires
                n == m + 1,
        ;
        let before = rule_spots(o, hosts, rule, m);
        assert forall|k: int|
            #![trigger rule_spots(o, hosts, rule, n)[k]]
            0 <= k < rule_spots(o, hosts, rule, n).len() implies {
            let s = rule_spots(o, hosts, rule, n)[k];
            s.rule == rule && s.matcher < n && hosts.contains(s.hostname) && s.route_id == o.id(
                s.rule,
                s.matcher,
            )
        } by {
            if k < before.len() {
                assert(rule_spots(o, hosts, rule, n)[k] == before[k]);
            } else {
                let s = match_spots(o, hosts, rule, m)[k - before.len()];
                assert(rule_spots(o, hosts, rule, n)[k] == s);
                assert(hosts[k - before.len()] == s.hostname);
            }
        }
    } else {
        assert(0 * hosts.len() == 0) by (nonlinear_arith);
    }
}

/// Every entry of a route is for a match of one of its rules and for a host that the route and the listener
/// have in common, and is known by where it comes from.
pub proof fn law_entries_are_of_their_route(
    o: Origin,
    hosts: Seq<Seq<char>>,
    v: Seq<Rule>,
    k: int,
)
    requires
        0 <= k < route_spots(o, hosts, v).len(),
    ensures
        ({
            let s = route_spots(o, hosts, v)[k];
            &&& s.rule < v.len()
            &&& s.matcher < at_least_one(v[s.rule as int].matches@.len())
            &&& hosts.contains(s.hostname)
            &&& s.route_id == o.id(s.rule, s.matcher)
        }),
    decreases v.len(),
{
    let before = route_spots(o, hosts, v.drop_last());
    let n = at_least_one(v.last().matches@.len());
    if k < before.len() {
        law_entries_are_of_their_route(o, hosts, v.drop_last(), k);
    } else {
        lemma_rule_spots(o, hosts, (v.len() - 1) as nat, n);
        assert(route_spots(o, hosts, v)[k] == rule_spots(o, hosts, (v.len() - 1) as nat, n)[k
            - before.len()]);
    }
}

/// A match makes an entry for each host, and a rule without matches one for each host.
pub proof fn law_matches_make_entries(o: Origin, hosts: Seq<Seq<char>>, v: Seq<Rule>, r: Rule, h: Seq<char>)
    requires
        hosts == seq![h],
        r.matches@.len() <= 1,
    ensures
        route_spots(o, hosts, v.push(r)) == route_spots(o, hosts, v).push(
            Spot { hostname: h, rule: v.len(), matcher: 0, route_id: o.id(v.len(), 0) },
        ),
{
    assert(v.push(r).drop_last() =~= v);
    reveal_with_fuel(rule_spots, 2);
    let s = Spot { hostname: h, rule: v.len(), matcher: 0, route_id: o.id(v.len(), 0) };
    assert(match_spots(o, hosts, v.len(), 0) =~= seq![s]);
    assert(route_spots(o, hosts, v.push(r)) =~= route_spots(o, hosts, v).push(s));
}

/// A route is named after its namespace, its name and its kind, and the places of the listener, the rule and the
/// match.
pub proof fn law_entries_are_named(o: Origin, rule: nat, matcher: nat)
    ensures
        o.id(rule, matcher) == o.ns + "/"@ + o.name + ":gateway:"@ + o.kind + ":"@ + text::decimal(o.listener)
            + ":"@ + text::decimal(rule) + ":"@ + text::decimal(matcher),
{
}

/// A time is no longer than the ceiling, and as it is where it is shorter.
pub proof fn law_times_are_capped(n: u64, ceiling: u64)
    ensures
        n <= ceiling ==> capped(Some(n), ceiling) == Some(n),
        n > ceiling ==> capped(Some(n), ceiling) == Some(ceiling),
        capped(None, ceiling) is None,
{
}

/// The backends of a route are those of its rules and the ones that get copies, by namespace, name and port.
pub proof fn law_demands_name_all_backends(v: Seq<Rule>, r: Rule, b: BackendRef, ns: Seq<char>, port: u16)
    requires
        r.backend_refs@ == seq![b],
        first_mirror(r.filters@) is None,
        b.namespace is None,
        b.port == Some(port),
    ensures
        all_addresses(v.push(r), ns) == all_addresses(v, ns).push(
            ns + "/"@ + (b.name@ + ":"@ + text::decimal(port as nat)),
        ),
{
    assert(v.push(r).drop_last() =~= v);
    assert(addresses_of(rule_backends(r), ns) =~= seq![
        ns + "/"@ + (b.name@ + ":"@ + text::decimal(port as nat)),
    ]);
    assert(all_addresses(v.push(r), ns) =~= all_addresses(v, ns).push(
        ns + "/"@ + (b.name@ + ":"@ + text::decimal(port as nat)),
    ));
}

/// The routes of a listener are counted, and those of another are not.
pub proof fn law_attached_routes_are_counted(v: Seq<Origin>, o: Origin, listener: nat)
    ensures
        o.listener == listener ==> attached_at(v.push(o), listener) == attached_at(v, listener) + 1,
        o.listener != listener ==> attached_at(v.push(o), listener) == attached_at(v, listener),
        attached_at(Seq::empty(), listener) == 0,
{
    assert(v.push(o).drop_last() =~= v);
}

} // verus!

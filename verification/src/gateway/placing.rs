//! The routing table of a gateway: its listeners first, and then the entries of each route at each listener
//! that one of its parents leads to.
use crate::gateway::attachment::{
    at_least_one, attach, attached_all, hosts_at, places, route_hosts, shared_hosts, Active,
    Attachment, RefError,
};
use crate::gateway::entries::{
    attach_once, attached_at, bonds, count_attached, law_entries_are_of_their_route, route_spots, slots,
    spots, Attached, Origin, Slot, Spot,
};
use crate::gateway::listeners::{Examined, Fate};
use crate::gateway::prepare::{matches_checked, rules_checked};
use crate::gateway::references::{Object, Resources};
use crate::gateway::routes::{Entry, ListenerRoutes};
use crate::gateway::spec::{any_request, Match, Pattern, Reference, Rule};
use crate::gateway::status::Served;
use crate::gateway::tls_policy::{ages, object_ages};
use crate::ingress::routes::{by_age, indexes, oldest_first, Age};
use crate::json::Json;
use crate::model::{Matcher, PathMatch};
use crate::net::Socket;
use crate::text;
use crate::text::texts;
use vstd::prelude::*;

verus! {

// ---------------------------------------------------------------------------
// The table
// ---------------------------------------------------------------------------

/// What an `Entry` holds.
#[verifier::ext_equal]
pub ghost struct Row {
    pub hostname: Seq<char>,
    pub matcher: Pattern,
    pub grpc: bool,
    pub order: (Seq<char>, Seq<char>, Seq<char>, nat, nat),
    pub route_id: Seq<char>,
    pub paths: Matcher,
}

impl View for Entry {
    type V = Row;

    open spec fn view(&self) -> Row {
        Row {
            hostname: self.hostname@,
            matcher: self.matcher@,
            grpc: self.grpc,
            order: (
                self.order.0@,
                self.order.1@,
                self.order.2@,
                self.order.3 as nat,
                self.order.4 as nat,
            ),
            route_id: self.route_id@,
            paths: self.paths@,
        }
    }
}

pub open spec fn rows(v: Seq<Entry>) -> Seq<Row> {
    Seq::new(v.len(), |i: int| v[i]@)
}

/// What a `ListenerRoutes` holds.
#[verifier::ext_equal]
pub ghost struct Rack {
    pub address: Socket,
    pub hostname: Seq<char>,
    pub rows: Seq<Row>,
}

impl View for ListenerRoutes {
    type V = Rack;

    open spec fn view(&self) -> Rack {
        Rack { address: self.address, hostname: self.hostname@, rows: rows(self.entries@) }
    }
}

pub open spec fn racks(v: Seq<ListenerRoutes>) -> Seq<Rack> {
    Seq::new(v.len(), |i: int| v[i]@)
}

/// The routing table of the first `n` listeners, without routes, and the place of the listener that each
/// part of it belongs to: each listener that has an address is in it, whether it is valid or not, so that
/// no listener with a broader host name takes its requests.
pub open spec fn table_of(v: Seq<Json>, e: Seq<Examined>, n: int) -> (Seq<Rack>, Seq<int>)
    decreases n,
{
    if n <= 0 {
        (Seq::empty(), Seq::empty())
    } else {
        let (t, at) = table_of(v, e, n - 1);
        match e[n - 1].address {
            None => (t, at),
            Some(address) => (
                t.push(
                    Rack {
                        address,
                        hostname: v[n - 1].string_or("hostname"@, ""@),
                        rows: Seq::empty(),
                    },
                ),
                at.push(n - 1),
            ),
        }
    }
}

/// The routing table of the listeners of a gateway, without routes.
pub fn table(v: &Vec<Json>, e: &Vec<Examined>) -> (r: (Vec<ListenerRoutes>, Vec<usize>))
    requires
        e@.len() == v@.len(),
    ensures
        (racks(r.0@), places(r.1@)) == table_of(v@, e@, v@.len() as int),
        r.0@.len() == r.1@.len(),
        forall|i: int| 0 <= i < r.1@.len() ==> #[trigger] r.1@[i] < v@.len(),
{
    let mut t: Vec<ListenerRoutes> = Vec::new();
    let mut at: Vec<usize> = Vec::new();
    let mut i: usize = 0;
    assert(racks(t@) =~= Seq::empty());
    assert(places(at@) =~= Seq::empty());
    while i < v.len()
        invariant
            i <= v.len(),
            e@.len() == v@.len(),
            t@.len() == at@.len(),
            forall|j: int| 0 <= j < at@.len() ==> #[trigger] at@[j] < i,
            (racks(t@), places(at@)) == table_of(v@, e@, i as int),
        decreases v.len() - i,
    {
        let ghost (before, where_) = (racks(t@), places(at@));
        if let Some(address) = e[i].address {
            let l = ListenerRoutes {
                address,
                hostname: v[i].text("hostname", "").to_owned(),
                entries: Vec::new(),
            };
            let ghost x = l@;
            assert(x.rows =~= Seq::empty());
            t.push(l);
            at.push(i);
            proof {
                assert(racks(t@) =~= before.push(x));
                assert(places(at@) =~= where_.push(i as int));
            }
        }
        i += 1;
    }
    (t, at)
}

/// The listeners that have an address, with whether each is valid.
pub open spec fn actives(at: Seq<usize>, f: Seq<Fate>) -> Seq<Active> {
    Seq::new(at.len(), |i: int| Active { listener: at[i], valid: f[at[i] as int].valid })
}

// ---------------------------------------------------------------------------
// Routes
// ---------------------------------------------------------------------------

/// A route that is placed: where it comes from, what it asks for, and what became of its policies and of
/// its backends.
#[derive(Debug)]
pub struct RoutePlan {
    pub kind: String,
    pub ns: String,
    pub name: String,
    /// When the route was created, as it is written.
    pub created: String,
    pub rules: Vec<Rule>,
    pub hostnames: Vec<String>,
    /// Why the policies of the route cannot be carried out.
    pub failed: Option<String>,
    /// Whether what was accepted before takes the place of a script that does not compile.
    pub stale: bool,
    /// What is wrong with its backends.
    pub problem: Option<RefError>,
}

impl RoutePlan {
    pub open spec fn grpc(self) -> bool {
        self.kind@ == "GRPCRoute"@
    }

    pub open spec fn at(self, listener: nat) -> Origin {
        Origin { ns: self.ns@, name: self.name@, kind: self.kind@, listener }
    }
}

/// Whether each match of some rules has paths.
pub open spec fn sound_rules(v: Seq<Rule>, grpc: bool) -> bool {
    forall|i: int, k: int|
        0 <= i < v.len() && 0 <= k < v[i].matches@.len() ==> (#[trigger] v[i].matches@[k]).paths(
            grpc,
        ) is Ok
}

/// An entry of a route.
pub open spec fn row_of(p: RoutePlan, s: Spot) -> Row {
    let v = p.rules@[s.rule as int].matches@;
    Row {
        hostname: s.hostname,
        matcher: if v.len() == 0 {
            any_request()
        } else {
            v[s.matcher as int]@
        },
        grpc: p.grpc(),
        order: (p.created@, p.ns@, p.name@, s.rule, s.matcher),
        route_id: s.route_id,
        paths: if v.len() == 0 {
            Matcher::IngressPrefix("/"@)
        } else {
            v[s.matcher as int].paths(p.grpc())->Ok_0
        },
    }
}

/// The entries of a route at the listener of a place.
pub open spec fn rows_at(p: RoutePlan, listener: nat, l: Json) -> Seq<Row> {
    let v = route_spots(
        p.at(listener),
        shared_hosts(route_hosts(texts(p.hostnames@)), l.string_or("hostname"@, ""@)),
        p.rules@,
    );
    Seq::new(v.len(), |i: int| row_of(p, v[i]))
}

fn entry(p: &RoutePlan, s: &Slot) -> (e: Entry)
    requires
        s.rule < p.rules@.len(),
        s.matcher < at_least_one(p.rules@[s.rule as int].matches@.len()),
        sound_rules(p.rules@, p.grpc()),
    ensures
        e@ == row_of(*p, s@),
{
    let grpc = text::same(p.kind.as_str(), "GRPCRoute");
    let v = &p.rules[s.rule].matches;
    let order = (p.created.clone(), p.ns.clone(), p.name.clone(), s.rule, s.matcher);
    if v.len() == 0 {
        return Entry {
            hostname: s.hostname.clone(),
            matcher: Match::any(),
            grpc,
            order,
            route_id: s.route_id.clone(),
            paths: PathMatch::IngressPrefix("/".to_owned()),
        };
    }
    let m = &v[s.matcher];
    assert(p.rules@[s.rule as int].matches@[s.matcher as int].paths(grpc) is Ok);
    let paths = match m.path_match(grpc) {
        Ok(x) => x,
        Err(_) => PathMatch::IngressDefault,
    };
    Entry {
        hostname: s.hostname.clone(),
        matcher: m.copy(),
        grpc,
        order,
        route_id: s.route_id.clone(),
        paths,
    }
}

fn add_entries(v: &mut Vec<Entry>, p: &RoutePlan, listener: usize, l: &Json)
    requires
        sound_rules(p.rules@, p.grpc()),
    ensures
        rows(final(v)@) == rows(old(v)@) + rows_at(*p, listener as nat, *l),
{
    let hosts = hosts_at(&p.hostnames, l);
    let found = slots(
        p.ns.as_str(),
        p.name.as_str(),
        p.kind.as_str(),
        listener,
        &p.rules,
        &hosts,
    );
    let ghost all = spots(found@);
    let ghost goal = rows_at(*p, listener as nat, *l);
    let ghost start = rows(v@);
    proof {
        assert(all == route_spots(p.at(listener as nat), texts(hosts@), p.rules@));
        assert(start + goal.take(0) =~= start);
    }
    let mut i: usize = 0;
    while i < found.len()
        invariant
            i <= found.len(),
            all == spots(found@),
            goal.len() == found@.len(),
            sound_rules(p.rules@, p.grpc()),
            all == route_spots(p.at(listener as nat), texts(hosts@), p.rules@),
            forall|j: int| 0 <= j < goal.len() ==> #[trigger] goal[j] == row_of(*p, all[j]),
            rows(v@) == start + goal.take(i as int),
        decreases found.len() - i,
    {
        let ghost before = rows(v@);
        proof {
            law_entries_are_of_their_route(
                p.at(listener as nat),
                texts(hosts@),
                p.rules@,
                i as int,
            );
            assert(found@[i as int]@ == all[i as int]);
        }
        let e = entry(p, &found[i]);
        let ghost x = e@;
        v.push(e);
        proof {
            assert(x == goal[i as int]);
            assert(rows(v@) =~= before.push(x));
        }
        i += 1;
        assert(rows(v@) =~= start + goal.take(i as int));
    }
    assert(goal.take(i as int) =~= goal);
}

// ---------------------------------------------------------------------------
// Rulings
// ---------------------------------------------------------------------------

/// What is said of a route to one of its parents.
#[derive(Debug)]
pub struct Ruling {
    pub accepted: bool,
    pub reason: String,
    pub message: String,
    pub resolved: bool,
    pub references: String,
}

/// What a `Ruling` holds.
#[verifier::ext_equal]
pub ghost struct Word {
    pub accepted: bool,
    pub reason: Seq<char>,
    pub message: Seq<char>,
    pub resolved: bool,
    pub references: Seq<char>,
}

impl View for Ruling {
    type V = Word;

    open spec fn view(&self) -> Word {
        Word {
            accepted: self.accepted,
            reason: self.reason@,
            message: self.message@,
            resolved: self.resolved,
            references: self.references@,
        }
    }
}

/// What is said about where a route is attached.
pub open spec fn message_of(why: Attachment, p: RoutePlan) -> Seq<char> {
    match why {
        Attachment::NoMatchingParent => "No matching listener"@,
        Attachment::NotAllowed => "Listener is invalid or does not allow this route"@,
        Attachment::NoMatchingHostname => "Route and listener hostnames do not intersect"@,
        Attachment::Attached => match p.failed {
            Some(m) => m@,
            None => if p.stale {
                "Previous valid plugin and route retained after compilation failure"@
            } else {
                "Route accepted"@
            },
        },
    }
}

/// What is said of the references of a route that is attached.
pub open spec fn references_of(p: RoutePlan) -> Seq<char> {
    if p.failed is Some {
        "InvalidPolicy"@
    } else {
        match p.problem {
            Some(e) => e.spec_text(),
            None => "ResolvedRefs"@,
        }
    }
}

/// What is said of a route: it is accepted where it is attached anywhere and its policies can be carried
/// out, and only then its backends matter.
pub open spec fn ruled(why: Attachment, attached: bool, p: RoutePlan) -> Word {
    Word {
        accepted: attached && p.failed is None,
        reason: why.spec_text(p.failed is Some),
        message: message_of(why, p),
        resolved: !attached || (p.failed is None && p.problem is None),
        references: if attached {
            references_of(p)
        } else {
            "ResolvedRefs"@
        },
    }
}

fn rule(why: Attachment, attached: bool, p: &RoutePlan) -> (r: Ruling)
    ensures
        r@ == ruled(why, attached, *p),
{
    let message = match why {
        Attachment::NoMatchingParent => "No matching listener".to_owned(),
        Attachment::NotAllowed => "Listener is invalid or does not allow this route".to_owned(),
        Attachment::NoMatchingHostname => "Route and listener hostnames do not intersect".to_owned(),
        Attachment::Attached => match &p.failed {
            Some(m) => m.clone(),
            None => if p.stale {
                "Previous valid plugin and route retained after compilation failure".to_owned()
            } else {
                "Route accepted".to_owned()
            },
        },
    };
    let references: &str = if !attached {
        "ResolvedRefs"
    } else if p.failed.is_some() {
        "InvalidPolicy"
    } else {
        match p.problem {
            Some(e) => e.text(),
            None => "ResolvedRefs",
        }
    };
    Ruling {
        accepted: attached && p.failed.is_none(),
        reason: why.text(p.failed.is_some()).to_owned(),
        message,
        resolved: !attached || (p.failed.is_none() && p.problem.is_none()),
        references: references.to_owned(),
    }
}

/// What is said of a route that is not placed at all.
pub open spec fn not_placed(message: Seq<char>) -> Word {
    Word {
        accepted: false,
        reason: "UnsupportedValue"@,
        message,
        resolved: true,
        references: "ResolvedRefs"@,
    }
}

/// What is said of a route that cannot be prepared: it is not placed at all.
pub fn refuse(message: &str) -> (r: Ruling)
    ensures
        r@ == not_placed(message@),
{
    Ruling {
        accepted: false,
        reason: "UnsupportedValue".to_owned(),
        message: message.to_owned(),
        resolved: true,
        references: "ResolvedRefs".to_owned(),
    }
}

// ---------------------------------------------------------------------------
// Placing
// ---------------------------------------------------------------------------

/// A routing table that is being filled.
#[derive(Debug)]
pub struct Placing {
    pub listeners: Vec<Json>,
    pub fates: Vec<Fate>,
    pub table: Vec<ListenerRoutes>,
    /// The listener that each part of the table belongs to.
    pub at: Vec<usize>,
    pub attached: Vec<Attached>,
}

/// The table, and which routes are attached to which listener.
#[verifier::ext_equal]
pub ghost struct Chart {
    pub racks: Seq<Rack>,
    pub bonds: Seq<Origin>,
}

pub open spec fn bonded(v: Seq<Origin>, o: Origin) -> Seq<Origin> {
    if v.contains(o) {
        v
    } else {
        v.push(o)
    }
}

/// The table with the entries of a route at the parts of it that are listed.
pub open spec fn filled(c: Chart, listeners: Seq<Json>, at: Seq<usize>, p: RoutePlan, found: Seq<int>) -> Chart
    decreases found.len(),
{
    if found.len() == 0 {
        c
    } else {
        let before = filled(c, listeners, at, p, found.drop_last());
        let k = found.last();
        let l = at[k] as int;
        Chart {
            racks: before.racks.update(
                k,
                Rack {
                    rows: before.racks[k].rows + rows_at(p, l as nat, listeners[l]),
                    ..before.racks[k]
                },
            ),
            bonds: bonded(before.bonds, p.at(l as nat)),
        }
    }
}

proof fn lemma_attached_places(
    r: Resources,
    parent: Reference,
    v: Seq<Json>,
    active: Seq<Active>,
    gateway_ns: Seq<char>,
    ns: Seq<char>,
    kind: Seq<char>,
    hostnames: Seq<Seq<char>>,
)
    ensures
        ({
            let found = attached_all(r, parent, v, active, gateway_ns, ns, kind, hostnames).1;
            forall|i: int| 0 <= i < found.len() ==> 0 <= #[trigger] found[i] < active.len()
        }),
    decreases active.len(),
{
    if active.len() > 0 {
        lemma_attached_places(
            r,
            parent,
            v,
            active.drop_last(),
            gateway_ns,
            ns,
            kind,
            hostnames,
        );
        let before = attached_all(
            r,
            parent,
            v,
            active.drop_last(),
            gateway_ns,
            ns,
            kind,
            hostnames,
        ).1;
        let found = attached_all(r, parent, v, active, gateway_ns, ns, kind, hostnames).1;
        assert(found == before || found == before.push(active.len() - 1));
        assert forall|i: int| 0 <= i < found.len() implies 0 <= #[trigger] found[i] < active.len() by {
            if i < before.len() {
                assert(found[i] == before[i]);
            }
        }
    }
}

impl Placing {
    pub open spec fn wf(&self) -> bool {
        &&& self.fates@.len() == self.listeners@.len()
        &&& self.table@.len() == self.at@.len()
        &&& forall|i: int| 0 <= i < self.at@.len() ==> #[trigger] self.at@[i] < self.listeners@.len()
    }

    pub open spec fn chart(&self) -> Chart {
        Chart { racks: racks(self.table@), bonds: bonds(self.attached@) }
    }

    /// What becomes of a route at the listeners that one of its parents leads to.
    pub open spec fn found(&self, r: Resources, s: Served, parent: Reference, p: RoutePlan) -> (
        Attachment,
        Seq<int>,
    ) {
        attached_all(
            r,
            parent,
            self.listeners@,
            actives(self.at@, self.fates@),
            s.namespace@,
            p.ns@,
            p.kind@,
            texts(p.hostnames@),
        )
    }

    /// A table without routes.
    pub fn start(listeners: Vec<Json>, examined: &Vec<Examined>, fates: Vec<Fate>) -> (r: Placing)
        requires
            examined@.len() == listeners@.len(),
            fates@.len() == listeners@.len(),
        ensures
            r.wf(),
            r.listeners == listeners,
            r.fates == fates,
            (r.chart().racks, places(r.at@)) == table_of(
                listeners@,
                examined@,
                listeners@.len() as int,
            ),
            r.chart().bonds == Seq::<Origin>::empty(),
    {
        let (table, at) = table(&listeners, examined);
        let r = Placing { listeners, fates, table, at, attached: Vec::new() };
        assert(r.chart().bonds =~= Seq::empty());
        r
    }

    pub fn active(&self) -> (out: Vec<Active>)
        requires
            self.wf(),
        ensures
            out@ == actives(self.at@, self.fates@),
    {
        let mut out: Vec<Active> = Vec::new();
        let mut i: usize = 0;
        while i < self.at.len()
            invariant
                i <= self.at.len(),
                self.wf(),
                out@ == actives(self.at@, self.fates@).take(i as int),
            decreases self.at.len() - i,
        {
            out.push(Active { listener: self.at[i], valid: self.fates[self.at[i]].valid });
            i += 1;
            assert(out@ =~= actives(self.at@, self.fates@).take(i as int));
        }
        assert(actives(self.at@, self.fates@).take(i as int) =~= actives(self.at@, self.fates@));
        out
    }

    fn fill(&mut self, k: usize, p: &RoutePlan)
        requires
            old(self).wf(),
            k < old(self).table@.len(),
            sound_rules(p.rules@, p.grpc()),
        ensures
            final(self).wf(),
            final(self).listeners == old(self).listeners,
            final(self).fates == old(self).fates,
            final(self).at == old(self).at,
            ({
                let c = old(self).chart();
                let l = old(self).at@[k as int] as int;
                final(self).chart() == (Chart {
                    racks: c.racks.update(
                        k as int,
                        Rack {
                            rows: c.racks[k as int].rows + rows_at(
                                *p,
                                l as nat,
                                old(self).listeners@[l],
                            ),
                            ..c.racks[k as int]
                        },
                    ),
                    bonds: bonded(c.bonds, p.at(l as nat)),
                })
            }),
    {
        let ghost before = racks(self.table@);
        let l = self.at[k];
        let address = self.table[k].address;
        let hostname = self.table[k].hostname.clone();
        let mut entries: Vec<Entry> = Vec::new();
        std::mem::swap(&mut entries, &mut self.table[k].entries);
        add_entries(&mut entries, p, l, &self.listeners[l]);
        let x = ListenerRoutes { address, hostname, entries };
        let ghost y = x@;
        self.table.set(k, x);
        proof {
            assert(racks(self.table@) =~= before.update(k as int, y));
        }
        attach_once(&mut self.attached, l, p.kind.as_str(), p.ns.as_str(), p.name.as_str());
    }

    /// Places a route at the listeners that one of its parents leads to, and says what became of it there.
    pub fn place(&mut self, resources: &Resources, s: &Served, parent: &Reference, p: &RoutePlan) -> (r:
        Ruling)
        requires
            old(self).wf(),
            sound_rules(p.rules@, p.grpc()),
        ensures
            final(self).wf(),
            final(self).listeners == old(self).listeners,
            final(self).fates == old(self).fates,
            final(self).at == old(self).at,
            ({
                let (why, found) = old(self).found(*resources, *s, *parent, *p);
                &&& final(self).chart() == filled(
                    old(self).chart(),
                    old(self).listeners@,
                    old(self).at@,
                    *p,
                    found,
                )
                &&& r@ == ruled(why, found.len() > 0, *p)
            }),
    {
        let active = self.active();
        let ghost start = self.chart();
        let ghost (listeners, at) = (self.listeners@, self.at@);
        let (why, found) = attach(
            resources,
            parent,
            &self.listeners,
            &active,
            s.namespace.as_str(),
            p.ns.as_str(),
            p.kind.as_str(),
            &p.hostnames,
        );
        let ghost all = places(found@);
        proof {
            lemma_attached_places(
                *resources,
                *parent,
                self.listeners@,
                active@,
                s.namespace@,
                p.ns@,
                p.kind@,
                texts(p.hostnames@),
            );
        }
        let mut i: usize = 0;
        assert(all.take(0) =~= Seq::empty());
        while i < found.len()
            invariant
                i <= found.len(),
                self.wf(),
                sound_rules(p.rules@, p.grpc()),
                all == places(found@),
                self.listeners == old(self).listeners,
                self.fates == old(self).fates,
                self.at == old(self).at,
                listeners == self.listeners@,
                at == self.at@,
                active@.len() == self.at@.len(),
                forall|j: int| 0 <= j < all.len() ==> 0 <= #[trigger] all[j] < active@.len(),
                self.chart() == filled(start, listeners, at, *p, all.take(i as int)),
            decreases found.len() - i,
        {
            proof {
                assert(all.take(i + 1).drop_last() =~= all.take(i as int));
                assert(all.take(i + 1).last() == all[i as int]);
                assert(all[i as int] == found@[i as int]);
            }
            self.fill(found[i], p);
            i += 1;
        }
        assert(all.take(i as int) =~= all);
        rule(why, found.len() > 0, p)
    }

    /// How many routes are attached to the listener of a place.
    pub fn count(&self, listener: usize) -> (n: usize)
        ensures
            n == attached_at(self.chart().bonds, listener as nat),
    {
        count_attached(&self.attached, listener)
    }
}

// ---------------------------------------------------------------------------
// The order of routes
// ---------------------------------------------------------------------------

/// A route by its kind and its place among those of the kind.
pub open spec fn route_at(n: int, i: int) -> (bool, int) {
    if i < n {
        (false, i)
    } else {
        (true, i - n)
    }
}

pub open spec fn routes_at(v: Seq<(bool, usize)>) -> Seq<(bool, int)> {
    Seq::new(v.len(), |i: int| (v[i].0, v[i].1 as int))
}

/// The routes, the oldest first, those of HTTP before those of gRPC that are as old: whether each is one of
/// gRPC, and its place among those of its kind.
pub fn in_order(http: &Vec<Object>, grpc: &Vec<Object>) -> (out: Vec<(bool, usize)>)
    ensures
        exists|w: Seq<Age>| #[trigger]
            ages(http@ + grpc@, w) && routes_at(out@) == by_age(w, w.len() as int).map(
                |k: int, i: int| route_at(http@.len() as int, i),
            ),
{
    let mut list = object_ages(http);
    let ghost first = list@;
    let mut more = object_ages(grpc);
    let ghost second = more@;
    list.append(&mut more);
    let ghost all = first + second;
    proof {
        assert(list@ == all);
        assert forall|i: int| 0 <= i < (http@ + grpc@).len() implies crate::ingress::resources::age_of(
            (http@ + grpc@)[i].created,
            (http@ + grpc@)[i].namespace,
            (http@ + grpc@)[i].name,
            #[trigger] all[i],
        ) by {
            if i < http@.len() {
                assert(all[i] == first[i]);
            } else {
                assert(all[i] == second[i - http@.len()]);
            }
        }
        assert(ages(http@ + grpc@, all));
    }
    let order = oldest_first(&list);
    let ghost goal = by_age(all, all.len() as int).map(
        |k: int, i: int| route_at(http@.len() as int, i),
    );
    let mut out: Vec<(bool, usize)> = Vec::new();
    let mut i: usize = 0;
    assert(routes_at(out@) =~= goal.take(0));
    while i < order.len()
        invariant
            i <= order.len(),
            indexes(order@) == by_age(all, all.len() as int),
            goal == by_age(all, all.len() as int).map(
                |k: int, i: int| route_at(http@.len() as int, i),
            ),
            routes_at(out@) == goal.take(i as int),
        decreases order.len() - i,
    {
        let k = order[i];
        let ghost before = routes_at(out@);
        assert(indexes(order@)[i as int] == k);
        if k < http.len() {
            out.push((false, k));
        } else {
            out.push((true, k - http.len()));
        }
        assert(routes_at(out@) =~= before.push(goal[i as int]));
        i += 1;
        assert(routes_at(out@) =~= goal.take(i as int));
    }
    assert(goal.take(i as int) =~= goal);
    out
}

// ---------------------------------------------------------------------------
// Laws
// ---------------------------------------------------------------------------

/// Each listener that has an address is in the table with its host name, whether it is valid or not: no
/// broader listener takes its requests.
pub proof fn law_listeners_keep_their_hosts(v: Seq<Json>, e: Seq<Examined>, n: int, i: int)
    requires
        0 <= i < n,
        e[i].address is Some,
    ensures
        ({
            let (t, at) = table_of(v, e, n);
            exists|k: int|
                0 <= k < t.len() && #[trigger] at[k] == i && t[k].address == e[i].address->0
                    && t[k].hostname == v[i].string_or("hostname"@, ""@)
        }),
        table_of(v, e, n).0.len() == table_of(v, e, n).1.len(),
    decreases n,
{
    lemma_table(v, e, n);
    let (t, at) = table_of(v, e, n);
    if i < n - 1 {
        law_listeners_keep_their_hosts(v, e, n - 1, i);
        let (u, bt) = table_of(v, e, n - 1);
        let k = choose|k: int|
            0 <= k < u.len() && #[trigger] bt[k] == i && u[k].address == e[i].address->0 && u[k].hostname
                == v[i].string_or("hostname"@, ""@);
        assert(at[k] == i && t[k] == u[k]);
    } else {
        lemma_table(v, e, n - 1);
        assert(at[t.len() - 1] == i);
    }
}

proof fn lemma_table(v: Seq<Json>, e: Seq<Examined>, n: int)
    ensures
        table_of(v, e, n).0.len() == table_of(v, e, n).1.len(),
    decreases n,
{
    if n > 0 {
        lemma_table(v, e, n - 1);
    }
}

/// A route that is placed stays as it is where it was, and no listener is lost: entries only come behind
/// those that are there.
pub proof fn law_placed_routes_stay(
    c: Chart,
    listeners: Seq<Json>,
    at: Seq<usize>,
    p: RoutePlan,
    found: Seq<int>,
    k: int,
)
    requires
        0 <= k < c.racks.len(),
        forall|i: int| 0 <= i < found.len() ==> 0 <= #[trigger] found[i] < c.racks.len(),
    ensures
        ({
            let d = filled(c, listeners, at, p, found);
            &&& d.racks.len() == c.racks.len()
            &&& d.racks[k].address == c.racks[k].address && d.racks[k].hostname == c.racks[k].hostname
            &&& c.racks[k].rows.is_prefix_of(d.racks[k].rows)
        }),
    decreases found.len(),
{
    if found.len() > 0 {
        law_placed_routes_stay(c, listeners, at, p, found.drop_last(), k);
        let before = filled(c, listeners, at, p, found.drop_last());
        let d = filled(c, listeners, at, p, found);
        assert(c.racks[k].rows.is_prefix_of(d.racks[k].rows)) by {
            if found.last() == k {
                assert(d.racks[k].rows.take(c.racks[k].rows.len() as int) =~= before.racks[k].rows.take(
                    c.racks[k].rows.len() as int,
                ));
            }
        }
    }
}

/// Rules that were checked can be placed: each of their matches has paths.
pub proof fn law_checked_rules_can_be_placed(v: Seq<Rule>, grpc: bool, mirroring: bool)
    requires
        rules_checked(v, grpc, mirroring) is Ok,
    ensures
        sound_rules(v, grpc),
    decreases v.len(),
{
    if v.len() > 0 {
        law_checked_rules_can_be_placed(v.drop_last(), grpc, mirroring);
        let r = v.last();
        lemma_checked_matches(r.matches@, r.filters@, grpc);
        assert forall|i: int, k: int| 0 <= i < v.len() && 0 <= k < v[i].matches@.len() implies (
        #[trigger] v[i].matches@[k]).paths(grpc) is Ok by {
            if i < v.len() - 1 {
                assert(v.drop_last()[i].matches@[k].paths(grpc) is Ok);
            }
        }
    }
}

proof fn lemma_checked_matches(w: Seq<Match>, v: Seq<crate::gateway::spec::Filter>, grpc: bool)
    ensures
        matches_checked(w, v, grpc) is Ok ==> forall|k: int|
            0 <= k < w.len() ==> (#[trigger] w[k]).paths(grpc) is Ok,
    decreases w.len(),
{
    if w.len() > 0 {
        lemma_checked_matches(w.drop_last(), v, grpc);
        if matches_checked(w, v, grpc) is Ok {
            assert forall|k: int| 0 <= k < w.len() implies (#[trigger] w[k]).paths(grpc) is Ok by {
                if k < w.len() - 1 {
                    assert(w.drop_last()[k].paths(grpc) is Ok);
                }
            }
        }
    }
}

/// A route that is attached and whose policies hold is accepted; what is wrong with its backends is told apart.
pub proof fn law_attached_routes_are_accepted(p: RoutePlan, e: RefError)
    ensures
        p.failed is None && p.problem is None ==> {
            let w = ruled(Attachment::Attached, true, p);
            &&& w.accepted && w.resolved && w.reason == "Accepted"@ && w.references == "ResolvedRefs"@
            &&& !p.stale ==> w.message == "Route accepted"@
        },
        p.failed is None && p.problem == Some(e) ==> {
            let w = ruled(Attachment::Attached, true, p);
            &&& w.accepted && !w.resolved && w.references == e.spec_text()
        },
        p.failed is Some ==> {
            let w = ruled(Attachment::Attached, true, p);
            &&& !w.accepted && !w.resolved && w.reason == "UnsupportedValue"@ && w.message == p.failed->0@
            &&& w.references == "InvalidPolicy"@
        },
{
}

/// A route that is not attached is not accepted, and told why.
pub proof fn law_unattached_routes_are_refused(p: RoutePlan)
    ensures
        !ruled(Attachment::NoMatchingParent, false, p).accepted,
        ruled(Attachment::NoMatchingParent, false, p).reason == "NoMatchingParent"@,
        ruled(Attachment::NotAllowed, false, p).reason == "NotAllowedByListeners"@,
        ruled(Attachment::NoMatchingHostname, false, p).reason == "NoMatchingListenerHostname"@,
        !ruled(Attachment::NotAllowed, false, p).accepted,
        !ruled(Attachment::NoMatchingHostname, false, p).accepted,
{
}

/// An entry is of its route's age, kind and place, and takes what its match says, all requests where it has none.
pub proof fn law_entries_take_their_matches(p: RoutePlan, s: Spot)
    ensures
        row_of(p, s).hostname == s.hostname,
        row_of(p, s).route_id == s.route_id,
        row_of(p, s).grpc <==> p.kind@ == "GRPCRoute"@,
        row_of(p, s).order == (p.created@, p.ns@, p.name@, s.rule, s.matcher),
        p.rules@[s.rule as int].matches@.len() > 0 ==> row_of(p, s).matcher == p.rules@[s.rule as int].matches@[
            s.matcher as int
        ]@,
        p.rules@[s.rule as int].matches@.len() == 0 ==> row_of(p, s).matcher == any_request() && row_of(
            p,
            s,
        ).paths == Matcher::IngressPrefix("/"@),
{
}

/// A route is placed behind what the listener has, and in no other.
pub proof fn law_routes_are_placed_at_their_listener(
    c: Chart,
    listeners: Seq<Json>,
    at: Seq<usize>,
    p: RoutePlan,
    k: int,
    j: int,
)
    requires
        0 <= k < c.racks.len(),
        0 <= j < c.racks.len(),
    ensures
        ({
            let d = filled(c, listeners, at, p, seq![k]);
            let l = at[k] as int;
            &&& d.racks[k].rows == c.racks[k].rows + rows_at(p, l as nat, listeners[l])
            &&& j != k ==> d.racks[j] == c.racks[j]
            &&& d.bonds.contains(p.at(l as nat))
        }),
{
    let v = seq![k];
    assert(v.drop_last() =~= Seq::empty());
    reveal_with_fuel(filled, 2);
    let l = at[k] as int;
    let o = p.at(l as nat);
    if !c.bonds.contains(o) {
        assert(c.bonds.push(o).last() == o);
    }
}

} // verus!

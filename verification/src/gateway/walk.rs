//! A walk over all routes, the oldest first: what is found out next of a route, what is reported of it, and
//! where it is placed.
use crate::backend::{Access, Approach, Manner, Options, Profile, Rules, Setup, Spread};
use crate::gateway::attachment::{parent_targets, targets, Bound, Links};
use crate::gateway::placing::{not_placed, refuse, sound_rules, Placing, RoutePlan, Ruling, Word};
use crate::gateway::preparing::{
    enter, entered, law_placed_routes_have_paths, tally, Failure, Prepared, Question, Tally, TrafficWish,
    Upshot,
};
use crate::gateway::reach::{shapes, Asker, Cluster};
use crate::gateway::references::{Object, Resources};
use crate::gateway::report::{on_record, parent_status, parent_tree, route_status, withdraws, Report};
use crate::gateway::scripts::ScriptError;
use crate::gateway::serving::{
    all_links, all_placed, leads, problem_of, rules_bound, serve, words, Traffic,
};
use crate::gateway::spec::{Reference, RouteSpec, Rule};
use crate::gateway::status::Served;
use crate::identity::IdentityPolicy;
use crate::ingress::dependencies::treating;
use crate::ingress::policy::{given, Annotated, Readings};
use crate::ingress::reaching::{access, approach_of, pair_of};
use crate::ingress::round::{at, first_of, lemma_absent, lemma_first, lemma_push, lemma_update};
use crate::ingress::routes::{Quota, Usage};
use crate::json::{trees, Json, Tree};
use crate::text;
use crate::text::texts;
use vstd::prelude::*;

verus! {

// ---------------------------------------------------------------------------
// What a walk goes by
// ---------------------------------------------------------------------------

/// A route that has its turn; its namespace is empty where it has none.
#[derive(Debug)]
pub struct Candidate {
    pub object: Object,
    pub kind: String,
    pub ns: String,
    pub uid: String,
    pub created: String,
    pub parents: Vec<Reference>,
    /// What the route asks for, where that can be read.
    pub spec: Option<RouteSpec>,
    /// Whether an administrator lets the namespace have routes.
    pub granted: bool,
    pub now: String,
}

impl Candidate {
    pub open spec fn grpc(self) -> bool {
        self.kind@ == "GRPCRoute"@
    }
}

/// What is known of a route once its script was looked for: what is kept of it, and what is known of its
/// policies elsewhere.
pub struct Known {
    pub script: Result<(), ScriptError>,
    /// Whether an older script is kept, with the rules and annotations of that time.
    pub stale: bool,
    pub rules: Vec<Rule>,
    pub hostnames: Vec<String>,
    pub annotations: Vec<(String, String)>,
    pub quota: Option<Quota>,
    pub domain: bool,
    pub resources: bool,
    pub traffic: Option<Option<TrafficWish>>,
    /// Whether the progress of the policy on traffic can be read.
    pub progress: bool,
    pub readings: Readings,
    pub ca_pem: Option<String>,
    pub certificate: Option<(String, String)>,
}

/// Where a walk has got to.
#[derive(Debug)]
pub enum Pause {
    /// The next route can have its turn.
    Idle,
    /// The script of a route has to be looked for.
    Scripting(Candidate),
    /// It has to be put into words why a route cannot be prepared; `kept` are the rules and the hosts of one
    /// that is placed all the same.
    Wording {
        route: Candidate,
        kept: Option<(Vec<Rule>, Vec<String>)>,
        stale: bool,
        why: Failure,
    },
}

/// A walk over all routes.
#[derive(Debug)]
pub struct Walk {
    pub served: Served,
    /// The namespaces that are watched; all where there is none.
    pub namespaces: Vec<String>,
    /// Whether an administrator limits namespaces.
    pub tenants: bool,
    pub cluster: Cluster,
    pub identity: IdentityPolicy,
    pub placing: Placing,
    pub backends: Vec<(String, Setup)>,
    pub accounts: Vec<(String, Usage)>,
    /// The routes that have the gateway for a parent, by their identities.
    pub live: Vec<String>,
    pub pause: Pause,
}

/// What happened.
pub enum WalkEvent {
    Begin(Candidate),
    Looked(Known),
    Worded(String),
}

/// What has to be done next.
#[derive(Debug)]
pub enum WalkAction {
    /// The route is not the gateway's: the next has its turn.
    Skip,
    /// What is on record of the route has to be withdrawn: the next has its turn.
    Withdraw(Json),
    /// The script of the route has to be looked for.
    Look,
    /// It has to be put into words why the route cannot be prepared.
    Word(Failure),
    /// The route is placed with its policies and its backends, and this is reported: the next has its turn.
    Placed(Annotated, Vec<Bound>, Json),
    /// This is reported of a route that cannot be prepared: the next has its turn.
    Reported(Json),
    /// What happened does not belong here, and changes nothing.
    Misplaced,
}

// ---------------------------------------------------------------------------
// What namespaces ask for
// ---------------------------------------------------------------------------

pub open spec fn tallies(v: Seq<(String, Usage)>) -> Seq<(Seq<char>, Tally)> {
    Seq::new(v.len(), |i: int| (v[i].0@, tally(v[i].1)))
}

pub open spec fn no_tally() -> Tally {
    Tally { routes: 0, ways: 0, backends: Seq::empty() }
}

pub open spec fn tally_of(v: Seq<(Seq<char>, Tally)>, ns: Seq<char>) -> Tally {
    match at(v, ns) {
        Some(t) => t,
        None => no_tally(),
    }
}

/// Whether the account of a namespace is now another, and all others are as they were.
pub open spec fn accounted(
    was: Seq<(Seq<char>, Tally)>,
    new: Seq<(Seq<char>, Tally)>,
    ns: Seq<char>,
    t: Tally,
) -> bool {
    forall|other: Seq<char>|
        #![trigger tally_of(new, other)]
        tally_of(new, other) == if other == ns {
            t
        } else {
            tally_of(was, other)
        }
}

/// Finds the account of a namespace, or opens one, and says where it is.
fn open_account(accounts: &mut Vec<(String, Usage)>, name: &str) -> (i: usize)
    ensures
        i < final(accounts)@.len(),
        first_of(tallies(final(accounts)@), i as int, name@),
        forall|other: Seq<char>|
            #![trigger tally_of(tallies(final(accounts)@), other)]
            tally_of(tallies(final(accounts)@), other) == tally_of(tallies(old(accounts)@), other),
{
    let ghost before = tallies(accounts@);
    let ghost ns = name@;
    let mut i: usize = 0;
    while i < accounts.len()
        invariant
            i <= accounts.len(),
            ns == name@,
            before == tallies(accounts@),
            forall|j: int| 0 <= j < i ==> (#[trigger] before[j]).0 != ns,
        decreases accounts.len() - i,
    {
        assert(before[i as int].0 == accounts@[i as int].0@);
        if text::same(accounts[i].0.as_str(), name) {
            return i;
        }
        i += 1;
    }
    let empty: Vec<String> = Vec::new();
    assert(texts(empty@) =~= Seq::empty());
    accounts.push((name.to_owned(), Usage { ingresses: 0, routes: 0, backends: empty }));
    proof {
        lemma_absent(before, ns);
        let ready = tallies(accounts@);
        assert(ready =~= before.push((ns, no_tally())));
        assert forall|j: int| 0 <= j < i implies (#[trigger] ready[j]).0 != ns by {
            assert(before[j].0 != ns);
        }
        assert forall|other: Seq<char>|
            #![trigger tally_of(ready, other)]
            tally_of(ready, other) == tally_of(before, other) by {
            lemma_push(before, ns, no_tally(), other);
        }
    }
    i
}

fn prepare_for(
    accounts: &mut Vec<(String, Usage)>,
    q: &Question,
    script: Result<(), ScriptError>,
    readings: &Readings,
    identity: &IdentityPolicy,
) -> (r: Prepared)
    ensures
        ({
            let was = tallies(old(accounts)@);
            let (t, upshot) = q.prepared(tally_of(was, q.ns@), script, *readings, *identity);
            r@ == upshot && accounted(was, tallies(final(accounts)@), q.ns@, t)
        }),
{
    let ghost before = tallies(accounts@);
    let ghost ns = q.ns@;
    let i = open_account(accounts, q.ns.as_str());
    let ghost ready = tallies(accounts@);
    proof {
        lemma_first(ready, i as int, ns);
        assert(ready[i as int].1 == tally(accounts@[i as int].1));
        assert(tally_of(ready, ns) == tally_of(before, ns));
    }
    let (key, mut u) = accounts.remove(i);
    assert(tally(u) == tally_of(before, ns));
    let r = q.prepare(&mut u, script, readings, identity);
    let ghost t = tally(u);
    accounts.insert(i, (key, u));
    proof {
        let after = tallies(accounts@);
        assert(after =~= ready.update(i as int, (ns, t)));
        assert forall|other: Seq<char>|
            #![trigger tally_of(after, other)]
            tally_of(after, other) == if other == ns {
                t
            } else {
                tally_of(before, other)
            } by {
            lemma_update(ready, i as int, ns, t, other);
            assert(tally_of(ready, other) == tally_of(before, other));
        }
    }
    r
}

// ---------------------------------------------------------------------------
// Parents and what they are told
// ---------------------------------------------------------------------------

/// The parents of a route that are the gateway, in order.
pub open spec fn own_refs(v: Seq<Reference>, ns: Seq<char>, s: Served) -> Seq<Reference>
    decreases v.len(),
{
    if v.len() == 0 {
        Seq::empty()
    } else if targets(v.last(), ns, s) {
        own_refs(v.drop_last(), ns, s).push(v.last())
    } else {
        own_refs(v.drop_last(), ns, s)
    }
}

fn keep_own(v: Vec<Reference>, ns: &str, s: &Served) -> (out: Vec<Reference>)
    ensures
        out@ == own_refs(v@, ns@, *s),
{
    let ghost all = v@;
    let ghost mut n: int = 0;
    let mut rest = v;
    let mut out: Vec<Reference> = Vec::new();
    assert(all.take(0) =~= Seq::empty());
    assert(all.skip(0) =~= all);
    while rest.len() > 0
        invariant
            0 <= n <= all.len(),
            rest@ == all.skip(n),
            out@ == own_refs(all.take(n), ns@, *s),
        decreases rest.len(),
    {
        let x = rest.remove(0);
        proof {
            assert(x == all[n]);
            assert(rest@ =~= all.skip(n + 1));
            assert(all.take(n + 1).drop_last() =~= all.take(n));
            assert(all.take(n + 1).last() == x);
            n = n + 1;
        }
        if parent_targets(&x, ns, s) {
            out.push(x);
        }
    }
    assert(all.take(n) =~= all);
    out
}

proof fn lemma_all_told(p: Placing, r: Resources, s: Served, v: Seq<Reference>, plan: RoutePlan)
    ensures
        all_placed(p, r, s, v, plan).1.len() == v.len(),
    decreases v.len(),
{
    if v.len() > 0 {
        lemma_all_told(p, r, s, v.drop_last(), plan);
    }
}

/// What is reported of a route to its parents.
pub open spec fn status_of(r: Report, s: Served, v: Seq<Reference>, w: Seq<Word>, stale: bool) -> Tree {
    Tree::Object(
        seq![
            (
                "parents"@,
                Tree::List(Seq::new(v.len(), |i: int| parent_tree(r, s, v[i], w[i], stale))),
            ),
        ],
    )
}

fn status_json(r: &Report, s: &Served, v: &Vec<Reference>, w: &Vec<Ruling>, stale: bool) -> (j: Json)
    requires
        w@.len() == v@.len(),
    ensures
        j.tree() == status_of(*r, *s, v@, words(w@), stale),
{
    let ghost goal = Seq::new(v@.len(), |i: int| parent_tree(*r, *s, v@[i], words(w@)[i], stale));
    let mut out: Vec<Json> = Vec::new();
    let mut i: usize = 0;
    assert(trees(out@) =~= goal.take(0));
    while i < v.len()
        invariant
            i <= v.len(),
            w@.len() == v@.len(),
            goal == Seq::new(v@.len(), |i: int| parent_tree(*r, *s, v@[i], words(w@)[i], stale)),
            trees(out@) == goal.take(i as int),
        decreases v.len() - i,
    {
        let ghost before = trees(out@);
        let j = parent_status(r, s, &v[i], &w[i], stale);
        assert(j.tree() == goal[i as int]);
        out.push(j);
        assert(trees(out@) =~= before.push(goal[i as int]));
        i += 1;
        assert(trees(out@) =~= goal.take(i as int));
    }
    assert(goal.take(i as int) =~= goal);
    route_status(out)
}

/// What is said to all parents of a route that is not placed.
pub open spec fn all_refused(n: nat, message: Seq<char>) -> Seq<Word> {
    Seq::new(n, |i: int| not_placed(message))
}

fn refuse_all(n: usize, message: &str) -> (out: Vec<Ruling>)
    ensures
        out@.len() == n,
        words(out@) == all_refused(n as nat, message@),
{
    let mut out: Vec<Ruling> = Vec::new();
    while out.len() < n
        invariant
            out@.len() <= n,
            forall|j: int| 0 <= j < out@.len() ==> (#[trigger] out@[j])@ == not_placed(message@),
        decreases n - out.len(),
    {
        out.push(refuse(message));
    }
    assert(words(out@) =~= all_refused(n as nat, message@));
    out
}

// ---------------------------------------------------------------------------
// Steps
// ---------------------------------------------------------------------------

/// Whether nothing changed of what a walk goes by.
pub open spec fn same_ground(was: Walk, new: Walk) -> bool {
    &&& new.served == was.served
    &&& new.namespaces == was.namespaces
    &&& new.tenants == was.tenants
    &&& new.cluster == was.cluster
    &&& new.identity == was.identity
}

/// Whether nothing is placed or reached that was not.
pub open spec fn places_nothing(was: Walk, new: Walk) -> bool {
    new.placing == was.placing && shapes(new.backends@) == shapes(was.backends@)
}

pub open spec fn keeps_accounts(was: Walk, new: Walk) -> bool {
    tallies(new.accounts@) == tallies(was.accounts@)
}

/// A route without a parent that is the gateway is passed over; one that has such a parent is looked at.
pub open spec fn begun(was: Walk, new: Walk, c: Candidate, a: WalkAction) -> bool {
    let own = own_refs(c.parents@, c.ns@, was.served);
    let enters = entered(texts(was.namespaces@), c.ns@, was.tenants, c.granted, c.spec);
    &&& places_nothing(was, new)
    &&& keeps_accounts(was, new)
    &&& if own.len() == 0 {
        &&& texts(new.live@) == texts(was.live@)
        &&& new.pause is Idle
        &&& if on_record(c.object, was.served) {
            a matches WalkAction::Withdraw(j) && j.tree() == Tree::Object(
                seq![("parents"@, Tree::List(Seq::empty()))],
            )
        } else {
            a is Skip
        }
    } else {
        &&& texts(new.live@) == texts(was.live@).push(c.uid@)
        &&& match enters {
            Ok(_) => a is Look && match new.pause {
                Pause::Scripting(d) => d == (Candidate { parents: d.parents, ..c }) && d.parents@ == own,
                _ => false,
            },
            Err(f) => a == WalkAction::Word(f) && match new.pause {
                Pause::Wording { route: d, kept, stale, why } => d == (Candidate {
                    parents: d.parents,
                    ..c
                }) && d.parents@ == own && kept is None && !stale && why == f,
                _ => false,
            },
        }
    }
}

/// A route with the rules and hosts that are kept of it, for the table.
pub open spec fn plan_of(c: Candidate, rules: Vec<Rule>, hostnames: Vec<String>, failed: Option<String>, stale: bool) -> RoutePlan {
    RoutePlan {
        kind: c.kind,
        ns: c.ns,
        name: c.object.name,
        created: c.created,
        rules,
        hostnames,
        failed,
        stale,
        problem: None,
    }
}

/// What a route asks for, with what is known of it elsewhere.
pub open spec fn question_of(w: Walk, c: Candidate, k: Known) -> Question {
    Question {
        ns: c.ns,
        grpc: c.grpc(),
        rules: k.rules,
        hostnames: k.hostnames,
        listeners: w.placing.at@.len() as usize,
        annotations: k.annotations,
        quota: k.quota,
        domain: k.domain,
        resources: k.resources,
        traffic: k.traffic,
    }
}

pub open spec fn traffic_of(k: Known) -> Option<Traffic> {
    match k.traffic {
        Some(Some(t)) => Some(Traffic { services: t.aliases, readable: k.progress }),
        _ => None,
    }
}

/// A route comes into the table, its backends are reached, and what is said to its parents is reported.
pub open spec fn serves(
    was: Walk,
    new: Walk,
    c: Candidate,
    plan: RoutePlan,
    x: Approach,
    traffic: Option<Traffic>,
    links: Seq<Links>,
    j: Json,
) -> bool {
    let r = was.cluster.resources;
    let a = Asker { uid: c.uid@, ns: plan.ns@, kind: plan.kind@ };
    let (known, bound) = if plan.failed is None && leads(was.placing, r, was.served, c.parents@, plan) {
        rules_bound(shapes(was.backends@), was.cluster, plan.rules@, a, x, traffic)
    } else {
        (shapes(was.backends@), Seq::empty())
    };
    let whole = RoutePlan { problem: problem_of(bound), ..plan };
    let (chart, said) = all_placed(was.placing, r, was.served, c.parents@, whole);
    &&& new.placing.listeners == was.placing.listeners
    &&& new.placing.fates == was.placing.fates
    &&& new.placing.at == was.placing.at
    &&& new.placing.chart() == chart
    &&& shapes(new.backends@) == known
    &&& links == bound
    &&& j.tree() == status_of(
        Report { generation: c.object.generation, now: c.now },
        was.served,
        c.parents@,
        said,
        plan.stale,
    )
}

/// A route that can be prepared is placed; one whose policies cannot be carried out, or that cannot be
/// placed, is told so.
pub open spec fn looked(was: Walk, new: Walk, c: Candidate, k: Known, a: WalkAction) -> bool {
    let q = question_of(was, c, k);
    let (t, upshot) = q.prepared(
        tally_of(tallies(was.accounts@), c.ns@),
        k.script,
        k.readings,
        was.identity,
    );
    let stale = k.stale && k.script is Ok;
    &&& texts(new.live@) == texts(was.live@)
    &&& accounted(tallies(was.accounts@), tallies(new.accounts@), c.ns@, t)
    &&& match upshot {
        Upshot::Ready(d) => new.pause is Idle && match a {
            WalkAction::Placed(settings, bound, j) => settings@ == d && serves(
                was,
                new,
                c,
                plan_of(c, k.rules, k.hostnames, None, stale),
                approach_of(d, text::opt(k.ca_pem), pair_of(k.certificate)),
                traffic_of(k),
                all_links(bound@),
                j,
            ),
            _ => false,
        },
        Upshot::Rejected(f) => places_nothing(was, new) && a == WalkAction::Word(f) && new.pause
            == (Pause::Wording { route: c, kept: Some((k.rules, k.hostnames)), stale, why: f }),
        Upshot::Refused(f) => places_nothing(was, new) && a == WalkAction::Word(f) && new.pause
            == (Pause::Wording { route: c, kept: None, stale, why: f }),
    }
}

/// How backends are reached without any policy.
pub open spec fn plain_approach() -> Approach {
    Approach {
        tls: false,
        options: Rules { balance: Spread::RoundRobin, max_inflight: 0, health: None },
        profile: Manner { http2: false, identity: None, server_name: None, ca_pem: None },
    }
}

/// A route that cannot be prepared is told why. One whose policies cannot be carried out is placed all the
/// same, without backends.
pub open spec fn worded(
    was: Walk,
    new: Walk,
    c: Candidate,
    kept: Option<(Vec<Rule>, Vec<String>)>,
    stale: bool,
    message: String,
    a: WalkAction,
) -> bool {
    &&& texts(new.live@) == texts(was.live@)
    &&& keeps_accounts(was, new)
    &&& new.pause is Idle
    &&& a matches WalkAction::Reported(j) && match kept {
        None => places_nothing(was, new) && j.tree() == status_of(
            Report { generation: c.object.generation, now: c.now },
            was.served,
            c.parents@,
            all_refused(c.parents@.len(), message@),
            stale,
        ),
        Some((rules, hostnames)) => serves(
            was,
            new,
            c,
            plan_of(c, rules, hostnames, Some(message), stale),
            plain_approach(),
            None,
            Seq::empty(),
            j,
        ),
    }
}

/// How a walk goes on once something happened.
pub open spec fn walked(was: Walk, new: Walk, e: WalkEvent, a: WalkAction) -> bool {
    &&& same_ground(was, new)
    &&& match (was.pause, e) {
        (Pause::Idle, WalkEvent::Begin(c)) => begun(was, new, c, a),
        (Pause::Scripting(c), WalkEvent::Looked(k)) => looked(was, new, c, k, a),
        (Pause::Wording { route, kept, stale, why }, WalkEvent::Worded(m)) => worded(
            was,
            new,
            route,
            kept,
            stale,
            m,
            a,
        ),
        _ => a is Misplaced && new.pause == was.pause && places_nothing(was, new)
            && keeps_accounts(was, new) && texts(new.live@) == texts(was.live@),
    }
}

impl Walk {
    pub open spec fn wf(&self) -> bool {
        &&& self.placing.wf()
        &&& self.pause matches Pause::Wording { route, kept: Some((rules, _)), .. } ==> sound_rules(
            rules@,
            route.grpc(),
        )
    }

    /// Begins a walk over the routes of a gateway with a table of its listeners.
    pub fn new(
        served: Served,
        namespaces: Vec<String>,
        tenants: bool,
        cluster: Cluster,
        identity: IdentityPolicy,
        placing: Placing,
    ) -> (w: Walk)
        requires
            placing.wf(),
        ensures
            w.wf(),
            w.served == served,
            w.namespaces == namespaces,
            w.tenants == tenants,
            w.cluster == cluster,
            w.identity == identity,
            w.placing == placing,
            w.backends@.len() == 0,
            w.accounts@.len() == 0,
            w.live@.len() == 0,
            w.pause is Idle,
    {
        Walk {
            served,
            namespaces,
            tenants,
            cluster,
            identity,
            placing,
            backends: Vec::new(),
            accounts: Vec::new(),
            live: Vec::new(),
            pause: Pause::Idle,
        }
    }

    fn begin(&mut self, c: Candidate) -> (a: WalkAction)
        requires
            old(self).wf(),
            old(self).pause is Idle,
        ensures
            final(self).wf(),
            same_ground(*old(self), *final(self)),
            begun(*old(self), *final(self), c, a),
    {
        let ghost was = *self;
        let mut c = c;
        let ghost whole = c;
        let mut all: Vec<Reference> = Vec::new();
        std::mem::swap(&mut all, &mut c.parents);
        c.parents = keep_own(all, c.ns.as_str(), &self.served);
        if c.parents.len() == 0 {
            if withdraws(&c.object, &self.served) {
                let none: Vec<Json> = Vec::new();
                assert(trees(none@) =~= Seq::empty());
                return WalkAction::Withdraw(route_status(none));
            }
            return WalkAction::Skip;
        }
        self.live.push(c.uid.clone());
        assert(texts(self.live@) =~= texts(was.live@).push(whole.uid@));
        match enter(&self.namespaces, c.ns.as_str(), self.tenants, c.granted, &c.spec) {
            Ok(_) => {
                self.pause = Pause::Scripting(c);
                WalkAction::Look
            },
            Err(f) => {
                self.pause = Pause::Wording { route: c, kept: None, stale: false, why: f };
                WalkAction::Word(f)
            },
        }
    }

    /// Places a route and says what is reported of it.
    fn put(
        &mut self,
        c: Candidate,
        rules: Vec<Rule>,
        hostnames: Vec<String>,
        failed: Option<String>,
        stale: bool,
        x: &Access,
        traffic: &Option<Traffic>,
    ) -> (r: (Vec<Bound>, Json))
        requires
            old(self).wf(),
            old(self).pause is Idle,
            sound_rules(rules@, c.grpc()),
        ensures
            final(self).wf(),
            final(self).pause is Idle,
            same_ground(*old(self), *final(self)),
            final(self).accounts == old(self).accounts,
            final(self).live == old(self).live,
            serves(
                *old(self),
                *final(self),
                c,
                plan_of(c, rules, hostnames, failed, stale),
                x@,
                *traffic,
                all_links(r.0@),
                r.1,
            ),
    {
        let ghost was = *self;
        let report = Report { generation: c.object.generation, now: c.now };
        let plan = RoutePlan {
            kind: c.kind,
            ns: c.ns,
            name: c.object.name,
            created: c.created,
            rules,
            hostnames,
            failed,
            stale,
            problem: None,
        };
        let ghost first = plan;
        let (said, bound) = serve(
            &mut self.placing,
            &mut self.backends,
            &self.cluster,
            &self.served,
            &c.parents,
            plan,
            c.uid.as_str(),
            x,
            traffic,
        );
        proof {
            let whole = RoutePlan { problem: problem_of(all_links(bound@)), ..first };
            lemma_all_told(was.placing, was.cluster.resources, was.served, c.parents@, whole);
            assert(words(said@).len() == said@.len());
        }
        let j = status_json(&report, &self.served, &c.parents, &said, stale);
        (bound, j)
    }

    fn look(&mut self, c: Candidate, k: Known) -> (a: WalkAction)
        requires
            old(self).wf(),
            old(self).pause is Idle,
        ensures
            final(self).wf(),
            same_ground(*old(self), *final(self)),
            looked(*old(self), *final(self), c, k, a),
    {
        let ghost was = *self;
        let ghost known = k;
        let ghost route = c;
        let mut c = c;
        let stale = k.stale && k.script.is_ok();
        let grpc = text::same(c.kind.as_str(), "GRPCRoute");
        let mut ns = String::new();
        std::mem::swap(&mut ns, &mut c.ns);
        let q = Question {
            ns,
            grpc,
            rules: k.rules,
            hostnames: k.hostnames,
            listeners: self.placing.at.len(),
            annotations: k.annotations,
            quota: k.quota,
            domain: k.domain,
            resources: k.resources,
            traffic: k.traffic,
        };
        assert(q == question_of(was, route, known));
        let ghost t = tally_of(tallies(was.accounts@), route.ns@);
        let r = prepare_for(&mut self.accounts, &q, k.script, &k.readings, &self.identity);
        proof {
            if r@ !is Refused {
                law_placed_routes_have_paths(q, t, known.script, known.readings, was.identity);
            }
        }
        c.ns = q.ns;
        assert(c == route);
        match r {
            Prepared::Ready(d) => {
                let traffic = match q.traffic {
                    Some(Some(t)) => Some(Traffic { services: t.aliases, readable: k.progress }),
                    _ => None,
                };
                assert(traffic == traffic_of(known));
                let x = access(&d, &k.ca_pem, &k.certificate);
                let (bound, j) = self.put(c, q.rules, q.hostnames, None, stale, &x, &traffic);
                WalkAction::Placed(d, bound, j)
            },
            Prepared::Rejected(f) => {
                self.pause = Pause::Wording {
                    route: c,
                    kept: Some((q.rules, q.hostnames)),
                    stale,
                    why: f,
                };
                WalkAction::Word(f)
            },
            Prepared::Refused(f) => {
                self.pause = Pause::Wording { route: c, kept: None, stale, why: f };
                WalkAction::Word(f)
            },
        }
    }

    fn word(
        &mut self,
        c: Candidate,
        kept: Option<(Vec<Rule>, Vec<String>)>,
        stale: bool,
        message: String,
    ) -> (a: WalkAction)
        requires
            old(self).wf(),
            old(self).pause is Idle,
            kept matches Some((rules, _)) ==> sound_rules(rules@, c.grpc()),
        ensures
            final(self).wf(),
            same_ground(*old(self), *final(self)),
            worded(*old(self), *final(self), c, kept, stale, message, a),
    {
        match kept {
            None => {
                let said = refuse_all(c.parents.len(), message.as_str());
                let report = Report { generation: c.object.generation, now: c.now };
                WalkAction::Reported(status_json(&report, &self.served, &c.parents, &said, stale))
            },
            Some((rules, hostnames)) => {
                let x = Access {
                    tls: false,
                    options: Options::default(),
                    profile: Profile { http2: false, identity: None, server_name: None, ca_pem: None },
                };
                assert(x@ =~= plain_approach());
                let (_, j) = self.put(c, rules, hostnames, Some(message), stale, &x, &None);
                WalkAction::Reported(j)
            },
        }
    }

    /// How the walk goes on once something happened.
    #[verifier::rlimit(60)]
    pub fn next(&mut self, event: WalkEvent) -> (a: WalkAction)
        requires
            old(self).wf(),
        ensures
            final(self).wf(),
            walked(*old(self), *final(self), event, a),
    {
        let ghost was = *self;
        let mut pause = Pause::Idle;
        std::mem::swap(&mut pause, &mut self.pause);
        match (pause, event) {
            (Pause::Idle, WalkEvent::Begin(c)) => {
                let a = self.begin(c);
                assert(begun(was, *self, c, a));
                a
            },
            (Pause::Scripting(c), WalkEvent::Looked(k)) => {
                let a = self.look(c, k);
                assert(looked(was, *self, c, k, a));
                a
            },
            (Pause::Wording { route, kept, stale, why }, WalkEvent::Worded(m)) => {
                let a = self.word(route, kept, stale, m);
                assert(worded(was, *self, route, kept, stale, m, a));
                a
            },
            (pause, _) => {
                self.pause = pause;
                WalkAction::Misplaced
            },
        }
    }
}

// ---------------------------------------------------------------------------
// Laws
// ---------------------------------------------------------------------------

/// Routes are placed once their script was looked for, and told why they cannot be prepared once that is in
/// words.
pub proof fn law_walks_go_in_order(was: Walk, new: Walk, e: WalkEvent, a: WalkAction)
    requires
        walked(was, new, e, a),
    ensures
        a is Look ==> was.pause is Idle,
        a is Placed ==> was.pause is Scripting,
        a is Reported ==> was.pause is Wording,
        new.placing != was.placing ==> was.pause is Scripting || was.pause is Wording,
{
}

/// The listeners of the table stay as they are.
pub proof fn law_walks_keep_listeners(was: Walk, new: Walk, e: WalkEvent, a: WalkAction)
    requires
        walked(was, new, e, a),
    ensures
        new.placing.listeners == was.placing.listeners,
        new.placing.fates == was.placing.fates,
        new.placing.at == was.placing.at,
{
}

/// A route that asks for certificates of clients is not placed with its policies: listeners verify clients,
/// and routes do not.
pub proof fn law_routes_that_verify_clients_are_not_placed(was: Walk, new: Walk, c: Candidate, k: Known, a: WalkAction)
    requires
        looked(was, new, c, k, a),
        given(treating(text::pairs(k.annotations@)), "rgnix.io/verify-client"@) || given(
            treating(text::pairs(k.annotations@)),
            "rgnix.io/client-ca-secret"@,
        ),
    ensures
        a is Word,
{
}

/// A route whose policies cannot be carried out takes its requests all the same, and reaches no backend.
pub proof fn law_rejected_routes_reach_nothing(
    was: Walk,
    new: Walk,
    c: Candidate,
    kept: Option<(Vec<Rule>, Vec<String>)>,
    stale: bool,
    message: String,
    a: WalkAction,
)
    requires
        worded(was, new, c, kept, stale, message, a),
    ensures
        shapes(new.backends@) == shapes(was.backends@),
{
}

/// A route that has the Gateway for no parent is passed over, or what is on record of it is withdrawn; it is
/// not among the live ones.
pub proof fn law_foreign_routes_are_passed_over(was: Walk, new: Walk, c: Candidate, a: WalkAction)
    requires
        was.pause is Idle,
        walked(was, new, WalkEvent::Begin(c), a),
        forall|i: int| 0 <= i < c.parents@.len() ==> !targets(#[trigger] c.parents@[i], c.ns@, was.served),
    ensures
        texts(new.live@) == texts(was.live@),
        on_record(c.object, was.served) ==> a is Withdraw,
        !on_record(c.object, was.served) ==> a is Skip,
{
    lemma_own_refs(c.parents@, c.ns@, was.served);
}

/// A route with the Gateway for a parent is live, whether or not it can be placed.
pub proof fn law_own_routes_are_live(was: Walk, new: Walk, c: Candidate, a: WalkAction, i: int)
    requires
        was.pause is Idle,
        walked(was, new, WalkEvent::Begin(c), a),
        0 <= i < c.parents@.len(),
        targets(c.parents@[i], c.ns@, was.served),
    ensures
        texts(new.live@) == texts(was.live@).push(c.uid@),
        a is Look || a is Word,
        a is Look ==> new.pause is Scripting,
        a is Word ==> new.pause is Wording,
{
    lemma_own_refs(c.parents@, c.ns@, was.served);
    assert(own_refs(c.parents@, c.ns@, was.served).contains(c.parents@[i]));
}

proof fn lemma_own_refs(v: Seq<Reference>, ns: Seq<char>, s: Served)
    ensures
        forall|i: int| #![trigger v[i]] 0 <= i < v.len() && targets(v[i], ns, s) ==> own_refs(v, ns, s).contains(v[i]),
        (forall|i: int| 0 <= i < v.len() ==> !targets(#[trigger] v[i], ns, s)) ==> own_refs(v, ns, s).len() == 0,
    decreases v.len(),
{
    if v.len() > 0 {
        let u = v.drop_last();
        let b = own_refs(u, ns, s);
        let w = own_refs(v, ns, s);
        lemma_own_refs(u, ns, s);
        assert forall|i: int| #![trigger v[i]] 0 <= i < v.len() && targets(v[i], ns, s) implies w.contains(v[i]) by {
            if i < u.len() {
                assert(u[i] == v[i]);
                assert(b.contains(u[i]));
                let k = choose|k: int| 0 <= k < b.len() && b[k] == u[i];
                assert(w[k] == v[i]);
            } else {
                assert(w[w.len() - 1] == v[i]);
            }
        }
        if forall|i: int| 0 <= i < v.len() ==> !targets(#[trigger] v[i], ns, s) {
            assert forall|i: int| 0 <= i < u.len() implies !targets(#[trigger] u[i], ns, s) by {
                assert(u[i] == v[i]);
            }
            assert(v[v.len() - 1] == v.last());
        }
    }
}

/// A route is placed by its rules and for its hosts, reaches its backends as its own policies say, and counts
/// as stale where an older script is kept.
pub proof fn law_placed_routes_go_by_their_policies(was: Walk, new: Walk, c: Candidate, k: Known, a: WalkAction)
    requires
        looked(was, new, c, k, a),
        a is Placed,
    ensures
        new.pause is Idle,
        serves(
            was,
            new,
            c,
            plan_of(c, k.rules, k.hostnames, None, k.stale && k.script is Ok),
            approach_of(a->Placed_0@, text::opt(k.ca_pem), pair_of(k.certificate)),
            traffic_of(k),
            all_links(a->Placed_1@),
            a->Placed_2,
        ),
{
}

/// A refused route is told to each of its parents with the same words, and is not accepted by any.
pub proof fn law_refused_routes_are_told_to_each_parent(n: nat, message: Seq<char>, i: int)
    requires
        0 <= i < n,
    ensures
        all_refused(n, message).len() == n,
        all_refused(n, message)[i].message == message,
        !all_refused(n, message)[i].accepted,
{
}

} // verus!

//! The turns of Ingresses in a round: what is found out next of an Ingress, and what its routes have in
//! common.
use crate::backend::{Options, Rules, Spread};
use crate::body::BodyPolicy;
use crate::config::settings::{copy_pairs, default_values, Settings, Values};
use crate::identity::IdentityPolicy;
use crate::ingress::backends::{BackendProblem, ServiceObject, SliceObject};
use crate::ingress::history::{routing_of, Past, Ruling, Verdict};
use crate::ingress::policy::{parse, parsed, Annotated, Draft, Readings, Verdicts, Verify};
use crate::ingress::reaching::{
    access, all_sites, approach_of, lemma_traffic_named, pair_of, reach_ingress, services_of, sites,
    traffic_services, Site,
};
use crate::ingress::round::{
    complete, counts, decides, past_of, settles, usual_fields, Round,
};
use crate::ingress::routes::Demand;
use crate::ingress::serving::{
    aliases_of, effective_of, name_backends, named_backends, outcome_of, targets_of, traffic_aliases,
    Answers, Asked, Tenancy,
};
use crate::model::copy_opt;
use crate::text;
use crate::text::{pairs, texts};
use vstd::prelude::*;

verus! {

// ---------------------------------------------------------------------------
// What the routes of an Ingress have in common
// ---------------------------------------------------------------------------

/// What the routes of an Ingress have in common: what its policy sets, its script, and the backends that
/// they may name.
#[derive(Debug)]
pub struct Holding {
    pub policy: Annotated,
    pub script: Option<String>,
    pub allowed: Vec<(String, String)>,
}

/// What a `Holding` holds.
#[verifier::ext_equal]
pub ghost struct Stake {
    pub policy: Draft,
    pub script: Option<Seq<char>>,
    pub allowed: Seq<(Seq<char>, Seq<char>)>,
}

impl View for Holding {
    type V = Stake;

    open spec fn view(&self) -> Stake {
        Stake { policy: self.policy@, script: text::opt(self.script), allowed: pairs(self.allowed@) }
    }
}

pub open spec fn stakes(v: Seq<Holding>) -> Seq<Stake> {
    Seq::new(v.len(), |i: int| v[i]@)
}

/// What a policy that cannot be read sets: nothing.
pub open spec fn no_policy() -> Draft {
    Draft {
        settings: default_values(),
        upstream: Rules { balance: Spread::RoundRobin, max_inflight: 0, health: None },
        tls: false,
        http2: false,
        server_name: None,
        rate: None,
        concurrency: None,
        verify: Verify::Off,
    }
}

/// What the policy in effect for an Ingress sets. The policy on bodies is that of what was accepted, whose
/// word on the address of a client is taken is said elsewhere, and backends get the usual fields. Ceilings
/// that administrators set are applied elsewhere.
pub open spec fn policy_set(p: Past, values: Seq<(Seq<char>, Seq<char>)>, r: Verdicts, identity: IdentityPolicy) -> Draft {
    let d = match parsed(effective_of(p, values), r) {
        Ok(d) => d,
        Err(_) => no_policy(),
    };
    Draft {
        settings: Values {
            body_policy: match p.accepted {
                Some(g) => g.body_policy,
                None => d.settings.body_policy,
            },
            trusted: identity.trusted@,
            real_ip_header: identity.header@,
            real_ip_recursive: identity.recursive,
            request_headers: usual_fields(),
            ..d.settings
        },
        ..d
    }
}

/// What is found out for an Ingress that was decided on.
pub struct Findings {
    /// What is read of the policy in effect elsewhere.
    pub readings: Readings,
    pub identity: IdentityPolicy,
    /// Whether all that the policy in effect refers to is there.
    pub ready: bool,
    /// Whether the namespace may have the names that the Ingress claims.
    pub domains: bool,
    /// Whether the policy in effect asks for copies of requests.
    pub copies: bool,
    /// The services that traffic goes to by the policy in effect.
    pub traffic: Vec<String>,
    /// The authorities that may vouch for backends.
    pub ca_pem: Option<String>,
    /// The certificate that backends are shown, with its key.
    pub certificate: Option<(String, String)>,
}

/// What the routes of an Ingress have in common once it is settled; nothing where the services that its
/// traffic goes to cannot be read.
pub open spec fn stake_of(p: Past, a: Asked, v: Ruling, tenancy: Tenancy, f: Findings) -> Option<Stake> {
    let forbidden = f.copies && tenancy is Limited && !tenancy->Limited_0.allow_mirroring;
    let invalid = outcome_of(p, v, f.ready, tenancy).0 || forbidden;
    let e = effective_of(p, pairs(a.values@));
    match traffic_aliases(texts(f.traffic@)) {
        None => None,
        Some(more) => Some(
            Stake {
                policy: policy_set(p, pairs(a.values@), f.readings@, f.identity),
                script: if invalid {
                    None
                } else {
                    v.script
                },
                allowed: named_backends(
                    a.namespace@,
                    a.name@,
                    e.len() > 0,
                    aliases_of(targets_of(routing_of(p, v.reuse, a.spec@))) + more,
                ),
            },
        ),
    }
}

fn set_policy(
    values: &Vec<(String, String)>,
    body: Option<BodyPolicy>,
    f: &Findings,
) -> (r: Annotated)
    ensures
        ({
            let d = match parsed(pairs(values@), f.readings@) {
                Ok(d) => d,
                Err(_) => no_policy(),
            };
            r@ == (Draft {
                settings: Values {
                    body_policy: match body {
                        Some(b) => b,
                        None => d.settings.body_policy,
                    },
                    trusted: f.identity.trusted@,
                    real_ip_header: f.identity.header@,
                    real_ip_recursive: f.identity.recursive,
                    request_headers: usual_fields(),
                    ..d.settings
                },
                ..d
            })
        }),
{
    let mut r = match parse(values, &f.readings) {
        Ok(a) => a,
        Err(_) => {
            let a = Annotated {
                settings: Settings::default(),
                upstream: Options::default(),
                tls: false,
                http2: false,
                server_name: None,
                rate: None,
                concurrency: None,
                verify: Verify::Off,
            };
            assert(a@ =~= no_policy());
            a
        },
    };
    if let Some(b) = body {
        r.settings.body_policy = b;
    }
    complete(&mut r.settings, &f.identity);
    r
}

// ---------------------------------------------------------------------------
// Turns
// ---------------------------------------------------------------------------

/// Where a turn has got to.
#[derive(Debug)]
pub enum TurnStage {
    /// The next Ingress can have its turn.
    Idle,
    /// It has to be found out what is known of an Ingress, by its place among all.
    Deciding(usize, Asked, Tenancy),
    /// It has to be found out what the policy in effect refers to.
    Settling(usize, Asked, Tenancy, Verdict),
    /// The round cannot go on.
    Failed,
}

/// A round, in which one Ingress after the other has its turn.
#[derive(Debug)]
pub struct Turns {
    pub services: Vec<ServiceObject>,
    pub slices: Vec<SliceObject>,
    pub round: Round,
    /// What the routes of each Ingress that is settled have in common.
    pub holdings: Vec<Holding>,
    /// The backends that Ingresses named.
    pub sites: Vec<Site>,
    /// What is wrong with backends, by the place of the Ingress among all.
    pub problems: Vec<(usize, BackendProblem)>,
    pub stage: TurnStage,
}

pub open spec fn faults(owner: usize, v: Seq<BackendProblem>) -> Seq<(usize, BackendProblem)> {
    Seq::new(v.len(), |i: int| (owner, v[i]))
}

/// Whether nothing changed of what turns lead to, and of what they go by.
pub open spec fn idles(was: Turns, new: Turns) -> bool {
    &&& new.services == was.services
    &&& new.slices == was.slices
    &&& stakes(new.holdings@) == stakes(was.holdings@)
    &&& sites(new.sites@) == sites(was.sites@)
    &&& new.problems@ == was.problems@
}

/// What happened.
pub enum TurnEvent {
    /// An Ingress has its turn: its place among all, what it asks for, and what it asks of its namespace.
    Begin(usize, Asked, Tenancy, Demand),
    Answered(Answers),
    Found(Findings),
}

/// What has to be done next.
#[derive(Debug)]
pub enum TurnAction {
    /// The namespace may not have the Ingress: the next has its turn.
    Skip,
    /// It has to be found out what is known of the Ingress.
    Ask,
    /// It has to be found out what this policy refers to.
    Follow(Vec<(String, String)>),
    /// The Ingress is settled: the next has its turn.
    Settled,
    Fail,
    /// What happened does not belong here, and changes nothing.
    Misplaced,
}

/// An Ingress whose namespace may have it is asked about; one that it may not have is passed over.
pub open spec fn begins(was: Turns, new: Turns, owner: usize, x: Asked, t: Tenancy, d: Demand, a: TurnAction) -> bool {
    &&& idles(was, new)
    &&& counts(was.round@, new.round@, owner, x.namespace@, t, d, a is Ask)
    &&& if a is Ask {
        new.stage == TurnStage::Deciding(owner, x, t)
    } else {
        new.stage is Idle && a is Skip
    }
}

/// Once an Ingress is decided on, what its policy refers to has to be found out.
pub open spec fn answers(was: Turns, new: Turns, owner: usize, x: Asked, t: Tenancy, k: Answers, a: TurnAction) -> bool {
    &&& idles(was, new)
    &&& new.stage matches TurnStage::Settling(o, y, u, v) && o == owner && y == x && u == t && decides(
        was.round@,
        new.round@,
        x,
        k,
        v@,
    )
    &&& a matches TurnAction::Follow(p) && pairs(p@) == effective_of(
        past_of(new.round@.past, x.uid@),
        pairs(x.values@),
    )
}

/// Once an Ingress is settled, it holds what its routes have in common, and its backends are reached, unless
/// its namespace may not have the names that it claims.
pub open spec fn finds(
    was: Turns,
    new: Turns,
    owner: usize,
    x: Asked,
    t: Tenancy,
    v: Verdict,
    f: Findings,
    a: TurnAction,
) -> bool {
    let p = past_of(was.round@.past, x.uid@);
    let own = effective_of(p, pairs(x.values@)).len() > 0;
    &&& settles(was.round@, new.round@, owner, x, v@, t, f.ready, f.domains, f.copies)
    &&& match stake_of(p, x, v@, t, f) {
        Some(y) if f.domains => {
            let (w, told) = all_sites(
                sites(was.sites@),
                was.services@,
                was.slices@,
                x.namespace@,
                x.name@,
                own,
                services_of(targets_of(routing_of(p, v@.reuse, x.spec@))) + traffic_services(
                    texts(f.traffic@),
                )->0,
                approach_of(y.policy, text::opt(f.ca_pem), pair_of(f.certificate)),
            );
            &&& new.services == was.services
            &&& new.slices == was.slices
            &&& stakes(new.holdings@) == stakes(was.holdings@).push(y)
            &&& sites(new.sites@) == w
            &&& new.problems@ == was.problems@ + faults(owner, told)
            &&& new.stage is Idle
            &&& a is Settled
        },
        None if f.domains => idles(was, new) && new.stage is Failed && a is Fail,
        _ => idles(was, new) && new.stage is Idle && a is Settled,
    }
}

/// How turns go on once something happened: an Ingress is counted for its namespace, decided on and settled,
/// in this order, and then the next has its turn.
pub open spec fn turned(was: Turns, new: Turns, e: TurnEvent, a: TurnAction) -> bool {
    match (was.stage, e) {
        (TurnStage::Idle, TurnEvent::Begin(owner, x, t, d)) => begins(was, new, owner, x, t, d, a),
        (TurnStage::Deciding(owner, x, t), TurnEvent::Answered(k)) => answers(
            was,
            new,
            owner,
            x,
            t,
            k,
            a,
        ),
        (TurnStage::Settling(owner, x, t, v), TurnEvent::Found(f)) => finds(
            was,
            new,
            owner,
            x,
            t,
            v,
            f,
            a,
        ),
        _ => a is Misplaced && new.stage == was.stage && new.round@ == was.round@ && idles(was, new),
    }
}

impl Turns {
    /// Begins the turns of a round.
    pub fn new(round: Round, services: Vec<ServiceObject>, slices: Vec<SliceObject>) -> (r: Turns)
        ensures
            r.round == round,
            r.services == services,
            r.slices == slices,
            r.holdings@.len() == 0,
            r.sites@.len() == 0,
            r.problems@.len() == 0,
            r.stage is Idle,
    {
        Turns {
            services,
            slices,
            round,
            holdings: Vec::new(),
            sites: Vec::new(),
            problems: Vec::new(),
            stage: TurnStage::Idle,
        }
    }

    /// Notes what is wrong with the backends of an Ingress.
    fn note(&mut self, owner: usize, told: &Vec<BackendProblem>)
        ensures
            final(self).problems@ == old(self).problems@ + faults(owner, told@),
            *final(self) == (Turns { problems: final(self).problems, ..*old(self) }),
    {
        let ghost was = *self;
        let mut i: usize = 0;
        assert(was.problems@ + faults(owner, told@.take(0)) =~= was.problems@);
        while i < told.len()
            invariant
                i <= told.len(),
                self.problems@ == was.problems@ + faults(owner, told@.take(i as int)),
                *self == (Turns { problems: self.problems, ..was }),
            decreases told.len() - i,
        {
            self.problems.push((owner, told[i]));
            assert(faults(owner, told@.take(i + 1)) =~= faults(owner, told@.take(i as int)).push(
                (owner, told@[i as int]),
            ));
            assert(self.problems@ =~= was.problems@ + faults(owner, told@.take(i + 1)));
            i += 1;
        }
        assert(told@.take(i as int) =~= told@);
    }

    fn find(&mut self, owner: usize, x: Asked, t: Tenancy, v: Verdict, f: Findings) -> (a: TurnAction)
        ensures
            finds(*old(self), *final(self), owner, x, t, v, f, a),
    {
        let ghost was = *self;
        let ghost p = past_of(self.round@.past, x.uid@);
        let policy = copy_pairs(self.round.policy(&x));
        let body = self.round.body(x.uid.as_str());
        self.round.settle(owner, &x, &v, t, f.ready, f.domains, f.copies);
        if !f.domains {
            self.stage = TurnStage::Idle;
            return TurnAction::Settled;
        }
        let n = self.round.prepared.len();
        assert(self.round@.settled.len() == n);
        assert(n > 0);
        let last = &self.round.prepared[n - 1];
        assert(last@ == self.round@.settled.last());
        let own = policy.len() > 0;
        assert(pairs(policy@).len() == policy@.len());
        let allowed = match name_backends(
            x.namespace.as_str(),
            x.name.as_str(),
            own,
            &last.routing,
            &f.traffic,
        ) {
            None => {
                self.stage = TurnStage::Failed;
                return TurnAction::Fail;
            },
            Some(w) => w,
        };
        let script = if last.invalid {
            None
        } else {
            copy_opt(&v.script)
        };
        let h = Holding { policy: set_policy(&policy, body, &f), script, allowed };
        proof {
            assert(h@ =~= stake_of(p, x, v@, t, f)->0);
            lemma_traffic_named(texts(f.traffic@));
        }
        let ghost y = h@;
        let told = match reach_ingress(
            &mut self.sites,
            &self.services,
            &self.slices,
            x.namespace.as_str(),
            x.name.as_str(),
            own,
            &last.routing,
            &f.traffic,
            &access(&h.policy, &f.ca_pem, &f.certificate),
        ) {
            None => {
                self.stage = TurnStage::Failed;
                return TurnAction::Fail;
            },
            Some(told) => told,
        };
        self.note(owner, &told);
        self.holdings.push(h);
        assert(stakes(self.holdings@) =~= stakes(was.holdings@).push(y));
        self.stage = TurnStage::Idle;
        TurnAction::Settled
    }

    /// How turns go on once something happened.
    pub fn next(&mut self, event: TurnEvent) -> (a: TurnAction)
        ensures
            turned(*old(self), *final(self), event, a),
    {
        let mut stage = TurnStage::Failed;
        std::mem::swap(&mut stage, &mut self.stage);
        match (stage, event) {
            (TurnStage::Idle, TurnEvent::Begin(owner, x, t, d)) => {
                let r = self.round.count(owner, x.namespace.as_str(), t, &d);
                if r {
                    self.stage = TurnStage::Deciding(owner, x, t);
                    TurnAction::Ask
                } else {
                    self.stage = TurnStage::Idle;
                    TurnAction::Skip
                }
            },
            (TurnStage::Deciding(owner, x, t), TurnEvent::Answered(k)) => {
                let v = self.round.decide(&x, &k);
                let p = copy_pairs(self.round.policy(&x));
                self.stage = TurnStage::Settling(owner, x, t, v);
                TurnAction::Follow(p)
            },
            (TurnStage::Settling(owner, x, t, v), TurnEvent::Found(f)) => self.find(
                owner,
                x,
                t,
                v,
                f,
            ),
            (stage, _) => {
                self.stage = stage;
                TurnAction::Misplaced
            },
        }
    }
}

// ---------------------------------------------------------------------------
// Laws
// ---------------------------------------------------------------------------

/// There is one thing that routes have in common for each Ingress that is settled, in the same order, as
/// long as the round goes on.
pub proof fn law_settled_ingresses_have_holdings(was: Turns, new: Turns, e: TurnEvent, a: TurnAction)
    requires
        turned(was, new, e, a),
        was.holdings@.len() == was.round@.settled.len(),
        new.stage !is Failed,
    ensures
        new.holdings@.len() == new.round@.settled.len(),
{
    assert(stakes(was.holdings@).len() == was.holdings@.len());
    assert(stakes(new.holdings@).len() == new.holdings@.len());
}

/// Ingresses are settled once they were decided on, and decided on once their namespace may have them.
pub proof fn law_turns_go_in_order(was: Turns, new: Turns, e: TurnEvent, a: TurnAction)
    requires
        turned(was, new, e, a),
    ensures
        a is Settled ==> was.stage is Settling,
        a is Follow ==> was.stage is Deciding,
        a is Ask ==> was.stage is Idle,
        new.round@.settled != was.round@.settled ==> was.stage is Settling,
        new.round@.seen != was.round@.seen ==> was.stage is Deciding,
{
}

/// A round that cannot go on stays as it is.
pub proof fn law_failed_rounds_stay(was: Turns, new: Turns, e: TurnEvent, a: TurnAction)
    requires
        turned(was, new, e, a),
        was.stage is Failed,
    ensures
        a is Misplaced,
        new.stage is Failed,
        new.round@ == was.round@,
        idles(was, new),
{
}

/// Routes of an Ingress that is not served run no script.
pub proof fn law_invalid_ingresses_run_no_script(p: Past, x: Asked, v: Ruling, t: Tenancy, f: Findings)
    requires
        outcome_of(p, v, f.ready, t).0,
        stake_of(p, x, v, t, f) is Some,
    ensures
        stake_of(p, x, v, t, f)->0.script is None,
{
}

/// Requests are taken to come from whom the controller is told to trust, whatever the policy says; and what
/// was accepted about bodies goes before the policy.
pub proof fn law_policies_do_not_choose_whom_to_trust(
    p: Past,
    values: Seq<(Seq<char>, Seq<char>)>,
    r: Verdicts,
    identity: IdentityPolicy,
)
    ensures
        policy_set(p, values, r, identity).settings.trusted == identity.trusted@,
        policy_set(p, values, r, identity).settings.real_ip_header == identity.header@,
        policy_set(p, values, r, identity).settings.real_ip_recursive == identity.recursive,
        p.accepted is Some ==> policy_set(p, values, r, identity).settings.body_policy == p.accepted->0.body_policy,
        p.accepted is None && parsed(effective_of(p, values), r) is Ok ==> policy_set(
            p,
            values,
            r,
            identity,
        ).settings.body_policy == parsed(effective_of(p, values), r)->Ok_0.settings.body_policy,
        parsed(effective_of(p, values), r) is Ok ==> policy_set(p, values, r, identity).upstream == parsed(
            effective_of(p, values),
            r,
        )->Ok_0.upstream,
        parsed(effective_of(p, values), r) is Err ==> !policy_set(p, values, r, identity).tls,
{
}

/// An Ingress whose namespace is refused is passed over, and any other is asked about.
pub proof fn law_refused_namespaces_are_passed_over(
    was: Turns,
    new: Turns,
    owner: usize,
    x: Asked,
    t: Tenancy,
    d: Demand,
    a: TurnAction,
)
    requires
        was.stage is Idle,
        turned(was, new, TurnEvent::Begin(owner, x, t, d), a),
    ensures
        t is Denied ==> a is Skip && new.stage is Idle,
        t is Free ==> a is Ask && new.stage == TurnStage::Deciding(owner, x, t),
{
}

/// An Ingress that asks for copies which its namespace may not make runs no script.
pub proof fn law_forbidden_copies_run_no_script(p: Past, x: Asked, v: Ruling, t: Tenancy, f: Findings)
    requires
        f.copies,
        t is Limited,
        !t->Limited_0.allow_mirroring,
        stake_of(p, x, v, t, f) is Some,
    ensures
        stake_of(p, x, v, t, f)->0.script is None,
{
}

} // verus!

//! How a route is prepared, one step after the other, and what becomes of one that cannot be.
use crate::gateway::attachment::{count_routes, route_count};
use crate::gateway::entries::{all_addresses, demand};
use crate::gateway::prepare::{
    check_namespace, check_rules, check_size, check_traffic, rules_checked, settings, settings_of,
    size_checked, traffic_checked, PrepareError, SettingsError,
};
use crate::gateway::scripts::ScriptError;
use crate::gateway::spec::{RouteSpec, Rule};
use crate::identity::IdentityPolicy;
use crate::ingress::policy::{Annotated, Draft, Readings};
use crate::ingress::routes::{admit_ingress, joined, Quota, Usage};
use crate::text;
use crate::text::texts;
use vstd::prelude::*;

verus! {

/// Why a route cannot be prepared.
#[derive(Clone, Copy, Debug, PartialEq, Eq, Structural)]
pub enum Failure {
    Checked(PrepareError),
    /// What the route asks for cannot be read.
    Unreadable,
    Script(ScriptError),
    /// The hosts of the route are somebody else's.
    Domain,
    Settings(SettingsError),
    /// Something that the annotations name cannot be had.
    Resources,
    /// The policy on traffic cannot be read.
    Traffic,
}

/// What a policy on traffic names, and whether it sends copies.
#[derive(Debug)]
pub struct TrafficWish {
    pub aliases: Vec<String>,
    pub mirror: bool,
}

/// A route that is prepared, and what is known of it elsewhere.
#[derive(Debug)]
pub struct Question {
    pub ns: String,
    pub grpc: bool,
    pub rules: Vec<Rule>,
    pub hostnames: Vec<String>,
    /// How many listeners have an address.
    pub listeners: usize,
    pub annotations: Vec<(String, String)>,
    pub quota: Option<Quota>,
    /// Whether the namespace may have the hosts.
    pub domain: bool,
    /// Whether what the annotations name can be had.
    pub resources: bool,
    /// The policy on traffic, where there is one; nothing in it where it cannot be read.
    pub traffic: Option<Option<TrafficWish>>,
}

/// What became of preparing a route.
#[derive(Debug)]
pub enum Prepared {
    Ready(Annotated),
    /// The route is placed, but what it asks for is not carried out: so no broader route takes its requests.
    Rejected(Failure),
    /// The route is not placed.
    Refused(Failure),
}

/// What a `Prepared` holds.
#[verifier::ext_equal]
pub ghost enum Upshot {
    Ready(Draft),
    Rejected(Failure),
    Refused(Failure),
}

impl View for Prepared {
    type V = Upshot;

    open spec fn view(&self) -> Upshot {
        match self {
            Prepared::Ready(a) => Upshot::Ready(a@),
            Prepared::Rejected(f) => Upshot::Rejected(*f),
            Prepared::Refused(f) => Upshot::Refused(*f),
        }
    }
}

/// Whether a route gets as far as its script: its namespace may have routes, what it asks for can be read,
/// and it is small enough.
pub open spec fn entered(
    namespaces: Seq<Seq<char>>,
    ns: Seq<char>,
    tenants: bool,
    granted: bool,
    spec: Option<RouteSpec>,
) -> Result<(), Failure> {
    if !crate::ingress::preflight::watched(namespaces, ns) {
        Err(Failure::Checked(PrepareError::OutOfScope))
    } else if tenants && !granted {
        Err(Failure::Checked(PrepareError::Denied))
    } else {
        match spec {
            None => Err(Failure::Unreadable),
            Some(s) => match size_checked(s.rules@.len(), texts(s.hostnames@)) {
                Err(e) => Err(Failure::Checked(e)),
                Ok(_) => Ok(()),
            },
        }
    }
}

/// Whether a route gets as far as its script.
pub fn enter(
    namespaces: &Vec<String>,
    ns: &str,
    tenants: bool,
    granted: bool,
    spec: &Option<RouteSpec>,
) -> (r: Result<(), Failure>)
    ensures
        r == entered(texts(namespaces@), ns@, tenants, granted, *spec),
{
    if let Err(e) = check_namespace(namespaces, ns, tenants, granted) {
        return Err(Failure::Checked(e));
    }
    match spec {
        None => Err(Failure::Unreadable),
        Some(s) => match check_size(s.rules.len(), &s.hostnames) {
            Err(e) => Err(Failure::Checked(e)),
            Ok(_) => Ok(()),
        },
    }
}

/// How much a namespace asks for already.
#[verifier::ext_equal]
pub ghost struct Tally {
    pub routes: nat,
    pub ways: nat,
    pub backends: Seq<Seq<char>>,
}

pub open spec fn tally(u: Usage) -> Tally {
    Tally { routes: u.ingresses as nat, ways: u.routes as nat, backends: texts(u.backends@) }
}

impl Question {
    pub open spec fn ways(&self) -> nat {
        route_count(self.rules@, self.hostnames@.len(), self.listeners as nat)
    }

    /// What the namespace asks for with the route.
    pub open spec fn added(&self, t: Tally) -> Tally {
        Tally {
            routes: t.routes + 1,
            ways: t.ways + self.ways(),
            backends: joined(t.backends, all_addresses(self.rules@, self.ns@)),
        }
    }

    /// Whether the route exceeds what its namespace may ask for.
    pub open spec fn over(&self, t: Tally) -> bool {
        self.quota matches Some(q) && {
            ||| t.routes >= q.max_ingresses
            ||| self.ways() > usize::MAX
            ||| t.ways + self.ways() > q.max_routes
            ||| joined(t.backends, all_addresses(self.rules@, self.ns@)).len() > q.max_backends
        }
    }

    pub open spec fn mirroring(&self) -> bool {
        self.quota matches Some(q) ==> q.allow_mirroring
    }

    /// What the route asks for, once its rules are known to be in order: its policies can be carried out, or
    /// it is rejected.
    pub open spec fn policies(&self, r: Readings, identity: IdentityPolicy) -> Upshot {
        match settings_of(text::pairs(self.annotations@), r@, identity, self.grpc) {
            Err(e) => Upshot::Rejected(Failure::Settings(e)),
            Ok(d) => if !self.resources {
                Upshot::Rejected(Failure::Resources)
            } else {
                match self.traffic {
                    None => Upshot::Ready(d),
                    Some(None) => Upshot::Rejected(Failure::Traffic),
                    Some(Some(t)) => match traffic_checked(
                        self.rules@,
                        texts(t.aliases@),
                        t.mirror,
                        self.mirroring(),
                        self.ns@,
                    ) {
                        Err(e) => Upshot::Rejected(Failure::Checked(e)),
                        Ok(_) => Upshot::Ready(d),
                    },
                }
            },
        }
    }

    /// What becomes of the route behind its script, and what its namespace asks for then.
    pub open spec fn prepared(
        &self,
        t: Tally,
        script: Result<(), ScriptError>,
        r: Readings,
        identity: IdentityPolicy,
    ) -> (Tally, Upshot) {
        if script is Err {
            (t, Upshot::Refused(Failure::Script(script->Err_0)))
        } else if !self.domain {
            (t, Upshot::Refused(Failure::Domain))
        } else if self.over(t) {
            (t, Upshot::Refused(Failure::Checked(PrepareError::Quota)))
        } else {
            let u = if self.quota is Some {
                self.added(t)
            } else {
                t
            };
            match rules_checked(self.rules@, self.grpc, self.mirroring()) {
                Err(e) => (u, Upshot::Refused(Failure::Checked(e))),
                Ok(_) => (u, self.policies(r, identity)),
            }
        }
    }

    fn count(&self, usage: &mut Usage) -> (r: bool)
        ensures
            r == !self.over(tally(*old(usage))),
            tally(*final(usage)) == if r && self.quota is Some {
                self.added(tally(*old(usage)))
            } else {
                tally(*old(usage))
            },
    {
        let q = match self.quota {
            None => return true,
            Some(q) => q,
        };
        let n = match count_routes(&self.rules, self.hostnames.len(), self.listeners) {
            None => return false,
            Some(n) => n,
        };
        let d = demand(&self.rules, self.ns.as_str(), n);
        admit_ingress(usage, &d, &q)
    }

    fn may_mirror(&self) -> (r: bool)
        ensures
            r == self.mirroring(),
    {
        match &self.quota {
            Some(q) => q.allow_mirroring,
            None => true,
        }
    }

    fn follow(&self, readings: &Readings, identity: &IdentityPolicy) -> (r: Prepared)
        ensures
            r@ == self.policies(*readings, *identity),
    {
        let a = match settings(&self.annotations, readings, identity, self.grpc) {
            Err(e) => return Prepared::Rejected(Failure::Settings(e)),
            Ok(a) => a,
        };
        if !self.resources {
            return Prepared::Rejected(Failure::Resources);
        }
        match &self.traffic {
            None => Prepared::Ready(a),
            Some(None) => Prepared::Rejected(Failure::Traffic),
            Some(Some(t)) => match check_traffic(
                &self.rules,
                &t.aliases,
                t.mirror,
                self.may_mirror(),
                self.ns.as_str(),
            ) {
                Err(e) => Prepared::Rejected(Failure::Checked(e)),
                Ok(_) => Prepared::Ready(a),
            },
        }
    }

    /// Prepares the route behind its script; `script` says what became of that. What its namespace asks for
    /// is counted where there is a limit.
    pub fn prepare(
        &self,
        usage: &mut Usage,
        script: Result<(), ScriptError>,
        readings: &Readings,
        identity: &IdentityPolicy,
    ) -> (r: Prepared)
        ensures
            (tally(*final(usage)), r@) == self.prepared(
                tally(*old(usage)),
                script,
                *readings,
                *identity,
            ),
    {
        if let Err(e) = script {
            return Prepared::Refused(Failure::Script(e));
        }
        if !self.domain {
            return Prepared::Refused(Failure::Domain);
        }
        if !self.count(usage) {
            return Prepared::Refused(Failure::Checked(PrepareError::Quota));
        }
        match check_rules(&self.rules, self.grpc, self.may_mirror()) {
            Err(e) => Prepared::Refused(Failure::Checked(e)),
            Ok(_) => self.follow(readings, identity),
        }
    }
}

// ---------------------------------------------------------------------------
// Laws
// ---------------------------------------------------------------------------

/// A route is placed only where its rules are in order, so that each of its matches has paths; also one
/// whose policies cannot be carried out.
pub proof fn law_placed_routes_have_paths(
    q: Question,
    t: Tally,
    script: Result<(), ScriptError>,
    r: Readings,
    identity: IdentityPolicy,
)
    requires
        q.prepared(t, script, r, identity).1 !is Refused,
    ensures
        crate::gateway::placing::sound_rules(q.rules@, q.grpc),
{
    crate::gateway::placing::law_checked_rules_can_be_placed(q.rules@, q.grpc, q.mirroring());
}

/// A namespace never asks for more than it may.
pub proof fn law_quotas_are_kept(
    q: Question,
    t: Tally,
    script: Result<(), ScriptError>,
    r: Readings,
    identity: IdentityPolicy,
    limit: Quota,
)
    requires
        q.quota == Some(limit),
        t.routes <= limit.max_ingresses,
        t.ways <= limit.max_routes,
        t.backends.len() <= limit.max_backends,
    ensures
        ({
            let u = q.prepared(t, script, r, identity).0;
            u.routes <= limit.max_ingresses && u.ways <= limit.max_routes && u.backends.len()
                <= limit.max_backends
        }),
{
}

/// A route is let in where its namespace is watched and, where namespaces are limited, granted; and where it
/// can be read.
pub proof fn law_routes_are_let_in(
    namespaces: Seq<Seq<char>>,
    ns: Seq<char>,
    tenants: bool,
    granted: bool,
    spec: Option<RouteSpec>,
)
    ensures
        namespaces.len() > 0 && !namespaces.contains(ns) ==> entered(namespaces, ns, tenants, granted, spec) == Err::<
            (),
            Failure,
        >(Failure::Checked(PrepareError::OutOfScope)),
        (namespaces.len() == 0 || namespaces.contains(ns)) && tenants && !granted ==> entered(
            namespaces,
            ns,
            tenants,
            granted,
            spec,
        ) == Err::<(), Failure>(Failure::Checked(PrepareError::Denied)),
        (namespaces.len() == 0 || namespaces.contains(ns)) && (tenants ==> granted) && spec is None ==> entered(
            namespaces,
            ns,
            tenants,
            granted,
            spec,
        ) == Err::<(), Failure>(Failure::Unreadable),
        (namespaces.len() == 0 || namespaces.contains(ns)) && (tenants ==> granted) && spec is Some && size_checked(
            spec->0.rules@.len(),
            texts(spec->0.hostnames@),
        ) is Ok ==> entered(namespaces, ns, tenants, granted, spec) is Ok,
{
}

/// A route whose script cannot be used, whose hosts are somebody else's or whose namespace is full is not
/// placed, and costs nothing.
pub proof fn law_refused_routes_cost_nothing(
    q: Question,
    t: Tally,
    e: ScriptError,
    r: Readings,
    identity: IdentityPolicy,
    limit: Quota,
)
    ensures
        q.prepared(t, Err(e), r, identity) == (t, Upshot::Refused(Failure::Script(e))),
        !q.domain ==> q.prepared(t, Ok(()), r, identity) == (t, Upshot::Refused(Failure::Domain)),
        q.domain && q.quota == Some(limit) && t.routes >= limit.max_ingresses ==> q.prepared(t, Ok(()), r, identity) == (
            t,
            Upshot::Refused(Failure::Checked(PrepareError::Quota)),
        ),
        q.domain && q.quota == Some(limit) && t.ways + q.ways() > limit.max_routes ==> q.prepared(
            t,
            Ok(()),
            r,
            identity,
        ) == (t, Upshot::Refused(Failure::Checked(PrepareError::Quota))),
        q.quota is None ==> q.prepared(t, Ok(()), r, identity).0 == t,
{
}

/// A route that may be placed is charged to its namespace, though its policies cannot be carried out.
pub proof fn law_placed_routes_are_charged(
    q: Question,
    t: Tally,
    r: Readings,
    identity: IdentityPolicy,
)
    requires
        q.quota is Some,
        q.prepared(t, Ok(()), r, identity).1 !is Refused,
    ensures
        q.prepared(t, Ok(()), r, identity).0.routes == t.routes + 1,
        q.prepared(t, Ok(()), r, identity).0.ways == t.ways + q.ways(),
        !q.resources ==> q.prepared(t, Ok(()), r, identity).1 is Rejected,
        q.traffic == Some(None::<TrafficWish>) ==> q.prepared(t, Ok(()), r, identity).1 is Rejected,
        !q.mirroring() && q.traffic is Some && q.traffic->0 is Some && (q.traffic->0)->0.mirror ==> q.prepared(
            t,
            Ok(()),
            r,
            identity,
        ).1 is Rejected,
{
}

} // verus!

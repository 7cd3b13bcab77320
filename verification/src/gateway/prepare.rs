//! Whether what a route asks for can be carried out.
use crate::config::settings::{copy_networks, Values};
use crate::gateway::attachment::named;
use crate::gateway::routes::{
    filtered, filters, hostname_valid, valid_hostname, FilterError, MatchError,
};
use crate::gateway::spec::{first_mirror, BackendRef, Filter, Match, Rule};
use crate::gateway::tls_policy::empty_or;
use crate::identity::IdentityPolicy;
use crate::ingress::dependencies::{annotations, treating};
use crate::ingress::policy::{
    given, parse, parsed, Annotated, Draft, PolicyError, Readings, Verdicts, Verify,
};
use crate::model::PathMatch;
use crate::tenancy::{label, namespace_name};
use crate::text;
use vstd::prelude::*;

verus! {

/// The most rules and the most host names of a route.
pub const MAX_RULES: usize = 64;

pub const MAX_HOSTNAMES: usize = 16;

#[derive(Clone, Copy, Debug, PartialEq, Eq, Structural)]
pub enum PrepareError {
    OutOfScope,
    Denied,
    TooLarge,
    Hostname,
    Quota,
    Timeouts,
    Mirroring,
    RuleName,
    Match(MatchError),
    Filter(FilterError),
    TwoMirrors,
    TrafficTarget,
    TrafficRedirect,
}

/// Whether a namespace may have routes at all: it is watched, and administrators do not deny it.
/// `tenants` says whether administrators name namespaces, and `granted` whether this one is named.
pub fn check_namespace(namespaces: &Vec<String>, ns: &str, tenants: bool, granted: bool) -> (r: Result<
    (),
    PrepareError,
>)
    ensures
        r == if !crate::ingress::preflight::watched(text::texts(namespaces@), ns@) {
            Err::<(), PrepareError>(PrepareError::OutOfScope)
        } else if tenants && !granted {
            Err(PrepareError::Denied)
        } else {
            Ok(())
        },
{
    assert(text::texts(namespaces@).len() == namespaces@.len());
    if namespaces.len() > 0 && !text::contains(namespaces, ns) {
        return Err(PrepareError::OutOfScope);
    }
    if tenants && !granted {
        return Err(PrepareError::Denied);
    }
    Ok(())
}

pub open spec fn all_hostnames(v: Seq<Seq<char>>) -> bool {
    forall|i: int| 0 <= i < v.len() ==> hostname_valid(#[trigger] v[i])
}

/// Whether a route is small enough, and its host names are ones.
pub open spec fn size_checked(rules: nat, hostnames: Seq<Seq<char>>) -> Result<(), PrepareError> {
    if rules > MAX_RULES || hostnames.len() > MAX_HOSTNAMES {
        Err(PrepareError::TooLarge)
    } else if !all_hostnames(hostnames) {
        Err(PrepareError::Hostname)
    } else {
        Ok(())
    }
}

/// Whether a route is small enough, and its host names are ones.
pub fn check_size(rules: usize, hostnames: &Vec<String>) -> (r: Result<(), PrepareError>)
    ensures
        r == size_checked(rules as nat, text::texts(hostnames@)),
{
    let ghost all = text::texts(hostnames@);
    assert(all.len() == hostnames@.len());
    if rules > MAX_RULES || hostnames.len() > MAX_HOSTNAMES {
        return Err(PrepareError::TooLarge);
    }
    let mut i: usize = 0;
    while i < hostnames.len()
        invariant
            i <= hostnames.len() <= MAX_HOSTNAMES,
            rules <= MAX_RULES,
            all == text::texts(hostnames@),
            forall|j: int| 0 <= j < i ==> hostname_valid(#[trigger] all[j]),
        decreases hostnames.len() - i,
    {
        assert(all[i as int] == hostnames@[i as int]@);
        if !valid_hostname(hostnames[i].as_str()) {
            assert(!hostname_valid(all[i as int]));
            return Err(PrepareError::Hostname);
        }
        i += 1;
    }
    Ok(())
}

// ---------------------------------------------------------------------------
// Rules
// ---------------------------------------------------------------------------

/// Whether a match and the filters of its rule go together.
pub open spec fn match_checked(m: Match, v: Seq<Filter>, grpc: bool) -> Result<(), PrepareError> {
    match m.paths(grpc) {
        Err(e) => Err(PrepareError::Match(e)),
        Ok(p) => match filtered(v, 80, p is IngressPrefix) {
            Err(e) => Err(PrepareError::Filter(e)),
            Ok(_) => Ok(()),
        },
    }
}

/// Whether the first matches and the filters of their rule go together.
pub open spec fn matches_checked(w: Seq<Match>, v: Seq<Filter>, grpc: bool) -> Result<
    (),
    PrepareError,
>
    decreases w.len(),
{
    if w.len() == 0 {
        Ok(())
    } else {
        match matches_checked(w.drop_last(), v, grpc) {
            Err(e) => Err(e),
            Ok(_) => match_checked(w.last(), v, grpc),
        }
    }
}

/// Whether a rule can be carried out; one without matches is for all paths.
pub open spec fn rule_checked(r: Rule, grpc: bool, mirroring: bool) -> Result<(), PrepareError> {
    if grpc && r.timeouts is Some {
        Err(PrepareError::Timeouts)
    } else if first_mirror(r.filters@) is Some && !mirroring {
        Err(PrepareError::Mirroring)
    } else if r.name is Some && !label(r.name->0@) {
        Err(PrepareError::RuleName)
    } else if r.matches@.len() == 0 {
        match filtered(r.filters@, 80, true) {
            Err(e) => Err(PrepareError::Filter(e)),
            Ok(_) => Ok(()),
        }
    } else {
        matches_checked(r.matches@, r.filters@, grpc)
    }
}

/// Whether the first rules can be carried out.
pub open spec fn rules_checked(v: Seq<Rule>, grpc: bool, mirroring: bool) -> Result<(), PrepareError>
    decreases v.len(),
{
    if v.len() == 0 {
        Ok(())
    } else {
        match rules_checked(v.drop_last(), grpc, mirroring) {
            Err(e) => Err(e),
            Ok(_) => rule_checked(v.last(), grpc, mirroring),
        }
    }
}

proof fn lemma_matches_error(w: Seq<Match>, v: Seq<Filter>, grpc: bool, i: int)
    requires
        0 <= i <= w.len(),
        matches_checked(w.take(i), v, grpc) is Err,
    ensures
        matches_checked(w, v, grpc) == matches_checked(w.take(i), v, grpc),
    decreases w.len(),
{
    if i < w.len() {
        assert(w.drop_last().take(i) =~= w.take(i));
        lemma_matches_error(w.drop_last(), v, grpc, i);
    } else {
        assert(w.take(i) =~= w);
    }
}

proof fn lemma_rules_error(v: Seq<Rule>, grpc: bool, mirroring: bool, i: int)
    requires
        0 <= i <= v.len(),
        rules_checked(v.take(i), grpc, mirroring) is Err,
    ensures
        rules_checked(v, grpc, mirroring) == rules_checked(v.take(i), grpc, mirroring),
    decreases v.len(),
{
    if i < v.len() {
        assert(v.drop_last().take(i) =~= v.take(i));
        lemma_rules_error(v.drop_last(), grpc, mirroring, i);
    } else {
        assert(v.take(i) =~= v);
    }
}

fn check_filters(r: &Rule, prefix: bool) -> (x: Result<(), PrepareError>)
    ensures
        x == match filtered(r.filters@, 80, prefix) {
            Err(e) => Err::<(), PrepareError>(PrepareError::Filter(e)),
            Ok(_) => Ok(()),
        },
{
    match filters(r, 80, prefix) {
        Err(e) => Err(PrepareError::Filter(e)),
        Ok(_) => Ok(()),
    }
}

fn check_match(m: &Match, r: &Rule, grpc: bool) -> (x: Result<(), PrepareError>)
    ensures
        x == match_checked(*m, r.filters@, grpc),
{
    match m.path_match(grpc) {
        Err(e) => Err(PrepareError::Match(e)),
        Ok(p) => {
            let prefix = match &p {
                PathMatch::IngressPrefix(_) => true,
                _ => false,
            };
            check_filters(r, prefix)
        },
    }
}

fn check_rule(r: &Rule, grpc: bool, mirroring: bool) -> (x: Result<(), PrepareError>)
    ensures
        x == rule_checked(*r, grpc, mirroring),
{
    if grpc && r.timeouts.is_some() {
        return Err(PrepareError::Timeouts);
    }
    if r.mirror().is_some() && !mirroring {
        return Err(PrepareError::Mirroring);
    }
    if let Some(n) = &r.name {
        if !namespace_name(n.as_str()) {
            return Err(PrepareError::RuleName);
        }
    }
    if r.matches.len() == 0 {
        return check_filters(r, true);
    }
    let ghost w = r.matches@;
    let ghost v = r.filters@;
    let mut i: usize = 0;
    while i < r.matches.len()
        invariant
            i <= r.matches.len(),
            w == r.matches@,
            v == r.filters@,
            w.len() > 0,
            rule_checked(*r, grpc, mirroring) == matches_checked(w, v, grpc),
            matches_checked(w.take(i as int), v, grpc) is Ok,
        decreases r.matches.len() - i,
    {
        proof {
            assert(w.take(i + 1).drop_last() =~= w.take(i as int));
            assert(w.take(i + 1).last() == w[i as int]);
        }
        if let Err(e) = check_match(&r.matches[i], r, grpc) {
            proof {
                lemma_matches_error(w, v, grpc, i + 1);
            }
            return Err(e);
        }
        i += 1;
    }
    assert(w.take(i as int) =~= w);
    Ok(())
}

/// Whether the rules of a route can be carried out; `mirroring` says whether copies of requests may be sent.
pub fn check_rules(v: &Vec<Rule>, grpc: bool, mirroring: bool) -> (x: Result<(), PrepareError>)
    ensures
        x == rules_checked(v@, grpc, mirroring),
{
    let mut i: usize = 0;
    while i < v.len()
        invariant
            i <= v.len(),
            rules_checked(v@.take(i as int), grpc, mirroring) is Ok,
        decreases v.len() - i,
    {
        proof {
            assert(v@.take(i + 1).drop_last() =~= v@.take(i as int));
            assert(v@.take(i + 1).last() == v@[i as int]);
        }
        if let Err(e) = check_rule(&v[i], grpc, mirroring) {
            proof {
                lemma_rules_error(v@, grpc, mirroring, i + 1);
            }
            return Err(e);
        }
        i += 1;
    }
    assert(v@.take(i as int) =~= v@);
    Ok(())
}

// ---------------------------------------------------------------------------
// Rollouts
// ---------------------------------------------------------------------------

/// Whether a backend is a service in the namespace of the route that goes by an alias.
pub open spec fn goes_by(b: BackendRef, alias: Seq<char>, ns: Seq<char>) -> bool {
    &&& empty_or(text::opt(b.namespace), ns) == ns
    &&& empty_or(text::opt(b.group), ""@) == ""@
    &&& empty_or(text::opt(b.kind), "Service"@) == "Service"@
    &&& alias == named(b)
}

pub open spec fn any_goes_by(v: Seq<BackendRef>, alias: Seq<char>, ns: Seq<char>) -> bool {
    exists|i: int| 0 <= i < v.len() && goes_by(#[trigger] v[i], alias, ns)
}

pub open spec fn all_reached(v: Seq<BackendRef>, aliases: Seq<Seq<char>>, ns: Seq<char>) -> bool {
    forall|i: int| 0 <= i < aliases.len() ==> any_goes_by(v, #[trigger] aliases[i], ns)
}

pub open spec fn redirects(v: Seq<Filter>) -> bool {
    exists|i: int| 0 <= i < v.len() && (#[trigger] v[i]).type_@ == "RequestRedirect"@
}

/// Whether a rollout can be carried out in the first rules.
pub open spec fn rollout_checked(v: Seq<Rule>, aliases: Seq<Seq<char>>, ns: Seq<char>) -> Result<
    (),
    PrepareError,
>
    decreases v.len(),
{
    if v.len() == 0 {
        Ok(())
    } else {
        match rollout_checked(v.drop_last(), aliases, ns) {
            Err(e) => Err(e),
            Ok(_) => if !all_reached(v.last().backend_refs@, aliases, ns) {
                Err(PrepareError::TrafficTarget)
            } else if redirects(v.last().filters@) {
                Err(PrepareError::TrafficRedirect)
            } else {
                Ok(())
            },
        }
    }
}

pub open spec fn any_mirror(v: Seq<Rule>) -> bool {
    exists|i: int| 0 <= i < v.len() && first_mirror((#[trigger] v[i]).filters@) is Some
}

/// Whether a rollout can be carried out; `mirror` says whether it sends copies of requests too.
pub open spec fn traffic_checked(
    v: Seq<Rule>,
    aliases: Seq<Seq<char>>,
    mirror: bool,
    mirroring: bool,
    ns: Seq<char>,
) -> Result<(), PrepareError> {
    if mirror && any_mirror(v) {
        Err(PrepareError::TwoMirrors)
    } else if mirror && !mirroring {
        Err(PrepareError::Mirroring)
    } else {
        rollout_checked(v, aliases, ns)
    }
}

fn plain<'a>(s: &'a Option<String>, fallback: &'a str) -> (r: &'a str)
    ensures
        r@ == empty_or(text::opt(*s), fallback@),
{
    match s {
        Some(s) => s.as_str(),
        None => fallback,
    }
}

fn does_go_by(b: &BackendRef, alias: &str, ns: &str) -> (r: bool)
    ensures
        r == goes_by(*b, alias@, ns@),
{
    let p: u64 = match b.port {
        Some(p) => p as u64,
        None => 0,
    };
    let own = text::concat3(b.name.as_str(), ":", text::decimal_string(p).as_str());
    text::same(plain(&b.namespace, ns), ns) && text::same(plain(&b.group, ""), "") && text::same(
        plain(&b.kind, "Service"),
        "Service",
    ) && text::same(alias, own.as_str())
}

fn is_reached(v: &Vec<BackendRef>, alias: &str, ns: &str) -> (r: bool)
    ensures
        r == any_goes_by(v@, alias@, ns@),
{
    let mut i: usize = 0;
    while i < v.len()
        invariant
            i <= v.len(),
            forall|j: int| 0 <= j < i ==> !goes_by(#[trigger] v@[j], alias@, ns@),
        decreases v.len() - i,
    {
        if does_go_by(&v[i], alias, ns) {
            assert(goes_by(v@[i as int], alias@, ns@));
            return true;
        }
        i += 1;
    }
    false
}

fn are_reached(v: &Vec<BackendRef>, aliases: &Vec<String>, ns: &str) -> (r: bool)
    ensures
        r == all_reached(v@, text::texts(aliases@), ns@),
{
    let ghost all = text::texts(aliases@);
    let mut i: usize = 0;
    while i < aliases.len()
        invariant
            i <= aliases.len(),
            all == text::texts(aliases@),
            forall|j: int| 0 <= j < i ==> any_goes_by(v@, #[trigger] all[j], ns@),
        decreases aliases.len() - i,
    {
        assert(all[i as int] == aliases@[i as int]@);
        if !is_reached(v, aliases[i].as_str(), ns) {
            assert(!any_goes_by(v@, all[i as int], ns@));
            return false;
        }
        i += 1;
    }
    true
}

fn does_redirect(v: &Vec<Filter>) -> (r: bool)
    ensures
        r == redirects(v@),
{
    let mut i: usize = 0;
    while i < v.len()
        invariant
            i <= v.len(),
            forall|j: int| 0 <= j < i ==> (#[trigger] v@[j]).type_@ != "RequestRedirect"@,
        decreases v.len() - i,
    {
        if text::same(v[i].type_.as_str(), "RequestRedirect") {
            assert(v@[i as int].type_@ == "RequestRedirect"@);
            return true;
        }
        i += 1;
    }
    false
}

proof fn lemma_rollout_error(v: Seq<Rule>, aliases: Seq<Seq<char>>, ns: Seq<char>, i: int)
    requires
        0 <= i <= v.len(),
        rollout_checked(v.take(i), aliases, ns) is Err,
    ensures
        rollout_checked(v, aliases, ns) == rollout_checked(v.take(i), aliases, ns),
    decreases v.len(),
{
    if i < v.len() {
        assert(v.drop_last().take(i) =~= v.take(i));
        lemma_rollout_error(v.drop_last(), aliases, ns, i);
    } else {
        assert(v.take(i) =~= v);
    }
}

fn has_mirror(v: &Vec<Rule>) -> (r: bool)
    ensures
        r == any_mirror(v@),
{
    let mut i: usize = 0;
    while i < v.len()
        invariant
            i <= v.len(),
            forall|j: int| 0 <= j < i ==> first_mirror((#[trigger] v@[j]).filters@) is None,
        decreases v.len() - i,
    {
        if v[i].mirror().is_some() {
            assert(first_mirror(v@[i as int].filters@) is Some);
            return true;
        }
        i += 1;
    }
    false
}

/// Whether a rollout over services can be carried out by the rules of a route.
pub fn check_traffic(v: &Vec<Rule>, aliases: &Vec<String>, mirror: bool, mirroring: bool, ns: &str) -> (x: Result<
    (),
    PrepareError,
>)
    ensures
        x == traffic_checked(v@, text::texts(aliases@), mirror, mirroring, ns@),
{
    let ghost all = text::texts(aliases@);
    if mirror && has_mirror(v) {
        return Err(PrepareError::TwoMirrors);
    }
    if mirror && !mirroring {
        return Err(PrepareError::Mirroring);
    }
    let mut i: usize = 0;
    while i < v.len()
        invariant
            i <= v.len(),
            all == text::texts(aliases@),
            traffic_checked(v@, all, mirror, mirroring, ns@) == rollout_checked(v@, all, ns@),
            rollout_checked(v@.take(i as int), all, ns@) is Ok,
        decreases v.len() - i,
    {
        proof {
            assert(v@.take(i + 1).drop_last() =~= v@.take(i as int));
            assert(v@.take(i + 1).last() == v@[i as int]);
        }
        if !are_reached(&v[i].backend_refs, aliases, ns) {
            proof {
                lemma_rollout_error(v@, all, ns@, i + 1);
            }
            return Err(PrepareError::TrafficTarget);
        }
        if does_redirect(&v[i].filters) {
            proof {
                lemma_rollout_error(v@, all, ns@, i + 1);
            }
            return Err(PrepareError::TrafficRedirect);
        }
        i += 1;
    }
    assert(v@.take(i as int) =~= v@);
    Ok(())
}

// ---------------------------------------------------------------------------
// Laws
// ---------------------------------------------------------------------------

/// Where copies of requests may not be sent, no rule that is carried out sends any.
pub proof fn law_forbidden_copies_are_refused(v: Seq<Rule>, grpc: bool, i: int)
    requires
        0 <= i < v.len(),
        first_mirror(v[i].filters@) is Some,
    ensures
        rules_checked(v, grpc, false) is Err,
    decreases v.len(),
{
    if i < v.len() - 1 {
        assert(v.drop_last()[i] == v[i]);
        law_forbidden_copies_are_refused(v.drop_last(), grpc, i);
    }
}

// ---------------------------------------------------------------------------
// Settings
// ---------------------------------------------------------------------------

#[derive(Clone, Copy, Debug, PartialEq, Eq, Structural)]
pub enum SettingsError {
    /// The certificates of clients are a matter of the gateway, and no route can ask for them.
    ClientCertificates,
    Policy(PolicyError),
}

/// What the annotations of a route set: as those of an Ingress, but that none asks for certificates of
/// clients, that whose word on the address of a client is taken is said elsewhere, and that the backends of
/// a route of gRPC are spoken to over HTTP/2.
pub open spec fn settings_of(
    v: Seq<(Seq<char>, Seq<char>)>,
    r: Verdicts,
    identity: IdentityPolicy,
    grpc: bool,
) -> Result<Draft, SettingsError> {
    let w = treating(v);
    if given(w, "rgnix.io/client-ca-secret"@) || given(w, "rgnix.io/verify-client"@) {
        Err(SettingsError::ClientCertificates)
    } else {
        match parsed(w, r) {
            Err(e) => Err(SettingsError::Policy(e)),
            Ok(d) => Ok(
                Draft {
                    settings: Values {
                        trusted: identity.trusted@,
                        real_ip_header: identity.header@,
                        real_ip_recursive: identity.recursive,
                        ..d.settings
                    },
                    http2: d.http2 || grpc,
                    ..d
                },
            ),
        }
    }
}

/// What the annotations of a route set.
pub fn settings(
    values: &Vec<(String, String)>,
    readings: &Readings,
    identity: &IdentityPolicy,
    grpc: bool,
) -> (r: Result<Annotated, SettingsError>)
    ensures
        match r {
            Ok(a) => settings_of(text::pairs(values@), readings@, *identity, grpc) == Ok::<
                Draft,
                SettingsError,
            >(a@),
            Err(e) => settings_of(text::pairs(values@), readings@, *identity, grpc) == Err::<
                Draft,
                SettingsError,
            >(e),
        },
{
    let v = annotations(values);
    if text::find(&v, "rgnix.io/client-ca-secret").is_some() || text::find(
        &v,
        "rgnix.io/verify-client",
    ).is_some() {
        return Err(SettingsError::ClientCertificates);
    }
    let mut a = match parse(&v, readings) {
        Err(e) => return Err(SettingsError::Policy(e)),
        Ok(a) => a,
    };
    a.settings.identity.trusted = copy_networks(&identity.trusted);
    a.settings.identity.header = identity.header.clone();
    a.settings.identity.recursive = identity.recursive;
    a.http2 = a.http2 || grpc;
    Ok(a)
}

/// No route verifies the certificates of clients.
pub proof fn law_routes_do_not_verify_clients(
    v: Seq<(Seq<char>, Seq<char>)>,
    r: Verdicts,
    identity: IdentityPolicy,
    grpc: bool,
)
    requires
        settings_of(v, r, identity, grpc) is Ok,
    ensures
        settings_of(v, r, identity, grpc)->Ok_0.verify == Verify::Off,
{
}

/// A route has at most 64 rules and 16 hosts, and each host is one.
pub proof fn law_routes_have_bounds(rules: nat, v: Seq<Seq<char>>, i: int)
    ensures
        rules > 64 ==> size_checked(rules, v) == Err::<(), PrepareError>(PrepareError::TooLarge),
        v.len() > 16 ==> size_checked(rules, v) == Err::<(), PrepareError>(PrepareError::TooLarge),
        rules <= 64 && v.len() <= 16 && 0 <= i < v.len() && !hostname_valid(v[i]) ==> size_checked(rules, v)
            == Err::<(), PrepareError>(PrepareError::Hostname),
        rules <= 64 && v.len() <= 16 && all_hostnames(v) ==> size_checked(rules, v) == Ok::<(), PrepareError>(
            (),
        ),
{
}

/// A rule is refused with times for calls, with copies where none may be made, and with a name that is none.
pub proof fn law_rules_are_checked(r: Rule, grpc: bool, mirroring: bool)
    ensures
        r.timeouts is Some ==> rule_checked(r, true, mirroring) == Err::<(), PrepareError>(
            PrepareError::Timeouts,
        ),
        r.timeouts is None && first_mirror(r.filters@) is Some ==> rule_checked(r, grpc, false) == Err::<
            (),
            PrepareError,
        >(PrepareError::Mirroring),
        r.timeouts is None && first_mirror(r.filters@) is None && r.name is Some && !label(r.name->0@)
            ==> rule_checked(r, grpc, mirroring) == Err::<(), PrepareError>(PrepareError::RuleName),
        r.timeouts is None && first_mirror(r.filters@) is None && r.name is None && r.matches@.len() == 0
            && filtered(r.filters@, 80, true) is Ok ==> rule_checked(r, grpc, mirroring) == Ok::<
            (),
            PrepareError,
        >(()),
{
}

/// Every rule is checked.
pub proof fn law_every_rule_is_checked(v: Seq<Rule>, grpc: bool, mirroring: bool, i: int)
    requires
        0 <= i < v.len(),
        rules_checked(v, grpc, mirroring) is Ok,
    ensures
        rule_checked(v[i], grpc, mirroring) is Ok,
    decreases v.len(),
{
    let l = v.drop_last();
    if i < l.len() {
        assert(l[i] == v[i]);
        law_every_rule_is_checked(l, grpc, mirroring, i);
    }
}

/// Two mirrors are too many, a mirror has to be allowed, and each backend of a rollout has to be one of each rule,
/// none of which may redirect.
pub proof fn law_traffic_is_checked(
    v: Seq<Rule>,
    aliases: Seq<Seq<char>>,
    ns: Seq<char>,
    mirroring: bool,
    r: Rule,
)
    ensures
        any_mirror(v) ==> traffic_checked(v, aliases, true, mirroring, ns) == Err::<(), PrepareError>(
            PrepareError::TwoMirrors,
        ),
        !any_mirror(v) ==> traffic_checked(v, aliases, true, false, ns) == Err::<(), PrepareError>(
            PrepareError::Mirroring,
        ),
        rollout_checked(v, aliases, ns) is Ok ==> {
            &&& !all_reached(r.backend_refs@, aliases, ns) ==> rollout_checked(v.push(r), aliases, ns) == Err::<
                (),
                PrepareError,
            >(PrepareError::TrafficTarget)
            &&& all_reached(r.backend_refs@, aliases, ns) && redirects(r.filters@) ==> rollout_checked(
                v.push(r),
                aliases,
                ns,
            ) == Err::<(), PrepareError>(PrepareError::TrafficRedirect)
            &&& all_reached(r.backend_refs@, aliases, ns) && !redirects(r.filters@) ==> rollout_checked(
                v.push(r),
                aliases,
                ns,
            ) is Ok
        },
{
    assert(v.push(r).drop_last() =~= v);
}

/// The settings of a route are those of its annotations, with the gateway's rules on who the client is; calls are
/// made over HTTP/2.
pub proof fn law_routes_have_their_settings(
    v: Seq<(Seq<char>, Seq<char>)>,
    r: Verdicts,
    identity: IdentityPolicy,
    grpc: bool,
    d: Draft,
)
    requires
        parsed(treating(v), r) == Ok::<Draft, PolicyError>(d),
        !given(treating(v), "rgnix.io/client-ca-secret"@),
        !given(treating(v), "rgnix.io/verify-client"@),
    ensures
        settings_of(v, r, identity, grpc) matches Ok(x) && x.http2 == (d.http2 || grpc) && x.tls == d.tls
            && x.upstream == d.upstream && x.rate == d.rate && x.concurrency == d.concurrency
            && x.settings.trusted == identity.trusted@ && x.settings.real_ip_header == identity.header@
            && x.settings.real_ip_recursive == identity.recursive && x.settings.access == d.settings.access
            && x.settings.max_body == d.settings.max_body && x.settings.read_timeout == d.settings.read_timeout,
{
}

} // verus!

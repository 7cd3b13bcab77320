//! What an administrator is told of the running configuration, as JSON whose members are in order.
use super::admin::{explain_path, explained_path};
use super::shown::{lemma_with_branch, show, shown};
use crate::backend::Member;
use crate::certificates::{covers, expiring_soon, Certificate};
use crate::fleet::{fresh, still_converged};
use crate::json::{
    branch, copy_or_null, lemma_tree, member_trees, number, number_json, object, put, set_member, start, text_json,
    text_or_null, text_trees, texts_json, tree_or_null, trees, with_branch, Json,
    Tree,
};
use crate::model::AddedHeader;
use crate::net::{socket_string, socket_text, Socket};
use crate::proxy::paths::PathError;
use crate::text;
use crate::text::{pairs, texts};
use vstd::prelude::*;

verus! {

/// A route, with what it sets and adds apart from its settings, since these are shown without values.
#[derive(Debug)]
pub struct RouteReport {
    pub id: String,
    pub matcher: Json,
    pub action: Json,
    pub settings: Json,
    pub request_headers: Vec<(String, String)>,
    pub response_headers: Vec<AddedHeader>,
    /// The digest of the script.
    pub script: Option<String>,
    pub allowed_backends: Json,
    pub tenant: Option<Json>,
    pub traffic: Option<Json>,
}

pub open spec fn route_tree(r: RouteReport) -> Tree {
    Tree::Object(
        seq![
            ("action"@, r.action.tree()),
            ("allowed_backends"@, r.allowed_backends.tree()),
            ("id"@, Tree::Text(r.id@)),
            ("match"@, r.matcher.tree()),
            ("script"@, text_or_null(text::opt(r.script))),
            (
                "settings"@,
                shown(r.settings.tree(), pairs(r.request_headers@), r.response_headers@),
            ),
            ("tenant"@, tree_or_null(r.tenant)),
            ("traffic"@, tree_or_null(r.traffic)),
        ],
    )
}

/// What is told of a route.
pub fn route(r: &RouteReport) -> (j: Json)
    ensures
        j.tree() == route_tree(*r),
{
    let mut v = start();
    put(&mut v, "action", r.action.copy());
    put(&mut v, "allowed_backends", r.allowed_backends.copy());
    put(&mut v, "id", Json::Text(r.id.clone()));
    put(&mut v, "match", r.matcher.copy());
    put(&mut v, "script", text_json(&r.script));
    put(&mut v, "settings", show(&r.settings, &r.request_headers, &r.response_headers));
    put(&mut v, "tenant", copy_or_null(&r.tenant));
    put(&mut v, "traffic", copy_or_null(&r.traffic));
    proof {
        assert(member_trees(v@) =~= route_tree(*r)->Object_0);
    }
    object(v)
}

/// A virtual host with its routes.
#[derive(Debug)]
pub struct HostReport {
    pub listener: Socket,
    pub names: Vec<String>,
    pub default: bool,
    /// Whether an Ingress made the host.
    pub ingress: bool,
    pub routes: Vec<RouteReport>,
}

pub open spec fn route_trees(v: Seq<RouteReport>) -> Tree {
    Tree::List(Seq::new(v.len(), |i: int| route_tree(v[i])))
}

/// What made a host, where `gateway` says that a Gateway made the whole configuration.
pub open spec fn source_word(gateway: bool, ingress: bool) -> Seq<char> {
    if gateway {
        "gateway"@
    } else if ingress {
        "ingress"@
    } else {
        "file"@
    }
}

pub open spec fn host_tree(h: HostReport, gateway: bool) -> Tree {
    Tree::Object(
        seq![
            ("default"@, Tree::Bool(h.default)),
            ("listener"@, Tree::Text(socket_text(h.listener))),
            ("names"@, text_trees(texts(h.names@))),
            ("routes"@, route_trees(h.routes@)),
            ("source"@, Tree::Text(source_word(gateway, h.ingress))),
        ],
    )
}

fn route_list(routes: &Vec<RouteReport>) -> (j: Json)
    ensures
        j.tree() == route_trees(routes@),
{
    let mut out: Vec<Json> = Vec::new();
    let mut i: usize = 0;
    while i < routes.len()
        invariant
            i <= routes.len(),
            out@.len() == i,
            forall|k: int| 0 <= k < i ==> (#[trigger] out@[k]).tree() == route_tree(routes@[k]),
        decreases routes.len() - i,
    {
        out.push(route(&routes[i]));
        i += 1;
    }
    let j = Json::List(out);
    proof {
        lemma_tree(j);
        assert(j.tree()->List_0 =~= route_trees(routes@)->List_0);
    }
    j
}

fn host(h: &HostReport, gateway: bool) -> (j: Json)
    ensures
        j.tree() == host_tree(*h, gateway),
{
    let word: &str = if gateway {
        "gateway"
    } else if h.ingress {
        "ingress"
    } else {
        "file"
    };
    let mut v = start();
    put(&mut v, "default", Json::Bool(h.default));
    put(&mut v, "listener", Json::Text(socket_string(h.listener)));
    put(&mut v, "names", texts_json(&h.names));
    put(&mut v, "routes", route_list(&h.routes));
    put(&mut v, "source", Json::Text(word.to_owned()));
    proof {
        assert(member_trees(v@) =~= host_tree(*h, gateway)->Object_0);
    }
    object(v)
}

pub open spec fn host_trees(v: Seq<HostReport>, gateway: bool) -> Tree {
    Tree::List(Seq::new(v.len(), |i: int| host_tree(v[i], gateway)))
}

/// What is told of the routes of all hosts.
pub fn routes(hosts: &Vec<HostReport>, gateway: bool) -> (j: Json)
    ensures
        j.tree() == host_trees(hosts@, gateway),
{
    let mut out: Vec<Json> = Vec::new();
    let mut i: usize = 0;
    while i < hosts.len()
        invariant
            i <= hosts.len(),
            out@.len() == i,
            forall|k: int|
                0 <= k < i ==> (#[trigger] out@[k]).tree() == host_tree(hosts@[k], gateway),
        decreases hosts.len() - i,
    {
        out.push(host(&hosts[i], gateway));
        i += 1;
    }
    let j = Json::List(out);
    proof {
        lemma_tree(j);
        assert(j.tree()->List_0 =~= host_trees(hosts@, gateway)->List_0);
    }
    j
}

/// A certificate that a listener presents, where it could be read; with its times as they are written.
#[derive(Debug)]
pub struct CertificateReport {
    pub listener: Socket,
    pub name: String,
    pub certificate: Option<Certificate>,
    pub not_before: String,
    pub not_after: String,
}

/// Whether a certificate is valid at a time.
pub open spec fn in_time(c: Certificate, now: i64) -> bool {
    c.not_before <= now < c.not_after
}

pub open spec fn health_tree(c: Certificate, name: Seq<char>, before: Seq<char>, after: Seq<char>, now: i64) -> Tree {
    Tree::Object(
        seq![
            ("expires_at"@, Tree::Number(crate::gateway::status::signed(c.not_after))),
            ("expiring_soon"@, Tree::Bool(c.not_after - now <= 1209600)),
            ("hostname_matches"@, Tree::Bool(covers(c@, name))),
            ("not_after"@, Tree::Text(after)),
            ("not_before"@, Tree::Text(before)),
            ("valid"@, Tree::Bool(in_time(c, now) && covers(c@, name))),
        ],
    )
}

impl Certificate {
    /// What is told of a certificate that is presented for a name.
    pub fn diagnostic(&self, name: &str, before: &str, after: &str, now: i64) -> (j: Json)
        ensures
            j.tree() == health_tree(*self, name@, before@, after@, now),
    {
        let covered = self.matches_name(name);
        let expires = self.expires_at();
        let mut v = start();
        put(&mut v, "expires_at", Json::Number(crate::gateway::status::signed_string(expires)));
        put(&mut v, "expiring_soon", Json::Bool(expiring_soon(expires, now)));
        put(&mut v, "hostname_matches", Json::Bool(covered));
        put(&mut v, "not_after", Json::Text(after.to_owned()));
        put(&mut v, "not_before", Json::Text(before.to_owned()));
        put(&mut v, "valid", Json::Bool(self.valid_time(now).is_ok() && covered));
        proof {
            assert(member_trees(v@) =~= health_tree(*self, name@, before@, after@, now)->Object_0);
        }
        object(v)
    }
}

pub open spec fn certificate_tree(c: CertificateReport, now: i64) -> Tree {
    Tree::Object(
        seq![
            (
                "available"@,
                Tree::Bool(c.certificate is Some && in_time(c.certificate->0, now)),
            ),
            (
                "health"@,
                match c.certificate {
                    Some(k) => health_tree(k, c.name@, c.not_before@, c.not_after@, now),
                    None => Tree::Null,
                },
            ),
            ("listener"@, Tree::Text(socket_text(c.listener))),
            ("name"@, Tree::Text(c.name@)),
        ],
    )
}

fn certificate(c: &CertificateReport, now: i64) -> (j: Json)
    ensures
        j.tree() == certificate_tree(*c, now),
{
    let (available, health) = match &c.certificate {
        Some(k) => (
            k.valid_time(now).is_ok(),
            k.diagnostic(c.name.as_str(), c.not_before.as_str(), c.not_after.as_str(), now),
        ),
        None => (false, Json::Null),
    };
    let mut v = start();
    put(&mut v, "available", Json::Bool(available));
    put(&mut v, "health", health);
    put(&mut v, "listener", Json::Text(socket_string(c.listener)));
    put(&mut v, "name", Json::Text(c.name.clone()));
    proof {
        assert(member_trees(v@) =~= certificate_tree(*c, now)->Object_0);
    }
    object(v)
}

pub open spec fn certificate_trees(v: Seq<CertificateReport>, now: i64) -> Tree {
    Tree::List(Seq::new(v.len(), |i: int| certificate_tree(v[i], now)))
}

fn certificates(c: &Vec<CertificateReport>, now: i64) -> (j: Json)
    ensures
        j.tree() == certificate_trees(c@, now),
{
    let mut out: Vec<Json> = Vec::new();
    let mut i: usize = 0;
    while i < c.len()
        invariant
            i <= c.len(),
            out@.len() == i,
            forall|k: int|
                0 <= k < i ==> (#[trigger] out@[k]).tree() == certificate_tree(c@[k], now),
        decreases c.len() - i,
    {
        out.push(certificate(&c[i], now));
        i += 1;
    }
    let j = Json::List(out);
    proof {
        lemma_tree(j);
        assert(j.tree()->List_0 =~= certificate_trees(c@, now)->List_0);
    }
    j
}

/// A backend with the endpoints that it has. Its options and its origins are told as they are written.
#[derive(Debug)]
pub struct BackendReport {
    pub name: String,
    pub tls: bool,
    pub hostname: String,
    pub options: Json,
    pub origins: Json,
    /// The requests that are under way.
    pub active: usize,
    pub members: Vec<Member>,
}

/// What is told of an endpoint, at a time on the clock of the pool.
pub open spec fn member_tree(m: Member, now: u64) -> Tree {
    Tree::Object(
        seq![
            ("active"@, number(m.active as nat)),
            (
                "active_health"@,
                match m.active_ok {
                    Some(b) => Tree::Bool(b),
                    None => Tree::Null,
                },
            ),
            ("address"@, Tree::Text(socket_text(m.endpoint.address))),
            ("ejected"@, Tree::Bool(m.blocked_until is Some && m.blocked_until->0 > now)),
            ("failures"@, number(m.failures as nat)),
            ("weight"@, number(m.endpoint.weight as nat)),
        ],
    )
}

fn member(m: &Member, now: u64) -> (j: Json)
    ensures
        j.tree() == member_tree(*m, now),
{
    let health = match m.active_ok {
        Some(b) => Json::Bool(b),
        None => Json::Null,
    };
    let ejected = match m.blocked_until {
        Some(t) => t > now,
        None => false,
    };
    let mut v = start();
    put(&mut v, "active", number_json(m.active as u64));
    put(&mut v, "active_health", health);
    put(&mut v, "address", Json::Text(socket_string(m.endpoint.address)));
    put(&mut v, "ejected", Json::Bool(ejected));
    put(&mut v, "failures", number_json(m.failures as u64));
    put(&mut v, "weight", number_json(m.endpoint.weight as u64));
    proof {
        assert(member_trees(v@) =~= member_tree(*m, now)->Object_0);
    }
    object(v)
}

pub open spec fn all_members(v: Seq<Member>, now: u64) -> Tree {
    Tree::List(Seq::new(v.len(), |i: int| member_tree(v[i], now)))
}

pub open spec fn backend_tree(b: BackendReport, now: u64) -> Tree {
    Tree::Object(
        seq![
            ("active"@, number(b.active as nat)),
            ("endpoints"@, all_members(b.members@, now)),
            ("hostname"@, Tree::Text(b.hostname@)),
            ("options"@, b.options.tree()),
            ("origins"@, b.origins.tree()),
            ("tls"@, Tree::Bool(b.tls)),
        ],
    )
}

fn backend(b: &BackendReport, now: u64) -> (j: Json)
    ensures
        j.tree() == backend_tree(*b, now),
{
    let mut out: Vec<Json> = Vec::new();
    let mut i: usize = 0;
    while i < b.members.len()
        invariant
            i <= b.members.len(),
            out@.len() == i,
            forall|k: int|
                0 <= k < i ==> (#[trigger] out@[k]).tree() == member_tree(b.members@[k], now),
        decreases b.members.len() - i,
    {
        out.push(member(&b.members[i], now));
        i += 1;
    }
    let endpoints = Json::List(out);
    proof {
        lemma_tree(endpoints);
        assert(endpoints.tree()->List_0 =~= all_members(b.members@, now)->List_0);
    }
    let mut v = start();
    put(&mut v, "active", number_json(b.active as u64));
    put(&mut v, "endpoints", endpoints);
    put(&mut v, "hostname", Json::Text(b.hostname.clone()));
    put(&mut v, "options", b.options.copy());
    put(&mut v, "origins", b.origins.copy());
    put(&mut v, "tls", Json::Bool(b.tls));
    proof {
        assert(member_trees(v@) =~= backend_tree(*b, now)->Object_0);
    }
    object(v)
}

/// The backends by their names; of two with one name the later one.
pub open spec fn backend_members(v: Seq<BackendReport>, now: u64) -> Seq<(Seq<char>, Tree)>
    decreases v.len(),
{
    if v.len() == 0 {
        Seq::empty()
    } else {
        with_branch(
            backend_members(v.drop_last(), now),
            v.last().name@,
            backend_tree(v.last(), now),
        )
    }
}

/// What is told of the backends.
pub fn backends(all: &Vec<BackendReport>, now: u64) -> (j: Json)
    ensures
        j.tree() == Tree::Object(backend_members(all@, now)),
{
    let mut v = start();
    let mut i: usize = 0;
    assert(all@.take(0) =~= Seq::empty());
    while i < all.len()
        invariant
            i <= all.len(),
            member_trees(v@) == backend_members(all@.take(i as int), now),
        decreases all.len() - i,
    {
        proof {
            assert(all@.take(i + 1).drop_last() =~= all@.take(i as int));
        }
        set_member(&mut v, all[i].name.as_str(), backend(&all[i], now));
        i += 1;
    }
    assert(all@.take(i as int) =~= all@);
    object(v)
}

/// The configuration that runs.
#[derive(Debug)]
pub struct Report {
    pub version: u64,
    pub sha256: String,
    pub ready: bool,
    /// The listeners as they are written.
    pub listeners: Json,
    /// Whether a Gateway made the configuration.
    pub gateway: bool,
    pub hosts: Vec<HostReport>,
    pub backends: Vec<BackendReport>,
    pub certificates: Vec<CertificateReport>,
}

/// What is told of a configuration at `now` seconds, and `tick` on the clock of its pools.
pub open spec fn report_tree(r: Report, now: i64, tick: u64) -> Tree {
    Tree::Object(
        seq![
            ("backends"@, Tree::Object(backend_members(r.backends@, tick))),
            ("certificates"@, certificate_trees(r.certificates@, now)),
            ("listeners"@, r.listeners.tree()),
            ("ready"@, Tree::Bool(r.ready)),
            ("routes"@, host_trees(r.hosts@, r.gateway)),
            ("sha256"@, Tree::Text(r.sha256@)),
            ("version"@, number(r.version as nat)),
        ],
    )
}

/// What is told of the configuration that runs.
pub fn describe(r: &Report, now: i64, tick: u64) -> (j: Json)
    ensures
        j.tree() == report_tree(*r, now, tick),
{
    let mut v = start();
    put(&mut v, "backends", backends(&r.backends, tick));
    put(&mut v, "certificates", certificates(&r.certificates, now));
    put(&mut v, "listeners", r.listeners.copy());
    put(&mut v, "ready", Json::Bool(r.ready));
    put(&mut v, "routes", routes(&r.hosts, r.gateway));
    put(&mut v, "sha256", Json::Text(r.sha256.clone()));
    put(&mut v, "version", number_json(r.version));
    proof {
        assert(member_trees(v@) =~= report_tree(*r, now, tick)->Object_0);
    }
    object(v)
}

pub open spec fn explanation(
    version: u64,
    listener: Socket,
    host: Seq<char>,
    path: Seq<char>,
    selected: Option<RouteReport>,
) -> Tree {
    Tree::Object(
        seq![
            ("host"@, Tree::Text(host)),
            ("listener"@, Tree::Text(socket_text(listener))),
            ("normalized_path"@, Tree::Text(path)),
            (
                "result"@,
                Tree::Text(
                    if selected is Some {
                        "matched"@
                    } else {
                        "no route"@
                    },
                ),
            ),
            (
                "selected"@,
                match selected {
                    Some(r) => route_tree(r),
                    None => Tree::Null,
                },
            ),
            ("version"@, number(version as nat)),
        ],
    )
}

/// What is told of the route that a host and a path lead to, where `selected` is the route of the normal
/// path.
pub fn explain(
    version: u64,
    listener: Socket,
    host: &str,
    path: &str,
    selected: &Option<RouteReport>,
) -> (r: Result<Json, PathError>)
    ensures
        match r {
            Ok(j) => explained_path(path@) is Ok && j.tree() == explanation(
                version,
                listener,
                host@,
                explained_path(path@)->Ok_0,
                *selected,
            ),
            Err(e) => explained_path(path@) == Err::<Seq<char>, PathError>(e),
        },
{
    let normal = match explain_path(path) {
        Ok(s) => s,
        Err(e) => return Err(e),
    };
    let ghost shown_path = normal@;
    let (word, chosen) = match selected {
        Some(r) => ("matched", route(r)),
        None => ("no route", Json::Null),
    };
    let mut v = start();
    put(&mut v, "host", Json::Text(host.to_owned()));
    put(&mut v, "listener", Json::Text(socket_string(listener)));
    put(&mut v, "normalized_path", Json::Text(normal));
    put(&mut v, "result", Json::Text(word.to_owned()));
    put(&mut v, "selected", chosen);
    put(&mut v, "version", number_json(version));
    proof {
        assert(member_trees(v@) =~= explanation(
            version,
            listener,
            host@,
            shown_path,
            *selected,
        )->Object_0);
    }
    Ok(object(v))
}

/// What is told of the replicas before any observation.
pub open spec fn unobserved(enabled: bool) -> Seq<(Seq<char>, Tree)> {
    seq![
        ("converged"@, Tree::Bool(false)),
        ("enabled"@, Tree::Bool(enabled)),
        ("error"@, Tree::Text("no replica observation yet"@)),
        ("replicas"@, Tree::List(Seq::empty())),
    ]
}

/// The last observation of the replicas with its age; one that is not fresh does not say that they agree.
pub open spec fn aged(v: Seq<(Seq<char>, Tree)>, age: int) -> Seq<(Seq<char>, Tree)> {
    let w = with_branch(
        v,
        "observation_age_seconds"@,
        number(
            (if age < 0 {
                0
            } else {
                age
            }) as nat,
        ),
    );
    if fresh(age) {
        w
    } else {
        with_branch(w, "converged"@, Tree::Bool(false))
    }
}

/// What is told of the replicas: the last observation, made at `observed_at`, or that there is none.
pub fn replicas(enabled: bool, view: Option<Vec<(String, Json)>>, observed_at: i64, now: i64) -> (j: Json)
    requires
        now - observed_at <= i64::MAX,
    ensures
        j.tree() == Tree::Object(
            match view {
                Some(v) => aged(member_trees(v@), now - observed_at),
                None => aged(unobserved(enabled), now as int),
            },
        ),
{
    let (mut v, since) = match view {
        Some(v) => (v, observed_at),
        None => {
            let mut v = start();
            put(&mut v, "converged", Json::Bool(false));
            put(&mut v, "enabled", Json::Bool(enabled));
            put(&mut v, "error", Json::Text("no replica observation yet".to_owned()));
            let none = Json::List(Vec::new());
            proof {
                lemma_tree(none);
                assert(trees(none->List_0@) =~= Seq::empty());
            }
            put(&mut v, "replicas", none);
            assert(member_trees(v@) =~= unobserved(enabled));
            (v, 0i64)
        },
    };
    let age: i128 = now as i128 - since as i128;
    let shown_age: u64 = if age < 0 {
        0
    } else {
        age as u64
    };
    set_member(&mut v, "observation_age_seconds", number_json(shown_age));
    if !still_converged(true, since, now) {
        set_member(&mut v, "converged", Json::Bool(false));
    }
    object(v)
}

/// An observation of the replicas that is not fresh does not say that they agree, and what it says
/// otherwise stays, but for its age.
pub proof fn law_old_observations_do_not_agree(v: Seq<(Seq<char>, Tree)>, age: int, name: Seq<char>)
    ensures
        !fresh(age) ==> branch(aged(v, age), "converged"@) == Some(Tree::Bool(false)),
        name != "converged"@ && name != "observation_age_seconds"@ ==> branch(aged(v, age), name)
            == branch(v, name),
        fresh(age) ==> branch(aged(v, age), "converged"@) == branch(v, "converged"@),
{
    reveal_strlit("converged");
    reveal_strlit("observation_age_seconds");
    let n = "observation_age_seconds"@;
    let c = "converged"@;
    assert(n.len() != c.len());
    let x = number(
        (if age < 0 {
            0
        } else {
            age
        }) as nat,
    );
    let w = with_branch(v, n, x);
    lemma_with_branch(v, n, x, name);
    lemma_with_branch(v, n, x, c);
    lemma_with_branch(w, c, Tree::Bool(false), name);
    lemma_with_branch(w, c, Tree::Bool(false), c);
}

/// A certificate is valid from its first moment to before its last, and for the names that it covers; it
/// expires soon with at most fourteen days left.
pub proof fn law_certificates_are_told(c: CertificateReport, k: Certificate, now: i64)
    requires
        c.certificate == Some(k),
    ensures
        certificate_tree(c, now).at("available"@) == Tree::Bool(k.not_before <= now && now < k.not_after),
        certificate_tree(c, now).at("name"@) == Tree::Text(c.name@),
        certificate_tree(c, now).at("health"@).at("valid"@) == Tree::Bool(
            k.not_before <= now && now < k.not_after && covers(k@, c.name@),
        ),
        certificate_tree(c, now).at("health"@).at("hostname_matches"@) == Tree::Bool(covers(k@, c.name@)),
        certificate_tree(c, now).at("health"@).at("expiring_soon"@) == Tree::Bool(
            k.not_after - now <= 14 * 24 * 60 * 60,
        ),
{
    reveal_with_fuel(branch, 7);
    reveal_strlit("health");
    reveal_strlit("available");
    assert("health"@.len() != "available"@.len());
    reveal_strlit("name");
    reveal_strlit("available");
    assert("name"@.len() != "available"@.len());
    reveal_strlit("health");
    assert("name"@.len() != "health"@.len());
    reveal_strlit("listener");
    assert("name"@.len() != "listener"@.len());
    reveal_strlit("expiring_soon");
    reveal_strlit("expires_at");
    assert("expiring_soon"@.len() != "expires_at"@.len());
    reveal_strlit("hostname_matches");
    reveal_strlit("expires_at");
    assert("hostname_matches"@.len() != "expires_at"@.len());
    reveal_strlit("expiring_soon");
    assert("hostname_matches"@.len() != "expiring_soon"@.len());
    reveal_strlit("valid");
    reveal_strlit("expires_at");
    assert("valid"@.len() != "expires_at"@.len());
    reveal_strlit("expiring_soon");
    assert("valid"@.len() != "expiring_soon"@.len());
    reveal_strlit("hostname_matches");
    assert("valid"@.len() != "hostname_matches"@.len());
    reveal_strlit("not_after");
    assert("valid"@.len() != "not_after"@.len());
    reveal_strlit("not_before");
    assert("valid"@.len() != "not_before"@.len());
}

/// A certificate that cannot be read is not available.
pub proof fn law_missing_certificates_are_told(c: CertificateReport, now: i64)
    requires
        c.certificate is None,
    ensures
        certificate_tree(c, now).at("available"@) == Tree::Bool(false),
        certificate_tree(c, now).at("health"@) == Tree::Null,
{
    reveal_with_fuel(branch, 3);
    reveal_strlit("health");
    reveal_strlit("available");
    assert("health"@.len() != "available"@.len());
}

/// A member is told with its address, its weight, its requests and its failures, and as ejected while it is
/// blocked.
pub proof fn law_members_are_told(m: Member, now: u64)
    ensures
        member_tree(m, now).at("address"@) == Tree::Text(socket_text(m.endpoint.address)),
        member_tree(m, now).at("weight"@) == number(m.endpoint.weight as nat),
        member_tree(m, now).at("active"@) == number(m.active as nat),
        member_tree(m, now).at("failures"@) == number(m.failures as nat),
        m.blocked_until is None ==> member_tree(m, now).at("ejected"@) == Tree::Bool(false),
        m.blocked_until is Some ==> member_tree(m, now).at("ejected"@) == Tree::Bool(now < m.blocked_until->0),
{
    reveal_with_fuel(branch, 7);
    reveal_strlit("address");
    reveal_strlit("active");
    assert("address"@.len() != "active"@.len());
    reveal_strlit("active_health");
    assert("address"@.len() != "active_health"@.len());
    reveal_strlit("ejected");
    reveal_strlit("active");
    assert("ejected"@.len() != "active"@.len());
    reveal_strlit("active_health");
    assert("ejected"@.len() != "active_health"@.len());
    reveal_strlit("address");
    assert("ejected"@[0] != "address"@[0]);
    reveal_strlit("failures");
    reveal_strlit("active");
    assert("failures"@.len() != "active"@.len());
    reveal_strlit("active_health");
    assert("failures"@.len() != "active_health"@.len());
    reveal_strlit("address");
    assert("failures"@.len() != "address"@.len());
    reveal_strlit("ejected");
    assert("failures"@.len() != "ejected"@.len());
    reveal_strlit("weight");
    reveal_strlit("active");
    assert("weight"@[0] != "active"@[0]);
    reveal_strlit("active_health");
    assert("weight"@.len() != "active_health"@.len());
    reveal_strlit("address");
    assert("weight"@.len() != "address"@.len());
    reveal_strlit("ejected");
    assert("weight"@.len() != "ejected"@.len());
    reveal_strlit("failures");
    assert("weight"@.len() != "failures"@.len());
}

/// A backend is told under its name.
pub proof fn law_backends_are_told_under_their_name(v: Seq<BackendReport>, b: BackendReport, now: u64, other: Seq<char>)
    ensures
        branch(backend_members(v.push(b), now), b.name@) == Some(backend_tree(b, now)),
        other != b.name@ ==> branch(backend_members(v.push(b), now), other) == branch(backend_members(v, now), other),
{
    assert(v.push(b).drop_last() =~= v);
    crate::json::law_set_members_are_found(backend_members(v, now), b.name@, backend_tree(b, now), other);
}

/// Where a host comes from is told: from a Gateway, an Ingress or a file.
pub proof fn law_sources_are_told(h: HostReport, gateway: bool)
    ensures
        gateway ==> host_tree(h, gateway).at("source"@) == Tree::Text("gateway"@),
        !gateway && h.ingress ==> host_tree(h, gateway).at("source"@) == Tree::Text("ingress"@),
        !gateway && !h.ingress ==> host_tree(h, gateway).at("source"@) == Tree::Text("file"@),
        host_tree(h, gateway).at("default"@) == Tree::Bool(h.default),
        host_tree(h, gateway).at("names"@) == text_trees(texts(h.names@)),
{
    reveal_with_fuel(branch, 6);
    reveal_strlit("source");
    reveal_strlit("default");
    assert("source"@.len() != "default"@.len());
    reveal_strlit("listener");
    assert("source"@.len() != "listener"@.len());
    reveal_strlit("names");
    assert("source"@.len() != "names"@.len());
    reveal_strlit("routes");
    assert("source"@[0] != "routes"@[0]);
    reveal_strlit("names");
    reveal_strlit("default");
    assert("names"@.len() != "default"@.len());
    reveal_strlit("listener");
    assert("names"@.len() != "listener"@.len());
}

/// What is explained of a request names the route that takes it, or that there is none.
pub proof fn law_explanations_name_the_route(
    version: u64,
    listener: Socket,
    host: Seq<char>,
    path: Seq<char>,
    selected: Option<RouteReport>,
)
    ensures
        selected is Some ==> explanation(version, listener, host, path, selected).at("result"@) == Tree::Text("matched"@)
            && explanation(version, listener, host, path, selected).at("selected"@) == route_tree(selected->0),
        selected is None ==> explanation(version, listener, host, path, selected).at("result"@) == Tree::Text(
            "no route"@,
        ) && explanation(version, listener, host, path, selected).at("selected"@) == Tree::Null,
        explanation(version, listener, host, path, selected).at("normalized_path"@) == Tree::Text(path),
        explanation(version, listener, host, path, selected).at("host"@) == Tree::Text(host),
        explanation(version, listener, host, path, selected).at("version"@) == number(version as nat),
{
    reveal_with_fuel(branch, 7);
    reveal_strlit("normalized_path");
    reveal_strlit("host");
    assert("normalized_path"@.len() != "host"@.len());
    reveal_strlit("listener");
    assert("normalized_path"@.len() != "listener"@.len());
    reveal_strlit("result");
    reveal_strlit("host");
    assert("result"@.len() != "host"@.len());
    reveal_strlit("listener");
    assert("result"@.len() != "listener"@.len());
    reveal_strlit("normalized_path");
    assert("result"@.len() != "normalized_path"@.len());
    reveal_strlit("selected");
    reveal_strlit("host");
    assert("selected"@.len() != "host"@.len());
    reveal_strlit("listener");
    assert("selected"@[0] != "listener"@[0]);
    reveal_strlit("normalized_path");
    assert("selected"@.len() != "normalized_path"@.len());
    reveal_strlit("result");
    assert("selected"@.len() != "result"@.len());
    reveal_strlit("version");
    reveal_strlit("host");
    assert("version"@.len() != "host"@.len());
    reveal_strlit("listener");
    assert("version"@.len() != "listener"@.len());
    reveal_strlit("normalized_path");
    assert("version"@.len() != "normalized_path"@.len());
    reveal_strlit("result");
    assert("version"@.len() != "result"@.len());
    reveal_strlit("selected");
    assert("version"@.len() != "selected"@.len());
}

/// Replicas that were never seen are not told to agree.
pub proof fn law_unseen_replicas_do_not_agree(enabled: bool)
    ensures
        Tree::Object(unobserved(enabled)).at("converged"@) == Tree::Bool(false),
        Tree::Object(unobserved(enabled)).at("enabled"@) == Tree::Bool(enabled),
        Tree::Object(unobserved(enabled)).at("replicas"@) == Tree::List(Seq::empty()),
{
    reveal_with_fuel(branch, 5);
    reveal_strlit("enabled");
    reveal_strlit("converged");
    assert("enabled"@.len() != "converged"@.len());
    reveal_strlit("replicas");
    reveal_strlit("converged");
    assert("replicas"@.len() != "converged"@.len());
    reveal_strlit("enabled");
    assert("replicas"@.len() != "enabled"@.len());
    reveal_strlit("error");
    assert("replicas"@.len() != "error"@.len());
}

} // verus!

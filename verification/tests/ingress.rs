use rgnix::backend::Balance;
use rgnix::body::BodyPolicy;
use rgnix::config::load::Listener;
use rgnix::config::settings::Settings;
use rgnix::ingress::backends::{
    backend_alias, hostname, resolve_backend, BackendProblem, Owner, ServiceObject, ServicePort, ServiceSpec,
    SliceEndpoint, SliceObject, SlicePort,
};
use rgnix::ingress::checkpoint;
use rgnix::ingress::checkpoint::{Accepted, CheckpointMap, Plugin, Write};
use rgnix::ingress::controller;
use rgnix::ingress::controller::Input;
use rgnix::ingress::dependencies::{
    annotations, client_authority, decider, dependencies, secret, token_rules, upstream_authority,
    upstream_identity, DependencyError, SecretObject,
};
use rgnix::ingress::history::{decide, reference, settle_routes, Entry, Offer, Reason};
use rgnix::ingress::policy::{auth_service, list, parse, valid_name, PolicyError, Port, Readings};
use rgnix::ingress::preflight;
use rgnix::ingress::preflight::PreflightError;
use rgnix::ingress::release;
use rgnix::ingress::release::{Change, Command, Operation, Progress, ReleaseError, State, Turn};
use rgnix::ingress::round::{complete, is_default, Round};
use rgnix::ingress::resources::{IngressObject, Needed, Resources, SliceName};
use rgnix::ingress::routes::{
    admit_ingress, assemble, key_of, oldest_first, route_rules, selects, Age, ClassObject, Demand, Prepared,
    Quota, Trouble, Usage,
};
use rgnix::ingress::spec::{BackendSpec, IngressSpec, PathSpec, PortRef, RuleSpec, ServiceBackend, TlsSpec};
use rgnix::ingress::serving;
use rgnix::ingress::serving::{Answers, Asked, MapObject, Notice, Tenancy, Terms};
use rgnix::ingress::reaching::{access, reach_ingress, Site};
use rgnix::ingress::status;
use rgnix::ingress::status::{Claim, EventKey, Hold, Standing, Stored, Written};
use rgnix::ingress::turn::{Findings, TurnAction, TurnEvent, TurnStage, Turns};
use rgnix::identity::IdentityPolicy;
use rgnix::json::Json;
use rgnix::model::PathMatch;
use rgnix::net::{parse_socket, Socket};

fn socket(s: &str) -> Socket {
    parse_socket(s).unwrap()
}

fn service_backend(name: &str, port: i32) -> ServiceBackend {
    ServiceBackend { name: name.into(), port: Some(PortRef { name: None, number: Some(port) }) }
}

fn path(p: &str, kind: &str, service: &str) -> PathSpec {
    PathSpec {
        path: Some(p.into()),
        path_type: kind.into(),
        backend: BackendSpec { service: Some(service_backend(service, 80)) },
    }
}

fn spec(host: &str, p: &str) -> IngressSpec {
    IngressSpec {
        class_name: Some("rgnix".into()),
        default_backend: None,
        rules: vec![RuleSpec { host: Some(host.into()), paths: vec![path(p, "Prefix", "web")] }],
        tls: vec![],
    }
}

fn service() -> ServiceObject {
    ServiceObject {
        namespace: Some("team".into()),
        name: "web".into(),
        uid: Some("s1".into()),
        spec: Some(ServiceSpec {
            type_: Some("ClusterIP".into()),
            ports: Some(vec![ServicePort { name: Some("http".into()), port: 80, protocol: None, app_protocol: None }]),
        }),
    }
}

fn slice(uid: &str, addresses: &[&str]) -> SliceObject {
    SliceObject {
        namespace: Some("team".into()),
        service: Some("web".into()),
        address_type: "IPv4".into(),
        owners: vec![Owner { api_version: "v1".into(), kind: "Service".into(), name: "web".into(), uid: uid.into() }],
        ports: vec![SlicePort { name: Some("http".into()), protocol: None, port: Some(8080) }],
        endpoints: vec![SliceEndpoint {
            addresses: addresses.iter().map(|s| s.to_string()).collect(),
            ready: Some(true),
            terminating: None,
        }],
    }
}

#[test]
fn backends_are_distinct_endpoints_of_their_service() {
    let slices = vec![
        slice("s1", &["10.0.0.2", "10.0.0.1", "nobody"]),
        slice("s1", &["10.0.0.1"]),
        slice("other", &["10.0.0.9"]),
    ];
    let found = resolve_backend(&vec![service()], &slices, "team", &service_backend("web", 80)).unwrap();
    assert_eq!(found, vec![socket("10.0.0.1:8080"), socket("10.0.0.2:8080")]);
    assert_eq!(hostname("web", "team"), "web.team.svc");
    assert_eq!(backend_alias(&service_backend("web", 80)), "web:80");
}

fn fault(services: Vec<ServiceObject>, r: ServiceBackend) -> BackendProblem {
    resolve_backend(&services, &vec![], "team", &r).unwrap_err()
}

#[test]
fn backends_that_cannot_be_used_are_named() {
    let b = || service_backend("web", 80);
    assert_eq!(fault(vec![], b()), BackendProblem::ServiceMissing);
    assert_eq!(fault(vec![ServiceObject { spec: None, ..service() }], b()), BackendProblem::SpecMissing);
    let external = ServiceSpec { type_: Some("ExternalName".into()), ports: None };
    assert_eq!(
        fault(vec![ServiceObject { spec: Some(external), ..service() }], b()),
        BackendProblem::ExternalName
    );
    let portless = ServiceSpec { type_: None, ports: None };
    assert_eq!(fault(vec![ServiceObject { spec: Some(portless), ..service() }], b()), BackendProblem::NoPorts);
    assert_eq!(
        fault(vec![service()], ServiceBackend { name: "web".into(), port: None }),
        BackendProblem::PortMissing
    );
    assert_eq!(fault(vec![service()], service_backend("web", 81)), BackendProblem::PortNotFound);
    let udp = ServiceSpec {
        type_: None,
        ports: Some(vec![ServicePort { name: None, port: 80, protocol: Some("UDP".into()), app_protocol: None }]),
    };
    assert_eq!(fault(vec![ServiceObject { spec: Some(udp), ..service() }], b()), BackendProblem::NotTcp);
}

fn accepted(source: &str) -> Accepted {
    Accepted {
        schema: 1,
        class: "rgnix".into(),
        uid: "u1".into(),
        namespace: "team".into(),
        name: "site".into(),
        reference: "plugins/main".into(),
        plugin_uid: "p1".into(),
        source: source.into(),
        spec: spec("a.test", "/"),
        body_policy: BodyPolicy::default(),
        policy: vec![],
    }
}

#[test]
fn checkpoints_are_restored_for_their_owner() {
    let a = accepted("code");
    assert!(checkpoint::restore(&Some(a.copy()), 10, "rgnix", "u1", "p1").is_some());
    assert!(checkpoint::restore(&Some(a.copy()), 10, "rgnix", "u2", "p1").is_none());
    assert!(checkpoint::restore(&Some(a.copy()), usize::MAX, "rgnix", "u1", "p1").is_none());
    assert_eq!(checkpoint::write(&Some("x".into()), "x"), Write::Kept);
    assert_eq!(checkpoint::write(&Some("x".into()), "y"), Write::Verify);
    assert_eq!(checkpoint::write(&None, &"x".repeat(1 << 21)), Write::TooLong);
    assert_ne!(checkpoint::name("rgnix", "u1"), checkpoint::name("rgnix", "u2"));
    let plugin = || Some(Plugin { uid: Some("p1".into()), data: vec![("main".into(), "code".into())] });
    let reference = Some("plugins/main".to_string());
    let uid = Some("u1".to_string());
    assert!(checkpoint::is_current(&a, &uid, &Some(spec("a.test", "/")), &reference, &plugin()));
    assert!(!checkpoint::is_current(&a, &uid, &Some(spec("b.test", "/")), &reference, &plugin()));
    assert!(checkpoint::is_spared(&a, &uid, &reference, &plugin()));
    assert!(!checkpoint::is_spared(&a, &uid, &None, &None));
}

fn entry(script: Option<&str>) -> Entry {
    Entry {
        script: script.map(|s| s.to_string()),
        routes: None,
        accepted: script.map(accepted),
        proposal: None,
        revoked: false,
    }
}

fn offer(candidate: Option<Accepted>, durable: Option<Accepted>) -> Offer {
    Offer {
        reference: Some("plugins/main".into()),
        found: Some(("code".into(), "p1".into())),
        durable,
        durable_compiles: true,
        candidate,
        preview: false,
    }
}

#[test]
fn served_versions_are_durable() {
    let mut e = entry(Some("old"));
    let v = decide(&mut e, &offer(Some(accepted("new")), None));
    assert_eq!(v.script.as_deref(), Some("old"));
    assert!(v.reuse && !v.invalid);
    assert_eq!(v.reasons, vec![Reason::PendingCheckpoint]);
    assert!(e.proposal.is_some());
    let v = decide(&mut e, &offer(Some(accepted("new")), Some(accepted("new"))));
    assert_eq!(v.script.as_deref(), Some("new"));
    assert!(v.reasons.is_empty());
}

#[test]
fn withdrawn_plugins_disable_routes() {
    let mut e = entry(Some("old"));
    let missing = Offer { found: None, ..offer(None, None) };
    let v = decide(&mut e, &missing);
    assert!(v.invalid && v.script.is_none() && e.revoked);
    assert_eq!(v.reasons, vec![Reason::UnrecoverablePlugin, Reason::MissingPlugin]);
    let mut e = entry(Some("old"));
    let replaced = Offer { found: Some(("code".into(), "p2".into())), ..offer(None, None) };
    let v = decide(&mut e, &replaced);
    assert!(v.script.is_none() && v.invalid);
    let mut e = entry(Some("old"));
    let v = decide(&mut e, &offer(None, None));
    assert_eq!(v.script.as_deref(), Some("old"));
    assert_eq!(v.reasons, vec![Reason::InvalidPlugin]);
    assert_eq!(reference(&Some("a/b".into()), true, true), Some("a/b".to_string()));
    assert_eq!(reference(&None, false, false), None);
}

#[test]
fn routes_go_with_their_script() {
    let mut e = entry(Some("old"));
    e.routes = Some(spec("a.test", "/old"));
    assert!(settle_routes(&mut e, true, false, &spec("a.test", "/new")).same(&spec("a.test", "/old")));
    assert!(settle_routes(&mut e, false, false, &spec("a.test", "/new")).same(&spec("a.test", "/new")));
    assert!(e.routes.as_ref().unwrap().same(&spec("a.test", "/new")));
}

fn values(v: &[(&str, &str)]) -> Vec<(String, String)> {
    v.iter().map(|(a, b)| (format!("rgnix.io/{}", a), b.to_string())).collect()
}

fn unread() -> Readings {
    Readings { services: None, http2: None, headers: true, limits: true, keys: vec!["ip".into(), "cookie:id".into()] }
}

fn policy_error(key: &str, value: &str) -> PolicyError {
    match parse(&values(&[(key, value)]), &unread()) {
        Ok(_) => panic!("accepted"),
        Err(e) => e,
    }
}

#[test]
fn annotations_become_policies() {
    let r = unread();
    let a = parse(
        &values(&[
            ("allow-cidrs", "10.0.0.0/8"),
            ("client-max-body-size", "2m"),
            ("limit-conn", "5"),
            ("proxy-read-timeout", "7s"),
        ]),
        &r,
    )
    .unwrap();
    assert_eq!(a.settings.max_body, 2 * 1048576);
    assert_eq!(a.settings.read_timeout, 7000);
    assert_eq!(a.concurrency.unwrap().limit, 5);
    assert_eq!(a.settings.identity.access.len(), 2);
    assert_eq!(policy_error("weather", "x"), PolicyError::Unsupported);
    assert_eq!(policy_error("allow-cidrs", "x"), PolicyError::Network);
    assert_eq!(policy_error("balance", "x"), PolicyError::Balance);
    assert_eq!(policy_error("verify-client", "x"), PolicyError::VerifyClient);
    assert_eq!(policy_error("limit-conn", "x"), PolicyError::Number);
    assert_eq!(policy_error("log-format", "x"), PolicyError::LogFormat);
    assert_eq!(policy_error("compression", "x"), PolicyError::Compression);
    assert_eq!(policy_error("ssl-redirect", "x"), PolicyError::SslRedirect);
    assert!(matches!(policy_error("request-body", "x"), PolicyError::Body(_)));
    assert_eq!(policy_error("access-log", &"x".repeat(1 << 20)), PolicyError::TooLong);
    let headers = values(&[("auth-response-headers", "x-user")]);
    assert!(parse(&headers, &unread()).is_ok());
    let refused = |v: &Vec<(String, String)>, r: Readings| parse(v, &r).unwrap_err();
    assert_eq!(refused(&headers, Readings { headers: false, ..unread() }), PolicyError::AuthHeaders);
    let rate = values(&[("limit-rate", "5")]);
    assert!(parse(&rate, &unread()).is_ok());
    assert_eq!(refused(&rate, Readings { limits: false, ..unread() }), PolicyError::Limits);
    let hash = parse(&values(&[("balance", "hash cookie:id")]), &unread()).unwrap();
    assert!(matches!(hash.upstream.balance, Balance::Hash(k) if k == "cookie:id"));
    assert_eq!(policy_error("balance", "hash moon"), PolicyError::Key);
    let shared = parse(&values(&[("limit-conn", "5 key=ip")]), &unread()).unwrap();
    assert_eq!(shared.concurrency.unwrap().key, "ip");
    assert_eq!(policy_error("limit-conn", "5 key=moon"), PolicyError::Key);
}

#[test]
fn services_of_deciders_are_named() {
    let s = auth_service("auth:8080/check").unwrap();
    assert_eq!((s.name.as_str(), s.path.as_str()), ("auth", "/check"));
    assert!(matches!(s.port, Port::Number(8080)));
    assert!(auth_service("auth/check").is_none());
    assert!(auth_service("auth:0/check").is_none());
    assert!(matches!(auth_service("auth:http/").unwrap().port, Port::Name(p) if p == "http"));
    assert_eq!(list("a, b"), vec!["a", "b"]);
    assert!(valid_name("a-b") && !valid_name("A"));
}

fn secrets() -> Vec<SecretObject> {
    vec![SecretObject {
        namespace: Some("team".into()),
        name: "keys".into(),
        data: Some(vec![("jwks.json".into(), b"{}".to_vec()), ("ca.crt".into(), b"pem".to_vec())]),
    }]
}

#[test]
fn dependencies_are_found_in_their_namespace() {
    assert_eq!(secret(&secrets(), "team", "keys", "jwks.json"), Ok(&b"{}".to_vec()));
    assert_eq!(secret(&secrets(), "other", "keys", "jwks.json"), Err(DependencyError::Secret));
    let v = values(&[("jwt-audience", "me"), ("jwt-issuer", "you"), ("jwt-secret", "keys")]);
    let t = token_rules(&v, &secrets(), "team").unwrap().unwrap();
    assert_eq!((t.source.as_str(), t.algorithm.as_str()), ("secret:team/keys", "RS256"));
    let v = values(&[("jwt-audience", "me"), ("jwt-secret", "keys")]);
    assert_eq!(token_rules(&v, &secrets(), "team").unwrap().unwrap_err(), DependencyError::Issuer);
    let v = values(&[("jwt-issuer", "me"), ("jwt-secret", "keys")]);
    assert_eq!(token_rules(&v, &secrets(), "team").unwrap().unwrap_err(), DependencyError::Audience);
    assert!(token_rules(&vec![], &secrets(), "team").is_none());
    let v = values(&[("upstream-ca-secret", "keys")]);
    assert_eq!(upstream_authority(&v, &secrets(), "team").unwrap().unwrap(), "pem");
    assert_eq!(upstream_authority(&v, &secrets(), "x").unwrap().unwrap_err(), DependencyError::Secret);
}

#[test]
fn deciders_can_be_reached() {
    let v = values(&[("auth-service", "web:80/check"), ("auth-response-headers", "X-User")]);
    let slices = vec![slice("s1", &["10.0.0.1"])];
    let d = decider(&v, &vec![service()], &slices, "team").unwrap().unwrap();
    assert_eq!(d.endpoints, vec![socket("10.0.0.1:8080")]);
    assert_eq!((d.path.as_str(), d.timeout), ("/check", 3000));
    assert_eq!(d.response_headers, vec!["x-user"]);
    let error = |v: &Vec<(String, String)>, slices: &Vec<SliceObject>| {
        decider(v, &vec![service()], slices, "team").unwrap().unwrap_err()
    };
    assert_eq!(error(&v, &vec![]), DependencyError::AuthEmpty);
    assert_eq!(error(&values(&[("auth-service", "x")]), &slices), DependencyError::AuthService);
    assert_eq!(error(&values(&[("auth-service", "x:80/")]), &slices), DependencyError::AuthUnavailable);
    let late = values(&[("auth-service", "web:80/"), ("auth-timeout", "x")]);
    assert_eq!(error(&late, &slices), DependencyError::AuthTimeout);
}

#[test]
fn progress_treats_nothing() {
    let mut v = values(&[("balance", "a"), ("rollout-state", "b"), ("script", "c")]);
    v.push(("other.io/balance".into(), "d".into()));
    assert_eq!(annotations(&v), values(&[("balance", "a")]));
    let mut services: Vec<(String, String)> = vec![];
    let mut secrets: Vec<(String, String)> = vec![];
    let v = values(&[("auth-service", "auth:80/"), ("jwt-secret", "keys")]);
    dependencies(&v, &vec!["canary:80".into()], "team", &mut services, &mut secrets);
    assert!(services.contains(&("team".to_string(), "auth".to_string())));
    assert!(services.contains(&("team".to_string(), "canary".to_string())));
    assert_eq!(secrets, vec![("team".to_string(), "keys".to_string())]);
}

fn class(default: Option<&str>) -> ClassObject {
    ClassObject {
        name: "rgnix".into(),
        controller: Some("rgnix.io/ingress-controller".into()),
        default: default.map(|s| s.to_string()),
    }
}

fn ingress(name: &str) -> IngressObject {
    IngressObject {
        namespace: Some("team".into()),
        name: name.into(),
        uid: Some("u1".into()),
        created: Some(5),
        spec: Some(spec("a.test", "/")),
        script: None,
        routed: None,
        checkpoint: None,
        checkpoint_length: 0,
    }
}

#[test]
fn checked_ingresses_are_managed() {
    let all: Vec<String> = vec![];
    let check = |classes: Vec<ClassObject>, i: IngressObject| preflight::check(&all, &classes, "rgnix", &i);
    assert_eq!(check(vec![class(None)], ingress("site")), Ok(()));
    assert_eq!(check(vec![], ingress("site")), Err(PreflightError::NoClass));
    assert_eq!(check(vec![class(None)], ingress("")), Err(PreflightError::Unnamed));
    assert_eq!(
        check(vec![class(None)], IngressObject { namespace: None, ..ingress("site") }),
        Err(PreflightError::NoNamespace)
    );
    assert_eq!(
        check(vec![class(None)], IngressObject { spec: None, ..ingress("site") }),
        Err(PreflightError::NoSpec)
    );
    let foreign = ClassObject { controller: Some("x".into()), ..class(None) };
    assert_eq!(check(vec![foreign], ingress("site")), Err(PreflightError::ForeignClass));
    let other = IngressObject { spec: Some(IngressSpec { class_name: Some("x".into()), ..spec("a", "/") }), ..ingress("site") };
    assert_eq!(check(vec![class(None)], other), Err(PreflightError::OtherClass));
    assert_eq!(
        preflight::check(&vec!["b".into()], &vec![class(None)], "rgnix", &ingress("site")),
        Err(PreflightError::OutOfScope)
    );
    assert!(selects(&class(Some("true")), &None) && !selects(&class(None), &None));
}

#[test]
fn candidates_are_alone() {
    let mut v = vec![ingress("a"), ingress("b")];
    preflight::replace(&mut v, IngressObject { uid: Some("new".into()), ..ingress("a") });
    assert_eq!(v.len(), 2);
    assert_eq!(v.iter().filter(|i| i.name == "a").count(), 1);
    assert_eq!(preflight::identify(&v, "team", "b", 9), (Some("u1".to_string()), Some(5)));
    assert_eq!(preflight::identify(&v, "team", "c", 9), (Some("preflight-team-c".to_string()), Some(9)));
    assert!(preflight::is_warning("UnavailableBackend") && !preflight::is_warning("RouteConflict"));
    assert!(preflight::is_acceptable(&vec!["TrafficRolledBack".into()]));
    assert!(!preflight::is_acceptable(&vec!["RouteConflict".into()]));
    assert_eq!(preflight::check_unchanged(1, 2, "a", "a"), Err(PreflightError::Changed));
}

fn release_state() -> State {
    State {
        owner: "team/site".into(),
        kind: "Ingress".into(),
        uid: "u1".into(),
        revision: "r1".into(),
        policy_hash: "h1".into(),
        rollback: true,
        staged: true,
    }
}

fn command(operation: Operation, stage: Option<usize>) -> Command {
    Command { owner: "team/site".into(), kind: None, revision: "r1".into(), operation, stage }
}

fn reached(stage: usize) -> Progress {
    Progress {
        revision: "r1".into(),
        policy_hash: "h1".into(),
        stage,
        started_at: 1,
        paused: false,
        approved_stage: None,
        promoted: false,
    }
}

#[test]
fn approvals_are_for_the_stage() {
    let s = release_state();
    let r = release::command(&command(Operation::Approve, Some(2)), &s, Some(reached(2)), 9).unwrap();
    assert!(matches!(r, Change::Progress(p) if p.approved_stage == Some(2)));
    assert_eq!(
        release::command(&command(Operation::Approve, Some(1)), &s, Some(reached(2)), 9).unwrap_err(),
        ReleaseError::Stage
    );
    let unstaged = State { staged: false, ..release_state() };
    assert_eq!(
        release::command(&command(Operation::Pause, None), &unstaged, None, 9).unwrap_err(),
        ReleaseError::NoStages
    );
    let fixed = State { rollback: false, ..release_state() };
    assert_eq!(
        release::command(&command(Operation::Rollback, None), &fixed, None, 9).unwrap_err(),
        ReleaseError::NoRollback
    );
    let r = release::command(&command(Operation::Rollback, None), &s, None, 9).unwrap();
    assert!(matches!(r, Change::RolledBack(x) if x == "r1"));
}

#[test]
fn resumed_rollouts_go_on() {
    let s = release_state();
    let r = release::command(&command(Operation::Pause, None), &s, Some(reached(1)), 9).unwrap();
    let paused = match r {
        Change::Progress(p) => p,
        Change::RolledBack(_) => panic!("rolled back"),
    };
    assert!(paused.paused);
    let r = release::command(&command(Operation::Resume, None), &s, Some(paused), 11).unwrap();
    assert!(matches!(r, Change::Progress(p) if !p.paused && p.started_at == 11 && p.stage == 1));
    let changed = Progress { policy_hash: "old".into(), ..reached(3) };
    let r = release::command(&command(Operation::Pause, None), &s, Some(changed), 9).unwrap();
    assert!(matches!(r, Change::Progress(p) if p.stage == 0 && p.policy_hash == "h1"));
}

#[test]
fn commands_have_one_owner() {
    let s = vec![release_state(), State { revision: "r2".into(), ..release_state() }];
    assert_eq!(release::select(&command(Operation::Pause, None), &s), Ok(0));
    let twice = vec![release_state(), State { kind: "HTTPRoute".into(), ..release_state() }];
    assert_eq!(release::select(&command(Operation::Pause, None), &twice), Err(ReleaseError::Ambiguous));
    assert_eq!(release::owner_parts("a/b"), Ok(("a".to_string(), "b".to_string())));
    assert_eq!(release::owner_parts("ab"), Err(ReleaseError::Owner));
    assert_eq!(release::group("Planet"), Err(ReleaseError::Kind));
    let uid = Some("u1".to_string());
    assert_eq!(release::check_owner(&s[0], &uid, Some(true)), Ok(()));
    assert_eq!(release::check_owner(&s[0], &None, Some(true)), Err(ReleaseError::OwnerChanged));
    assert_eq!(release::check_owner(&s[0], &uid, None), Err(ReleaseError::PolicyRemoved));
    assert_eq!(release::check_owner(&s[0], &uid, Some(false)), Err(ReleaseError::PolicyChanged));
    assert!(release::gates_pass(&vec!["a".into()], &vec![("a".into(), true)]));
    assert!(!release::gates_pass(&vec!["a".into()], &vec![]));
    assert_eq!(release::turn(true, &None, "r1", false, false), Turn::RollBack);
    assert_eq!(release::turn(true, &Some("r1".into()), "r1", true, true), Turn::Nothing);
    assert_eq!(release::turn(false, &None, "r1", true, true), Turn::Advance);
    assert_eq!(release::turn(false, &None, "r1", false, true), Turn::Nothing);
}

#[test]
fn routed_services_are_needed() {
    let foreign = IngressObject {
        spec: Some(IngressSpec { class_name: Some("x".into()), ..spec("a.test", "/") }),
        ..ingress("foreign")
    };
    let needed = |name: &str| Needed { namespace: Some("team".into()), name: name.into(), uid: None };
    let r = Resources {
        classes: vec![class(None)],
        ingresses: vec![foreign, ingress("site")],
        services: vec![needed("db"), needed("web")],
        slices: vec![SliceName { namespace: Some("team".into()), name: "web-1".into(), service: Some("web".into()) }],
        secrets: vec![needed("keys")],
        maps: vec![],
    };
    let s = r.prepare("rgnix", "system");
    assert_eq!(s.ingresses, vec![1]);
    assert_eq!(s.services, vec![1]);
    assert_eq!(s.slices, vec![0]);
    assert!(s.secrets.is_empty());
}

#[test]
fn rules_are_read_from_ingresses() {
    let mut s = spec("a.test", "/x");
    s.rules[0].paths.push(path("/y", "Exact", "web"));
    s.rules[0].paths.push(path("/z", "Odd", "web"));
    let (rules, odd) = route_rules(&s);
    assert_eq!(odd, vec!["Odd"]);
    assert!(matches!(&rules[0].matcher, PathMatch::IngressPrefix(p) if p == "/x"));
    assert!(matches!(&rules[1].matcher, PathMatch::Exact(p) if p == "/y"));
    assert_eq!(rules[0].host, "a.test");
    assert_eq!(key_of("team", "site", true, "web:80"), "team/site/web:80");
    assert_eq!(key_of("team", "site", false, "web:80"), "team/web:80");
}

fn prepared(name: &str, s: IngressSpec, tls: Vec<TlsSpec>) -> Prepared {
    Prepared { namespace: "team".into(), name: name.into(), routing: s, tls, own: false, invalid: false }
}

#[test]
fn older_ingresses_keep_their_routes() {
    let listeners = vec![Listener { address: socket("0.0.0.0:80"), tls: false, http2: false }];
    let v = vec![prepared("old", spec("a.test", "/"), vec![]), prepared("new", spec("a.test", "/"), vec![])];
    let a = assemble(&v, &listeners);
    let owners: Vec<usize> = a.groups.iter().flat_map(|g| g.routes.iter().map(|r| r.owner)).collect();
    assert_eq!(owners, vec![0]);
    assert!(matches!(&a.troubles[..], [(1, Trouble::RouteConflict { host, path })] if host == "a.test" && path == "/"));
    let ages = vec![
        Age { created: Some(2), namespace: Some("a".into()), name: "a".into() },
        Age { created: Some(1), namespace: Some("b".into()), name: "b".into() },
        Age { created: Some(1), namespace: Some("a".into()), name: "c".into() },
    ];
    assert_eq!(oldest_first(&ages), vec![2, 1, 0]);
    let mut turned = ages;
    turned.reverse();
    assert_eq!(oldest_first(&turned), vec![0, 1, 2]);
}

#[test]
fn quotas_are_kept() {
    let quota = Quota {
        max_ingresses: 2,
        max_routes: 3,
        max_backends: 1,
        allow_scripts: false,
        max_script_bytes: 10,
        allow_mirroring: false,
    };
    let demand = |routes: usize, backend: &str| Demand {
        routes,
        retained_routes: 0,
        backends: vec![backend.into()],
        script: None,
        scripted: false,
    };
    let mut u = Usage { ingresses: 0, routes: 0, backends: vec![] };
    assert!(admit_ingress(&mut u, &demand(2, "a"), &quota));
    assert_eq!((u.ingresses, u.routes, u.backends.len()), (1, 2, 1));
    assert!(!admit_ingress(&mut u, &demand(2, "a"), &quota));
    assert!(!admit_ingress(&mut u, &demand(1, "b"), &quota));
    assert!(!admit_ingress(&mut u, &Demand { scripted: true, ..demand(1, "a") }, &quota));
    assert_eq!(u.routes, 2);
    assert!(admit_ingress(&mut u, &demand(1, "a"), &quota));
    assert!(!admit_ingress(&mut u, &demand(0, "a"), &quota));
}

#[test]
fn one_replica_reports() {
    let held = |who: &str| Some(Some(Hold { holder: Some(who.into()), renewed: Some(100), seconds: Some(15) }));
    assert_eq!(status::claim(&None, "me", 100), Claim::Create);
    assert_eq!(status::claim(&held("you"), "me", 110), Claim::Contended);
    assert_eq!(status::claim(&held("me"), "me", 110), Claim::Replace);
    assert_eq!(status::claim(&held("you"), "me", 15_000_100), Claim::Replace);
    assert_eq!(status::lease_name("rgnix"), "rgnix-leader");
    assert_eq!(status::settle(Written::Done, 100), Standing::Acquired(130));
    assert_eq!(status::settle(Written::Refused(409), 100), Standing::Contended);
    assert_eq!(status::settle(Written::Refused(500), 100), Standing::Error);
    assert_eq!(Standing::Acquired(115).leader_until(), Some(115));
    assert_eq!(Standing::Contended.leader_until(), Some(0));
    assert_eq!(Standing::Error.leader_until(), None);
}

#[test]
fn addresses_are_written_where_they_differ() {
    let stored = |uid: &str| Some(Stored { uid: Some(uid.into()), class_name: None, addresses: Json::List(vec![]) });
    let desired = Json::List(vec![Json::Text("1.2.3.4".into())]);
    let uid = Some("u".to_string());
    assert!(status::needs_addresses(&stored("u"), &uid, &None, &desired));
    assert!(!status::needs_addresses(&stored("v"), &uid, &None, &desired));
    assert!(!status::needs_addresses(&stored("u"), &uid, &None, &Json::List(vec![])));
    assert!(!status::needs_addresses(&None, &uid, &None, &desired));
}

#[test]
fn events_are_told_once() {
    let e = |reason: &str| EventKey {
        namespace: "team".into(),
        name: "site".into(),
        uid: None,
        reason: reason.into(),
        message: "m".into(),
    };
    let mut published: Vec<EventKey> = vec![];
    let out = status::plan_events(&vec![e("b"), e("a")], &mut published);
    let reasons: Vec<&str> = out.iter().map(|x| x.reason.as_str()).collect();
    assert_eq!(reasons, vec!["a", "b"]);
    status::acknowledge(&mut published, e("a"));
    let out = status::plan_events(&vec![e("b"), e("a")], &mut published);
    assert_eq!(out.len(), 1);
    assert!(out[0].same(&e("b")));
    status::plan_events(&vec![], &mut published);
    assert!(published.is_empty());
    assert!(status::event_message(&"x".repeat(5000)).len() < 5000);
}

#[test]
fn proposals_are_wanted() {
    let pair = |a: &str, b: &str| (a.to_string(), b.to_string());
    assert_eq!(
        controller::wanted_checkpoints(&vec![pair("a", "1"), pair("b", "1")], &vec![pair("b", "2")]),
        vec![pair("a", "1"), pair("b", "2")]
    );
    assert_eq!(controller::watched_namespaces(&vec!["a".into()], "p"), vec!["a", "p"]);
    assert!(controller::watched_namespaces(&vec![], "p").is_empty());
    let mut p = controller::Progress::new();
    let input = |r: &str| Input { resources: r.into(), controls: "c".into() };
    assert!(p.observe(input("1")) && !p.observe(input("1")) && p.observe(input("2")));
    assert!(!p.settle(true, false));
    assert!(p.settle(false, false));
    assert!(p.settle(true, false));
    assert!(controller::is_unrecoverable(&vec!["UnrecoverablePlugin".into()]));
    let r = Some("r1".to_string());
    assert!(controller::must_note_rollback(true, &None, &r, "r1"));
    assert!(!controller::must_note_rollback(true, &r, &r, "r1"));
    assert!(controller::must_tell(false, &vec![], &vec![]));
    assert!(!controller::must_tell(true, &vec![], &vec![]));
}

fn terms(values: &[(&str, &str)], traffic: &[&str]) -> Terms {
    Terms {
        values: values.iter().map(|(a, b)| (format!("rgnix.io/{}", a), b.to_string())).collect(),
        traffic: traffic.iter().map(|s| s.to_string()).collect(),
    }
}

#[test]
fn demands_count_what_is_kept_too() {
    let mut s = spec("a.test", "/");
    s.default_backend = Some(BackendSpec { service: None });
    s.rules[0].paths.push(path("/x", "Prefix", "other"));
    assert_eq!(serving::count_targets(&s), Some(3));
    let kept = Some(terms(&[], &["stable:80"]));
    let t = terms(&[("auth-service", "auth:http/check")], &["canary:80"]);
    let d = serving::demand(&s, &Some(spec("b.test", "/")), &t, &kept, Some(7), true).unwrap();
    assert_eq!((d.routes, d.retained_routes), (3, 1));
    assert_eq!(d.backends, vec!["web:80", "web:80", "other:80", "canary:80", "auth:http", "stable:80"]);
    assert_eq!(d.script, Some(7));
}

#[test]
fn admitted_ingresses_fit() {
    let quota = Quota {
        max_ingresses: 1,
        max_routes: 10,
        max_backends: 10,
        allow_scripts: true,
        max_script_bytes: 10,
        allow_mirroring: false,
    };
    let d = serving::demand(&spec("a.test", "/"), &None, &terms(&[], &[]), &None, None, false).unwrap();
    let mut u = Usage { ingresses: 0, routes: 0, backends: vec![] };
    assert_eq!(serving::enter(Tenancy::Denied, &mut u, &d), Some(Notice::NamespaceDenied));
    assert_eq!(serving::enter(Tenancy::Free, &mut u, &d), None);
    assert_eq!(u.ingresses, 0);
    assert_eq!(serving::enter(Tenancy::Limited(quota), &mut u, &d), None);
    assert_eq!(u.ingresses, 1);
    assert_eq!(serving::enter(Tenancy::Limited(quota), &mut u, &d), Some(Notice::NamespaceQuota));
    assert!(serving::forbids_copies(true, Tenancy::Limited(quota)));
    assert!(!serving::forbids_copies(true, Tenancy::Free));
    assert_eq!(Notice::RetainedPlugin.reason(), "NamespaceQuota");
}

fn maps() -> Vec<MapObject> {
    vec![MapObject {
        namespace: Some("team".into()),
        name: "plugins".into(),
        uid: Some("p1".into()),
        data: Some(vec![("main".into(), "code".into())]),
    }]
}

#[test]
fn scripts_are_found_by_their_places() {
    let pair = |a: &str, b: &str| Some((a.to_string(), b.to_string()));
    assert_eq!(serving::find_script(&maps(), "team", "plugins/main"), pair("code", "p1"));
    assert_eq!(serving::find_script(&maps(), "team", "plugins/none"), None);
    assert_eq!(serving::find_script(&maps(), "other", "plugins/main"), None);
    assert_eq!(serving::find_script(&maps(), "team", "plugins"), None);
    assert_eq!(
        serving::find_script(&maps(), "team", ""),
        pair("function on_request() return route.pass() end", "builtin")
    );
    assert_eq!(serving::find_holder(&maps(), "team", &Some("plugins/none".into())), "p1");
    assert_eq!(serving::find_holder(&maps(), "team", &None), "builtin");
}

fn asked() -> Asked {
    Asked {
        class: "rgnix".into(),
        uid: "u1".into(),
        namespace: "team".into(),
        name: "site".into(),
        spec: spec("a.test", "/"),
        values: values(&[("balance", "least_conn")]),
        place: Some("plugins/main".into()),
    }
}

fn answers(checkpoint: Option<Accepted>) -> Answers {
    Answers {
        script: Some(("code".into(), "p1".into())),
        body: Some(BodyPolicy::default()),
        compiles: true,
        checkpoint,
        durable_compiles: true,
        preview: false,
    }
}

#[test]
fn missing_resources_disable_routes() {
    let mut e = entry(None);
    let v = serving::propose(&mut e, &asked(), &answers(None));
    assert_eq!(v.reasons, vec![Reason::UnrecoverablePlugin]);
    let waiting = e.proposal.as_ref().unwrap().copy();
    assert_eq!((waiting.source.as_str(), waiting.plugin_uid.as_str()), ("code", "p1"));
    let v = serving::propose(&mut e, &asked(), &answers(Some(waiting)));
    assert_eq!(v.script.as_deref(), Some("code"));
    assert_eq!(serving::effective(&e, &vec![]), &values(&[("balance", "least_conn")]));
    assert_eq!(serving::effective_body(&e, BodyPolicy::default()), BodyPolicy::default());
    let o = serving::restrict(&e, &v, true, Tenancy::Free);
    assert!(!o.invalid && o.notices.is_empty());
    let o = serving::restrict(&e, &v, false, Tenancy::Free);
    assert!(o.invalid);
    assert_eq!(o.notices, vec![Notice::UnavailablePolicyResource]);
    let tight = Quota {
        max_ingresses: 9,
        max_routes: 9,
        max_backends: 9,
        allow_scripts: true,
        max_script_bytes: 3,
        allow_mirroring: true,
    };
    let o = serving::restrict(&e, &v, true, Tenancy::Limited(tight));
    assert_eq!(o.notices, vec![Notice::RetainedPlugin]);
    let foreign = Accepted { name: "other".into(), ..accepted("code") };
    let v = serving::propose(&mut entry(None), &asked(), &answers(Some(foreign)));
    assert!(v.invalid && v.script.is_none());
}

#[test]
fn routes_name_their_backends() {
    let pair = |a: &str, b: &str| (a.to_string(), b.to_string());
    let s = spec("a.test", "/");
    assert_eq!(
        serving::name_backends("team", "site", true, &s, &vec!["canary:080".into()]),
        Some(vec![pair("canary:80", "team/site/canary:80"), pair("web:80", "team/site/web:80")])
    );
    assert_eq!(
        serving::name_backends("team", "site", false, &s, &vec![]),
        Some(vec![pair("web:80", "team/web:80")])
    );
    assert_eq!(serving::name_backends("team", "site", false, &s, &vec!["canary".into()]), None);
}

#[test]
fn rounds_settle_all_ingresses() {
    let quota = Quota {
        max_ingresses: 1,
        max_routes: 9,
        max_backends: 9,
        allow_scripts: true,
        max_script_bytes: 99,
        allow_mirroring: false,
    };
    let limited = Tenancy::Limited(quota);
    let d = serving::demand(&spec("a.test", "/"), &None, &terms(&[], &[]), &None, None, false).unwrap();
    let mut r = Round::start(vec![("gone".to_string(), entry(Some("old")))], true);
    assert!(!r.count(0, "closed", Tenancy::Denied, &d));
    assert!(r.count(1, "team", limited, &d));
    assert!(!r.count(2, "team", limited, &d));
    assert!(r.count(3, "free", Tenancy::Free, &d));
    assert!(r.count(4, "other", limited, &d));

    let v = r.decide(&asked(), &Answers { preview: true, ..answers(None) });
    assert_eq!(v.script.as_deref(), Some("code"));
    assert_eq!(r.policy(&asked()), &values(&[("balance", "least_conn")]));
    r.settle(1, &asked(), &v, limited, true, true, true);
    let stranger = Asked { uid: "u2".to_string(), ..asked() };
    let v = r.decide(&stranger, &Answers { preview: true, ..answers(None) });
    r.settle(3, &stranger, &v, Tenancy::Free, true, false, false);

    let listeners = vec![Listener { address: socket("0.0.0.0:80"), tls: false, http2: false }];
    let s = r.finish(&listeners);
    assert_eq!(
        s.notices,
        vec![
            (0, Notice::NamespaceDenied),
            (2, Notice::NamespaceQuota),
            (1, Notice::ForbiddenCopies),
            (3, Notice::DomainDenied),
        ]
    );
    assert_eq!(s.owners, vec![1]);
    assert_eq!(s.namespaces, vec!["team", "other"]);
    assert_eq!(s.past.iter().map(|p| p.0.as_str()).collect::<Vec<_>>(), vec![asked().uid.as_str(), "u2"]);
    assert!(s.past[0].1.routes.is_some() && s.past[1].1.routes.is_none());
    assert_eq!(s.assembly.groups.len(), 1);
    assert!(!is_default(&s.assembly.groups[0].host) && is_default(""));
    let withdrawn = Entry { revoked: true, ..entry(Some("old")) };
    let classless = Round::start(vec![("u9".to_string(), withdrawn), ("u8".to_string(), entry(Some("x")))], false);
    let kept = classless.finish(&vec![]).past;
    assert!(kept[0].0 == "u9" && kept[0].1.revoked && kept[0].1.script.is_none());
    assert!(!kept[1].1.revoked && kept[1].1.accepted.is_none());
}

#[test]
fn backends_of_ingresses_get_the_usual_fields() {
    let identity = IdentityPolicy { header: "x-client".to_string(), recursive: true, ..IdentityPolicy::default() };
    let mut s = Settings::default();
    complete(&mut s, &identity);
    assert_eq!(s.identity.header, "x-client");
    assert!(s.identity.recursive);
    let fields: Vec<_> = s.request_headers.iter().map(|(k, v)| (k.as_str(), v.as_str())).collect();
    assert_eq!(
        fields,
        vec![
            ("Host", "$host"),
            ("X-Forwarded-For", "$remote_addr"),
            ("X-Forwarded-Proto", "$scheme"),
            ("X-Real-IP", "$remote_addr"),
        ]
    );
}

#[test]
fn identities_are_found_in_secrets() {
    let pair = SecretObject {
        namespace: Some("team".into()),
        name: "pair".into(),
        data: Some(vec![("tls.crt".into(), b"cert".to_vec()), ("tls.key".into(), b"key".to_vec())]),
    };
    let all = vec![secrets().remove(0), pair];
    assert!(client_authority(&vec![], &all, "team").is_none());
    let named = values(&[("client-ca-secret", "keys"), ("upstream-client-secret", "pair")]);
    assert_eq!(client_authority(&named, &all, "team"), Some(Ok("pem".to_string())));
    assert_eq!(client_authority(&named, &all, "other"), Some(Err(DependencyError::Secret)));
    assert_eq!(upstream_identity(&named, &all, "team"), Some(Ok(("cert".to_string(), "key".to_string()))));
    let wrong = values(&[("upstream-client-secret", "keys")]);
    assert_eq!(upstream_identity(&wrong, &all, "team"), Some(Err(DependencyError::Secret)));
    assert!(upstream_identity(&vec![], &all, "team").is_none());
    assert!(status::addresses_written(Written::Done) && status::addresses_written(Written::Refused(404)));
    assert!(!status::addresses_written(Written::Refused(500)) && !status::addresses_written(Written::Failed));
}

#[test]
fn wanted_checkpoints_stay() {
    let map = |namespace: &str, name: String, class: &str, text: &str| CheckpointMap {
        namespace: Some(namespace.into()),
        name,
        labels: vec![("rgnix.io/checkpoint-class".into(), checkpoint::short_digest_text(class))],
        data: vec![("accepted.json".into(), text.into())],
    };
    let maps = vec![
        map("elsewhere", checkpoint::name("rgnix", "u1"), "rgnix", "0"),
        map("system", checkpoint::name("rgnix", "u1"), "other", "1"),
        map("system", checkpoint::name("rgnix", "u1"), "rgnix", "2"),
        map("system", checkpoint::name("rgnix", "u2"), "rgnix", &"x".repeat(921_601)),
        map("system", "rgnix-other".into(), "rgnix", "3"),
    ];
    let text = |uid: &str| checkpoint::stored_text(&maps, "system", "rgnix", uid);
    assert_eq!(text("u1"), Some("2"));
    assert_eq!(text("u2"), None);
    assert_eq!(text("u3"), None);
    assert_eq!(checkpoint::stale(&maps, "rgnix", &vec!["u1".into()]), vec![3]);
    assert_eq!(checkpoint::stale(&maps, "rgnix", &vec![]), vec![0, 2, 3]);
    assert_eq!(checkpoint::stale(&maps, "other", &vec![]), vec![1]);
}

#[test]
fn addresses_are_withdrawn_with_null() {
    let object = |v: Vec<(&str, Json)>| Json::Object(v.into_iter().map(|(k, j)| (k.to_string(), j)).collect());
    let told = |addresses: Json| {
        object(vec![
            ("metadata", object(vec![("resourceVersion", Json::Text("7".into()))])),
            ("status", object(vec![("loadBalancer", object(vec![("ingress", addresses)]))])),
        ])
    };
    let version = Some("7".to_string());
    let list = || Json::List(vec![object(vec![("ip", Json::Text("192.0.2.1".into()))])]);
    let found = object(vec![("ingress", list())]);
    assert!(status::address_patch(&version, &found).same(&told(list())));
    assert!(status::address_patch(&version, &object(vec![])).same(&told(Json::Null)));
}

#[test]
fn backends_are_reached_as_policies_say() {
    let v = values(&[("backend-protocol", "HTTPS"), ("balance", "least_conn"), ("upstream-server-name", "inner.test")]);
    let a = match parse(&v, &unread()) {
        Ok(a) => a,
        Err(e) => panic!("{:?}", e),
    };
    let identity = Some(("cert".to_string(), "key".to_string()));
    let x = access(&a, &Some("pem".to_string()), &identity);
    let mut known: Vec<Site> = vec![];
    let services = vec![service()];
    let slices = vec![slice("s1", &["10.0.0.1"])];
    let mut two = spec("a.test", "/");
    two.rules[0].paths.push(path("/other", "Prefix", "gone"));
    let told = reach_ingress(&mut known, &services, &slices, "team", "site", true, &two, &vec![], &x);
    assert_eq!(told, Some(vec![BackendProblem::ServiceMissing]));
    assert_eq!(known.len(), 2);
    assert_eq!(known[0].key, "team/site/web:80");
    let b = &known[0].setup;
    assert_eq!(b.endpoints.len(), 1);
    assert_eq!((b.endpoints[0].address, b.endpoints[0].weight), (socket("10.0.0.1:8080"), 1));
    assert!(b.tls && matches!(b.options.balance, Balance::LeastConnections));
    assert_eq!((b.hostname.as_str(), b.host_header.as_str()), ("inner.test", "web.team.svc"));
    assert_eq!(b.ca_pem.as_deref(), Some("pem"));
    assert_eq!(b.profile.identity, identity);
    assert_eq!(known[1].problem, Some(BackendProblem::ServiceMissing));
    assert!(known[1].setup.endpoints.is_empty() && known[1].setup.tls);
    let traffic = vec!["canary:80".to_string()];
    let told = reach_ingress(&mut known, &services, &slices, "team", "site", true, &two, &traffic, &x);
    assert_eq!(told, Some(vec![BackendProblem::ServiceMissing, BackendProblem::ServiceMissing]));
    assert_eq!(known.iter().map(|s| s.key.as_str()).last(), Some("team/site/canary:80"));
    let unreadable = vec!["canary".to_string()];
    assert_eq!(reach_ingress(&mut known, &services, &slices, "team", "site", true, &two, &unreadable, &x), None);
    assert_eq!(known.len(), 3);
}

fn findings(domains: bool, traffic: &[&str]) -> Findings {
    Findings {
        readings: unread(),
        identity: IdentityPolicy { header: "x-client".to_string(), ..IdentityPolicy::default() },
        ready: true,
        domains,
        copies: false,
        traffic: traffic.iter().map(|s| s.to_string()).collect(),
        ca_pem: None,
        certificate: None,
    }
}

#[test]
fn turns_go_in_order() {
    let d = || serving::demand(&spec("a.test", "/"), &None, &terms(&[], &[]), &None, None, false).unwrap();
    let begin = |t: Tenancy| TurnEvent::Begin(4, asked(), t, d());
    let answered = || TurnEvent::Answered(Answers { preview: true, ..answers(None) });
    let mut t = Turns::new(Round::start(vec![], true), vec![service()], vec![slice("s1", &["10.0.0.1"])]);
    assert!(matches!(t.next(answered()), TurnAction::Misplaced));
    assert!(matches!(t.next(TurnEvent::Found(findings(true, &[]))), TurnAction::Misplaced));
    assert!(matches!(t.next(begin(Tenancy::Denied)), TurnAction::Skip));
    assert!(matches!(t.next(begin(Tenancy::Free)), TurnAction::Ask));
    assert!(matches!(t.next(begin(Tenancy::Free)), TurnAction::Misplaced));
    match t.next(answered()) {
        TurnAction::Follow(p) => assert_eq!(p, values(&[("balance", "least_conn")])),
        other => panic!("{:?}", other),
    }
    assert!(matches!(t.next(TurnEvent::Found(findings(true, &[]))), TurnAction::Settled));
    assert_eq!((t.holdings.len(), t.round.prepared.len()), (1, 1));
    let h = &t.holdings[0];
    assert_eq!(h.script.as_deref(), Some("code"));
    assert!(matches!(h.policy.upstream.balance, Balance::LeastConnections));
    assert_eq!(h.policy.settings.identity.header, "x-client");
    assert_eq!(h.policy.settings.request_headers.len(), 4);
    assert!(h.allowed.iter().all(|(alias, key)| key == &format!("{}/{}/{}", asked().namespace, asked().name, alias)));
    assert_eq!(t.sites.len(), h.allowed.len());
    assert!(t.sites.iter().all(|s| matches!(s.setup.options.balance, Balance::LeastConnections)));

    assert!(matches!(t.next(begin(Tenancy::Free)), TurnAction::Ask));
    assert!(matches!(t.next(answered()), TurnAction::Follow(_)));
    assert!(matches!(t.next(TurnEvent::Found(findings(false, &[]))), TurnAction::Settled));
    assert_eq!(t.holdings.len(), 1);

    assert!(matches!(t.next(begin(Tenancy::Free)), TurnAction::Ask));
    assert!(matches!(t.next(answered()), TurnAction::Follow(_)));
    assert!(matches!(t.next(TurnEvent::Found(findings(true, &["canary"]))), TurnAction::Fail));
    assert!(matches!(t.stage, TurnStage::Failed));
    assert!(matches!(t.next(begin(Tenancy::Free)), TurnAction::Misplaced));
}

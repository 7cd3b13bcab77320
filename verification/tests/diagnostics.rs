use rgnix::backend::{Endpoint, Member};
use rgnix::body::Inspection;
use rgnix::certificates::{Certificate, Names};
use rgnix::config::load::Listener;
use rgnix::diagnostics::admin;
use rgnix::diagnostics::admin::{FileRequest, Opening, Reading, Refusal, Task};
use rgnix::diagnostics::answer;
use rgnix::diagnostics::answer::Setting;
use rgnix::diagnostics::auth::{
    token_hash, AuthError, Credentials, Exposure, Principal, Role, User, VisibleCertificate, VisibleHost,
    VisibleRoute,
};
use rgnix::diagnostics::outbound::{MirrorRule, Outbound, Preview, PreviewError, Reason};
use rgnix::diagnostics::preflight::{diff, route_key, BackendEntry, Outline, RouteEntry};
use rgnix::diagnostics::report;
use rgnix::diagnostics::report::{BackendReport, CertificateReport, HostReport, RouteReport};
use rgnix::diagnostics::run::{Run, RunAction, RunError, RunEvent, Terms};
use rgnix::diagnostics::shown::show;
use rgnix::diagnostics::simulation;
use rgnix::diagnostics::simulation::{AuthFixture, Simulation, SimulationError};
use rgnix::diagnostics::trial::{
    count_admitted, decide, sight, vouch, Answer, Check, Fate, Report, Rules, Sight, Told, Trial, Verdict,
};
use rgnix::diagnostics::visit::{Reply, Visit, VisitAction, VisitEvent};
use rgnix::digest::digest_text;
use rgnix::header::{Field, Headers};
use rgnix::identity::IdentityPolicy;
use rgnix::ingress::release::{Command, Operation};
use rgnix::json::Json;
use rgnix::model::{Action, AddedHeader, PathMatch};
use rgnix::net::{parse_socket, Socket};
use rgnix::script::{Decision, Edits, RequestData};
use rgnix::table::Table;

const TOKEN: &str = "0123456789abcdef0123456789abcdef";

fn socket(s: &str) -> Socket {
    parse_socket(s).unwrap()
}

fn principal(role: Role, namespaces: Option<Vec<&str>>) -> Principal {
    Principal {
        name: "p".into(),
        role,
        namespaces: namespaces.map(|v| v.iter().map(|s| s.to_string()).collect()),
    }
}

fn bearer(token: &str) -> Headers {
    Headers {
        fields: vec![Field { name: "authorization".into(), value: format!("Bearer {}", token).into_bytes() }],
    }
}

fn user(name: &str, token: &str) -> User {
    User { name: name.into(), role: Role::Reader, namespaces: Some(vec!["team".into()]), token_sha256: digest_text(token) }
}

#[test]
fn tokens_stand_for_one_identity() {
    let c = Credentials::load(&Some(TOKEN.into()), &None, &Some(vec![user("alice", "alice-token")])).unwrap();
    assert_eq!(c.authenticate(&bearer(TOKEN)).unwrap().name, "writer");
    let alice = c.authenticate(&bearer("alice-token")).unwrap();
    assert_eq!(alice.name, "alice");
    assert!(!alice.writer() && !alice.global() && alice.allows("team") && !alice.allows("other"));
    assert!(c.authenticate(&bearer("wrong")).is_none());
    assert!(c.authenticate(&Headers { fields: vec![] }).is_none());
}

#[test]
fn credentials_are_checked() {
    let error = |w: Option<&str>, r: Option<&str>, u: Option<Vec<User>>| {
        Credentials::load(&w.map(|s| s.to_string()), &r.map(|s| s.to_string()), &u).unwrap_err()
    };
    assert_eq!(error(Some("short"), None, None), AuthError::Token);
    assert_eq!(error(Some(TOKEN), Some(TOKEN), None), AuthError::Duplicate);
    assert_eq!(error(None, None, Some(vec![User { name: String::new(), ..user("a", "t") }])), AuthError::Name);
    assert_eq!(error(None, None, Some(vec![User { token_sha256: "x".into(), ..user("a", "t") }])), AuthError::Digest);
    let scope = User { namespaces: Some(vec!["Bad".into()]), ..user("a", "t") };
    assert_eq!(error(None, None, Some(vec![scope])), AuthError::Scope);
    let many: Vec<User> = (0..2000).map(|i| user(&format!("u{}", i), &format!("t{}", i))).collect();
    assert_eq!(error(None, None, Some(many)), AuthError::TooManyIdentities);
    assert_eq!(token_hash(TOKEN).unwrap().len(), 32);
}

fn exposure() -> Exposure {
    let route = |id: &str, b: &str| VisibleRoute { id: id.into(), backends: vec![b.into()] };
    Exposure {
        hosts: vec![VisibleHost {
            listener: socket("0.0.0.0:80"),
            ingress: true,
            names: vec!["a.test".into()],
            routes: vec![route("team/a:0", "team/web"), route("other/b:0", "other/web")],
        }],
        backends: vec!["team/web".into(), "other/web".into()],
        certificates: vec![VisibleCertificate { listener: socket("0.0.0.0:443"), name: "a.test".into() }],
        bundled: true,
    }
}

#[test]
fn scopes_hide_other_routes() {
    let p = principal(Role::Reader, Some(vec!["team"]));
    assert!(p.route("team/a:0") && !p.route("other/b:0"));
    let v = p.view_of(exposure());
    assert_eq!(v.hosts[0].routes.len(), 1);
    assert_eq!(v.backends, vec!["team/web"]);
    assert!(!v.bundled);
    let none = principal(Role::Reader, Some(vec![])).view_of(exposure());
    assert!(none.hosts.iter().all(|h| h.routes.is_empty()) && none.backends.is_empty());
    let all = principal(Role::Reader, None).view_of(exposure());
    assert_eq!(all.backends.len(), 2);
}

#[test]
fn strangers_are_refused() {
    assert!(matches!(admin::open("/metrics", &None), Opening::Telemetry));
    assert!(matches!(admin::open("/v1/config", &None), Opening::Refused(Refusal::Unauthenticated)));
    let reader = Some(principal(Role::Reader, None));
    assert!(matches!(
        admin::open("/v1/rollback/1", &reader),
        Opening::Refused(Refusal::RollbackNeedsGlobalWriter)
    ));
    assert!(matches!(admin::open("/v1/config", &reader), Opening::Attempt(_)));
    assert_eq!(Refusal::Unauthenticated.status(), 401);
    assert_eq!(admin::actor(&reader), "p");
}

#[test]
fn readers_change_nothing() {
    let reader = principal(Role::Reader, None);
    let writer = principal(Role::Writer, None);
    let scoped = principal(Role::Writer, Some(vec!["team"]));
    assert_eq!(admin::handle("/v1/rollouts", "POST", &reader), Task::Refused(Refusal::RolloutNeedsWriter));
    assert_eq!(admin::handle("/v1/rollouts", "POST", &writer), Task::Rollouts);
    assert_eq!(admin::handle("/v1/rollback/7", "POST", &writer), Task::Rollback(Some(7)));
    assert_eq!(admin::handle("/v1/rollback/x", "POST", &writer), Task::Rollback(None));
    assert_eq!(admin::handle("/v1/rollback/7", "GET", &writer), Task::Refused(Refusal::RollbackNeedsPost));
    assert_eq!(admin::handle("/v1/config", "POST", &writer), Task::Refused(Refusal::NeedsGet));
    assert_eq!(admin::handle("/v1/config", "GET", &reader), Task::Config);
    assert_eq!(admin::handle("/v1/fleet", "GET", &scoped), Task::Refused(Refusal::FleetNeedsGlobal));
    assert_eq!(admin::handle("/v1/history", "GET", &scoped), Task::Refused(Refusal::HistoryNeedsGlobal));
    assert_eq!(admin::handle("/v1/none", "GET", &writer), Task::Refused(Refusal::NotFound));
    assert_eq!(admin::rollout_in_scope(&scoped, "other/site"), Err(Refusal::RolloutOutsideScope));
    assert_eq!(admin::rollout_in_scope(&scoped, "site"), Err(Refusal::OwnerNeedsNamespace));
    assert_eq!(admin::rollout_in_scope(&scoped, "team/site"), Ok(()));
    assert_eq!(admin::ingress_in_scope(&scoped, &Some("other".into())), Err(Refusal::NamespaceOutsideScope));
    assert_eq!(admin::file_gate(true, &scoped), Err(Refusal::FileNeedsGlobalWriter));
    assert_eq!(admin::route_in_scope(&scoped, &Some("other/a:0".into())), Err(Refusal::RouteOutsideScope));
}

#[test]
fn questions_are_read() {
    let listeners = vec![Listener { address: socket("127.0.0.1:80"), tls: false, http2: false }];
    let q = admin::question("host=a.test&path=%2Fx", &listeners).unwrap();
    assert_eq!((q.host.as_str(), q.path.as_str()), ("a.test", "/x"));
    assert_eq!(q.listener, socket("127.0.0.1:80"));
    assert_eq!(admin::question("", &vec![]).unwrap_err(), Refusal::MissingListener);
    assert_eq!(admin::explain_path("/a/../b"), Ok("/b".to_string()));
    assert_eq!(admin::read_json("GET", Reading::Whole), Err(Refusal::NeedsPost));
    assert_eq!(admin::read_json("POST", Reading::Late), Err(Refusal::BodyDeadline));
    assert_eq!(admin::read_json("POST", Reading::Failed), Err(Refusal::BodyUnavailable));
    assert_eq!(admin::simulation_gate(false, "POST"), Err(Refusal::SimulationBudget));
    assert_eq!(admin::simulation_gate(true, "GET"), Err(Refusal::SimulationNeedsPost));
    assert_eq!(admin::bound_answer(usize::MAX), Err(Refusal::AnswerTooLong));
    let r = FileRequest { config_path: "x".into(), expected_version: 1 };
    assert_eq!(admin::version_gate(&r, 2), Err(Refusal::VersionChanged));
    assert_eq!(admin::conclude_file(Some(true), 1, 2), Err(Refusal::VersionChangedMeanwhile));
    assert_eq!(admin::conclude_file(None, 1, 1), Err(Refusal::PreflightFailed));
    assert!(admin::conclude_file(Some(true), 1, 1).is_ok());
}

fn request() -> RequestData {
    let mut r = RequestData::default();
    r.method = "GET".into();
    r.path = "/a".into();
    r.host = "example.test".into();
    r
}

#[test]
fn previews_hide_values() {
    let r = request();
    let edits = Edits { path: None, query: None, headers: vec![("authorization".into(), Some("secret".into()))] };
    let mut backends = Table::new();
    backends.insert("b".into(), "http://b.test".into());
    backends.insert("mirror".into(), "http://m.test".into());
    let action = Action::Proxy { backend: "b".into(), uri: None };
    let matcher = PathMatch::NginxPrefix("/".into());
    let rules = vec![];
    let mirror = Some(MirrorRule { service: "mirror".into(), max_body_bytes: 10, percent: 100 });
    let none: Option<String> = None;
    let preview = |body_len: usize, backend: &Table, action: &Action| {
        Preview {
            request: &r,
            edits: &edits,
            original_uri: "/a",
            original_peer: "1.2.3.4",
            scheme: "http",
            server_name: "",
            action,
            matcher: &matcher,
            root: "/srv",
            request_headers: &rules,
            chosen: &none,
            rollout: &none,
            backends: backend,
            mirror: &mirror,
            body_len,
            sample: 5,
        }
        .finish()
    };
    match preview(5, &backends, &action) {
        Ok(Outbound::Proxy { backend, uri, headers, mirror }) => {
            assert_eq!((backend.as_str(), uri.as_str()), ("b", "/a"));
            assert_ne!(headers.get("authorization"), Some("secret"));
            let m = mirror.unwrap();
            assert!(m.eligible && m.selected);
            assert_eq!(m.reason, Reason::Sampling);
        }
        other => panic!("{:?}", other),
    }
    match preview(11, &backends, &action) {
        Ok(Outbound::Proxy { mirror: Some(m), .. }) => {
            assert!(!m.eligible && !m.selected);
            assert_eq!(m.reason, Reason::BodyTooLong);
        }
        other => panic!("{:?}", other),
    }
    assert_eq!(preview(5, &Table::new(), &action).unwrap_err(), PreviewError::UnknownBackend);
    assert!(matches!(
        preview(5, &backends, &Action::Return { status: 418, text: "tea".into() }),
        Ok(Outbound::Return { status: 418, .. })
    ));
}

fn outline(routes: &[(&str, &str)]) -> Outline {
    Outline {
        routes: routes.iter().map(|(a, b)| RouteEntry { id: a.to_string(), digest: b.to_string() }).collect(),
        backends: vec![BackendEntry { name: "b".into(), digest: routes.len().to_string() }],
        listeners: vec![],
        certificates: vec![],
    }
}

#[test]
fn additions_and_removals_mirror() {
    let a = outline(&[("x", "1"), ("y", "1")]);
    let b = outline(&[("y", "2"), ("z", "1"), ("w", "1")]);
    let d = diff(&a, &b);
    assert_eq!(d.added, vec!["w", "z"]);
    assert_eq!(d.removed, vec!["x"]);
    assert_eq!(d.changed, vec!["y"]);
    assert_eq!(d.backends, vec!["b"]);
    let back = diff(&b, &a);
    assert_eq!(back.added, d.removed);
    assert_eq!(back.removed, d.added);
    let same = diff(&a, &a);
    assert!(same.added.is_empty() && same.removed.is_empty() && same.changed.is_empty() && same.backends.is_empty());
    assert!(!same.restart_required && !same.certificate_changes);
    assert_ne!(route_key("l", &vec!["a".into()], "r"), route_key("l", &vec!["b".into()], "r"));
}

fn simulation_of(path: &str) -> Simulation {
    Simulation {
        listener: None,
        method: simulation::default_method(),
        host: "example.test".into(),
        path: path.into(),
        headers: vec![],
        client: simulation::default_client(),
        body: String::new(),
        client_certificate: None,
        external_auth: None,
        repeat: 1,
        hold_permits: false,
    }
}

#[test]
fn simulations_are_prepared() {
    let listeners = vec![Listener { address: socket("127.0.0.1:80"), tls: false, http2: false }];
    let mut ready = simulation::prepare(&simulation_of("/a?b=c"), &listeners).unwrap();
    assert_eq!((ready.request.path.as_str(), ready.request.query.as_str()), ("/a", "b=c"));
    assert_eq!(ready.request.headers.get("host"), Some("example.test"));
    assert!(!simulation::secure(&listeners, ready.listener));
    let p = simulation::identify(&mut ready, &IdentityPolicy::default(), false);
    assert!(p.allowed);
    assert_eq!(p.scheme, "http");
    assert_eq!(
        simulation::redirect(&p, Some(443), "example.test", "/a"),
        Some("https://example.test/a".to_string())
    );
    assert_eq!(simulation::redirect(&p, None, "example.test", "/a"), None);
    let error = |s: Simulation| simulation::prepare(&s, &listeners).unwrap_err();
    assert!(matches!(error(simulation_of("/../a")), SimulationError::InvalidPath(_)));
    assert_eq!(error(Simulation { method: "bad method".into(), ..simulation_of("/") }), SimulationError::InvalidMethod);
    assert_eq!(error(Simulation { client: "nobody".into(), ..simulation_of("/") }), SimulationError::InvalidClient);
    assert_eq!(error(Simulation { repeat: usize::MAX, ..simulation_of("/") }), SimulationError::Limits);
    let named = Simulation { headers: vec![("bad name".into(), "x".into())], ..simulation_of("/") };
    assert_eq!(error(named), SimulationError::InvalidName);
    let valued = Simulation { headers: vec![("x".into(), "a\nb".into())], ..simulation_of("/") };
    assert_eq!(error(valued), SimulationError::InvalidValue);
    assert_eq!(
        simulation::prepare(&simulation_of("/"), &vec![]).unwrap_err(),
        SimulationError::MissingListener
    );
}

fn trial() -> Trial {
    Trial {
        rules: Rules {
            allowed: true,
            max_body: 10,
            max_inflight: Some(1),
            token: false,
            vouched: None,
            live: true,
        },
        run: request(),
        body_len: 0,
        fixture: None,
        hold_permits: true,
        admitted: 0,
    }
}

#[test]
fn only_the_last_check_admits() {
    let mut t = trial();
    assert!(matches!(t.begin(), Verdict::Check(Check::Certificate)));
    assert!(!matches!(t.step(Answer::Certificate(true)), Verdict::Admitted));
    assert!(matches!(t.step(Answer::Quota(Ok(()))), Verdict::Check(Check::Early)));
    assert!(matches!(t.step(Answer::Early(Ok(()))), Verdict::Check(Check::Late)));
    assert!(matches!(t.step(Answer::Late(Err(429))), Verdict::Refused(429)));
    assert!(matches!(t.step(Answer::Late(Ok(()))), Verdict::Admitted));
    let mut closed = trial();
    closed.rules.allowed = false;
    assert!(matches!(closed.begin(), Verdict::Refused(403)));
    let mut token = trial();
    token.rules.token = true;
    assert!(matches!(token.step(Answer::Early(Ok(()))), Verdict::Refused(401)));
}

#[test]
fn trials_are_reported() {
    let names = vec!["x-user".to_string()];
    let given = vec![("X-User".to_string(), "me".to_string()), ("x-other".to_string(), "no".to_string())];
    assert_eq!(vouch(&given, &names).len(), 1);
    assert!(matches!(sight(&Inspection::Off, "abc"), Sight::Off));
    assert!(matches!(sight(&Inspection::Full(2), "abc"), Sight::TooLong));
    assert!(matches!(sight(&Inspection::Prefix(2), "abc"), Sight::Seen(v) if v.bytes == b"ab".to_vec()));
    let mut declared = Table::new();
    declared.insert("canary".into(), "team/canary".into());
    assert!(matches!(
        decide(&Some(Ok(Decision::Proxy("canary".into()))), &declared),
        Some(Fate::Forwarded(Some(b))) if b == "team/canary"
    ));
    assert!(decide(&Some(Ok(Decision::Proxy("other".into()))), &declared).is_none());
    assert!(matches!(decide(&None, &declared), Some(Fate::Forwarded(None))));
    assert!(matches!(decide(&Some(Err("x".into())), &declared), Some(Fate::Failed(_))));
    let reports = vec![Report::Refused(403), Report::Answered(200, "ok".into(), Edits::default()), Report::BodyTooLong];
    assert_eq!(count_admitted(&reports), 1);
    assert_eq!(reports[0].status(), Some(403));
    assert!(Report::Refused(424).needs_fixture() && !reports[0].needs_fixture());
}

fn map(v: Vec<(&str, Json)>) -> Json {
    Json::Object(v.into_iter().map(|(k, x)| (k.to_string(), x)).collect())
}

fn string(s: &str) -> Json {
    Json::Text(s.to_string())
}

#[test]
fn shown_settings_hide_values() {
    let field = || map(vec![("name", string("x-a")), ("value", string("secret"))]);
    let settings = map(vec![
        (
            "gateway",
            map(vec![("request_headers", map(vec![("add", Json::List(vec![field()])), ("set", Json::List(vec![field()]))]))]),
        ),
        ("request_headers", Json::List(vec![string("secret")])),
        ("response_headers", Json::List(vec![string("secret")])),
        ("security", map(vec![("external", map(vec![("url", string("http://auth/?token=secret"))]))])),
    ]);
    let request = vec![("authorization".to_string(), "secret".to_string())];
    let response = vec![AddedHeader { name: "x-b".into(), value: "secret".into(), always: true }];
    let shown = show(&settings, &request, &response);
    assert!(!format!("{:?}", shown).contains("secret"));
    assert_eq!(shown.field("security").field("external").get_str("url"), Some("http://auth/"));
    let first = &shown.get_array("response_headers").unwrap()[0];
    assert_eq!((first.get_str("name"), first.get_str("value")), (Some("x-b"), Some("[redacted]")));
    let pair = shown.get_array("request_headers").unwrap()[0].as_array().unwrap();
    assert_eq!(pair[0].as_str(), Some("authorization"));
    assert!(show(&map(vec![]), &request, &response).same(&map(vec![])));
}

fn number(n: &str) -> Json {
    Json::Number(n.to_string())
}

fn reported_route() -> RouteReport {
    RouteReport {
        id: "r".into(),
        matcher: string("/a"),
        action: string("proxy"),
        settings: map(vec![("request_headers", Json::List(vec![string("secret")]))]),
        request_headers: vec![("x-key".into(), "secret".into())],
        response_headers: vec![],
        script: None,
        allowed_backends: Json::List(vec![]),
        tenant: None,
        traffic: Some(number("1")),
    }
}

fn told_route() -> Json {
    map(vec![
        ("action", string("proxy")),
        ("allowed_backends", Json::List(vec![])),
        ("id", string("r")),
        ("match", string("/a")),
        ("script", Json::Null),
        (
            "settings",
            map(vec![(
                "request_headers",
                Json::List(vec![Json::List(vec![string("x-key"), string("[redacted]")])]),
            )]),
        ),
        ("tenant", Json::Null),
        ("traffic", number("1")),
    ])
}

#[test]
fn routes_are_explained() {
    let listener = socket("127.0.0.1:80");
    let told = report::explain(7, listener, "a.test", "/a/./b?c", &Some(reported_route())).unwrap();
    assert!(told.same(&map(vec![
        ("host", string("a.test")),
        ("listener", string("127.0.0.1:80")),
        ("normalized_path", string("/a/b")),
        ("result", string("matched")),
        ("selected", told_route()),
        ("version", number("7")),
    ])));
    let told = report::explain(7, listener, "a.test", "/", &None).unwrap();
    assert_eq!(told.text("result", ""), "no route");
    assert!(matches!(told.get("selected"), Some(Json::Null)));
    assert!(report::explain(7, listener, "a.test", "a", &None).is_err());
}

#[test]
fn configurations_are_described() {
    let listener = socket("[::1]:443");
    let c = Certificate {
        names: Names { dns: vec!["a.test".into()], addresses: vec![], common: vec![] },
        not_before: 1_000,
        not_after: 1_209_700,
    };
    let told = report::Report {
        version: 3,
        sha256: "00".into(),
        ready: true,
        listeners: Json::List(vec![]),
        gateway: false,
        hosts: vec![HostReport {
            listener,
            names: vec!["a.test".into()],
            default: false,
            ingress: true,
            routes: vec![reported_route()],
        }],
        backends: vec![BackendReport {
            name: "b".into(),
            tls: false,
            hostname: "b.test".into(),
            options: Json::Null,
            origins: Json::List(vec![]),
            active: 2,
            members: vec![Member {
                endpoint: Endpoint { address: socket("10.0.0.1:80"), weight: 5 },
                id: 0,
                active: 2,
                failures: 1,
                blocked_until: Some(51),
                active_ok: Some(true),
            }],
        }],
        certificates: vec![
            CertificateReport {
                listener,
                name: "a.test".into(),
                certificate: Some(c),
                not_before: "then".into(),
                not_after: "later".into(),
            },
            CertificateReport {
                listener,
                name: "b.test".into(),
                certificate: None,
                not_before: String::new(),
                not_after: String::new(),
            },
        ],
    };
    let at = |now: i64, tick: u64| report::describe(&told, now, tick);
    let backend = |ejected: bool| {
        map(vec![(
            "b",
            map(vec![
                ("active", number("2")),
                (
                    "endpoints",
                    Json::List(vec![map(vec![
                        ("active", number("2")),
                        ("active_health", Json::Bool(true)),
                        ("address", string("10.0.0.1:80")),
                        ("ejected", Json::Bool(ejected)),
                        ("failures", number("1")),
                        ("weight", number("5")),
                    ])]),
                ),
                ("hostname", string("b.test")),
                ("options", Json::Null),
                ("origins", Json::List(vec![])),
                ("tls", Json::Bool(false)),
            ]),
        )])
    };
    let expected = map(vec![
        ("backends", backend(true)),
        (
            "certificates",
            Json::List(vec![
                map(vec![
                    ("available", Json::Bool(true)),
                    (
                        "health",
                        map(vec![
                            ("expires_at", number("1209700")),
                            ("expiring_soon", Json::Bool(true)),
                            ("hostname_matches", Json::Bool(true)),
                            ("not_after", string("later")),
                            ("not_before", string("then")),
                            ("valid", Json::Bool(true)),
                        ]),
                    ),
                    ("listener", string("[::1]:443")),
                    ("name", string("a.test")),
                ]),
                map(vec![
                    ("available", Json::Bool(false)),
                    ("health", Json::Null),
                    ("listener", string("[::1]:443")),
                    ("name", string("b.test")),
                ]),
            ]),
        ),
        ("listeners", Json::List(vec![])),
        ("ready", Json::Bool(true)),
        (
            "routes",
            Json::List(vec![map(vec![
                ("default", Json::Bool(false)),
                ("listener", string("[::1]:443")),
                ("names", Json::List(vec![string("a.test")])),
                ("routes", Json::List(vec![told_route()])),
                ("source", string("ingress")),
            ])]),
        ),
        ("sha256", string("00")),
        ("version", number("3")),
    ]);
    assert!(at(1_000, 50).same(&expected));
    assert!(at(1_000, 51).get("backends").unwrap().same(&backend(false)));
    let early = at(99, 50);
    let first = &early.get_array("certificates").unwrap()[0];
    assert!(matches!(first.get("available"), Some(Json::Bool(false))));
    assert!(matches!(first.field("health").get("expiring_soon"), Some(Json::Bool(false))));
}

#[test]
fn old_observations_do_not_agree() {
    let view = || vec![("converged".to_string(), Json::Bool(true)), ("enabled".to_string(), Json::Bool(true))];
    let agrees = |now: i64| {
        let told = report::replicas(true, Some(view()), 100, now);
        matches!(told.get("converged"), Some(Json::Bool(true)))
    };
    assert!(agrees(100));
    assert!(!agrees(99));
    assert!(!agrees(100_000));
    let told = report::replicas(false, None, 0, 9);
    assert!(told.same(&map(vec![
        ("converged", Json::Bool(false)),
        ("enabled", Json::Bool(false)),
        ("error", string("no replica observation yet")),
        ("observation_age_seconds", number("9")),
        ("replicas", Json::List(vec![])),
    ])));
}

fn terms() -> Terms {
    let mut declared = Table::new();
    declared.insert("canary".into(), "team/canary".into());
    let mut backends = Table::new();
    backends.insert("team/web".into(), "web.test".into());
    backends.insert("team/canary".into(), "canary.test".into());
    Terms {
        secure_port: None,
        inspection: Inspection::Full(4),
        scripted: true,
        declared,
        rollout: false,
        server_name: "server.test".into(),
        action: Action::Proxy { backend: "team/web".into(), uri: None },
        matcher: PathMatch::NginxPrefix("/".into()),
        root: "/srv".into(),
        request_headers: vec![],
        backends,
        mirror: None,
    }
}

fn opened(terms: Terms, rules: Rules, input: Simulation) -> Result<Run, SimulationError> {
    let listeners = vec![Listener { address: socket("127.0.0.1:80"), tls: false, http2: false }];
    let mut ready = simulation::prepare(&input, &listeners).unwrap();
    let party = simulation::identify(&mut ready, &IdentityPolicy::default(), false);
    Run::open(terms, rules, input, ready, party)
}

/// Begins a run and lets it through all checks.
fn let_through(run: &mut Run) -> RunAction {
    assert!(matches!(run.next(RunEvent::Go), RunAction::Find(Check::Certificate)));
    assert!(matches!(run.next(RunEvent::Found(Answer::Certificate(true))), RunAction::Find(Check::Quota)));
    assert!(matches!(run.next(RunEvent::Found(Answer::Quota(Ok(())))), RunAction::Find(Check::Early)));
    assert!(matches!(run.next(RunEvent::Found(Answer::Early(Ok(())))), RunAction::Find(Check::Late)));
    run.next(RunEvent::Found(Answer::Late(Ok(()))))
}

fn told() -> Told {
    Told { backend: map(vec![("healthy", Json::Bool(true))]), traffic: None }
}

fn setting() -> Setting {
    Setting { path: "/a".into(), live: false }
}

#[test]
fn each_run_is_reported_once() {
    let input = Simulation { repeat: 2, hold_permits: true, body: "body".into(), ..simulation_of("/a") };
    let mut run = opened(terms(), trial().rules, input).unwrap();
    assert!(matches!(run.next(RunEvent::Chosen("x".into())), RunAction::Misplaced));
    assert!(matches!(let_through(&mut run), RunAction::Script(Some(v)) if v.bytes == b"body".to_vec() && v.complete));
    let edits = Edits { path: None, query: Some("q".into()), headers: vec![("x-a".into(), None)] };
    let action = run.next(RunEvent::Scripted(Ok((Decision::Proxy("canary".into()), edits))));
    assert!(matches!(action, RunAction::Tell(b) if b == "team/canary"));
    assert!(run.reports.is_empty());
    assert!(matches!(run.next(RunEvent::Told(told())), RunAction::Done(true)));
    assert_eq!(run.reports.len(), 1);
    // One request is held at a time, so the next is refused before anything is found out.
    assert!(matches!(run.next(RunEvent::Go), RunAction::Find(Check::Certificate)));
    assert!(matches!(run.next(RunEvent::Found(Answer::Late(Ok(())))), RunAction::Misplaced));
    let action = run.next(RunEvent::Found(Answer::Certificate(true)));
    assert!(matches!(action, RunAction::Done(false)), "{:?}", action);
    assert!(matches!(run.reports[1], Report::Refused(_)));
    assert!(matches!(run.next(RunEvent::Go), RunAction::Finished));
    assert!(matches!(run.next(RunEvent::Go), RunAction::Misplaced));
    assert_eq!(run.reports.len(), 2);
    let j = answer::answer(&Some(reported_route()), &setting(), &run.reports, &run.input);
    let keys: Vec<&str> = j.as_object().unwrap().iter().map(|(k, _)| k.as_str()).collect();
    assert_eq!(keys, vec!["hold_permits", "rate_limit_scope", "repeat", "results", "shared_quota_checked"]);
    assert!(matches!(j.get("repeat"), Some(Json::Number(n)) if n == "2"));
    let results = j.get_array("results").unwrap();
    assert_eq!(results.len(), 2);
    let plugin = results[0].field("plugin");
    assert_eq!(plugin.field("decision").get_str("backend"), Some("canary"));
    assert_eq!(plugin.get_str("query"), Some("q"));
    let outbound = results[0].field("outbound");
    assert_eq!((outbound.get_str("kind"), outbound.get_str("backend")), (Some("proxy"), Some("team/canary")));
    assert!(matches!(outbound.get("io_executed"), Some(Json::Bool(false))));
    assert!(matches!(results[1].get("admitted"), Some(Json::Bool(false))));
    assert!(results[1].get("outbound").is_none() && results[1].get("plugin").is_none());
}

#[test]
fn a_single_run_is_the_answer() {
    let mut run = opened(Terms { scripted: false, ..terms() }, trial().rules, simulation_of("/a")).unwrap();
    assert!(matches!(let_through(&mut run), RunAction::Tell(b) if b == "team/web"));
    assert!(matches!(run.next(RunEvent::Told(told())), RunAction::Done(false)));
    assert!(matches!(run.next(RunEvent::Go), RunAction::Finished));
    let j = answer::answer(&Some(reported_route()), &setting(), &run.reports, &run.input);
    let keys: Vec<&str> = j.as_object().unwrap().iter().map(|(k, _)| k.as_str()).collect();
    assert_eq!(
        keys,
        vec![
            "action",
            "admitted",
            "external_auth",
            "mode",
            "normalized_path",
            "outbound",
            "rate_limit_scope",
            "route",
            "shared_quota_checked",
        ]
    );
    assert_eq!(j.get_str("rate_limit_scope"), Some("isolated_simulation"));
    assert!(matches!(j.get("shared_quota_checked"), Some(Json::Bool(false))));
    let missing = answer::answer(&None, &setting(), &vec![], &simulation_of("/a"));
    assert!(missing.same(&map(vec![("matched", Json::Bool(false)), ("status", number("404"))])));
}

#[test]
fn runs_end_where_they_are_decided() {
    let single = |terms: Terms, input: Simulation| opened(terms, trial().rules, input).unwrap();
    let answered = |run: &Run| answer::answer(&Some(reported_route()), &setting(), &run.reports, &run.input);
    let mut away = single(Terms { secure_port: Some(443), ..terms() }, simulation_of("/a?b"));
    assert!(matches!(away.next(RunEvent::Go), RunAction::Done(false)));
    let j = answered(&away);
    assert_eq!(j.field("outbound").get_str("location"), Some("https://example.test/a?b"));
    assert!(matches!(j.get("status"), Some(Json::Number(n)) if n == "308"));
    let long = Simulation { body: "longer".into(), ..simulation_of("/a") };
    let mut long = single(terms(), long);
    assert!(matches!(let_through(&mut long), RunAction::Done(_)));
    assert!(matches!(answered(&long).get("status"), Some(Json::Number(n)) if n == "413"));
    let mut tea = single(terms(), simulation_of("/a"));
    let_through(&mut tea);
    let reply = Decision::Reply(418, "tea".into());
    assert!(matches!(tea.next(RunEvent::Scripted(Ok((reply, Edits::default())))), RunAction::Done(_)));
    let j = answered(&tea);
    assert_eq!(j.field("outbound").get_str("kind"), Some("return"));
    assert_eq!(j.field("plugin").field("decision").get_str("body"), Some("tea"));
    let mut failed = single(terms(), simulation_of("/a"));
    let_through(&mut failed);
    assert!(matches!(failed.next(RunEvent::Scripted(Err("fuel".into()))), RunAction::Done(_)));
    assert_eq!(answered(&failed).get_str("error"), Some("fuel"));
    let mut other = single(terms(), simulation_of("/a"));
    let_through(&mut other);
    let action = other.next(RunEvent::Scripted(Ok((Decision::Proxy("other".into()), Edits::default()))));
    assert!(matches!(action, RunAction::Failed(RunError::Undeclared)));
    let mut staged = single(Terms { scripted: false, rollout: true, ..terms() }, simulation_of("/a"));
    assert!(matches!(let_through(&mut staged), RunAction::Choose(None)));
    assert!(matches!(staged.next(RunEvent::Chosen("team/canary".into())), RunAction::Tell(b) if b == "team/canary"));
    let unknown = Terms { scripted: false, backends: Table::new(), ..terms() };
    let action = let_through(&mut single(unknown, simulation_of("/a")));
    assert!(matches!(action, RunAction::Failed(RunError::Preview(PreviewError::UnknownBackend))));
}

#[test]
fn services_are_played_by_fixtures() {
    let rules = Rules { vouched: Some(vec![]), live: false, ..trial().rules };
    let mut bare = opened(terms(), rules, simulation_of("/a")).unwrap();
    bare.next(RunEvent::Go);
    bare.next(RunEvent::Found(Answer::Certificate(true)));
    bare.next(RunEvent::Found(Answer::Quota(Ok(()))));
    bare.next(RunEvent::Found(Answer::Early(Ok(()))));
    let j = answer::answer(&Some(reported_route()), &setting(), &bare.reports, &bare.input);
    assert!(matches!(j.get("status"), Some(Json::Number(n)) if n == "424"));
    assert!(j.get_str("error").unwrap().starts_with("external_auth fixture required"));
    let rules = Rules { vouched: Some(vec!["x-user".into()]), live: false, ..trial().rules };
    let fixture = AuthFixture { status: 200, headers: vec![("X-User".into(), "me".into())] };
    let input = Simulation { external_auth: Some(fixture), ..simulation_of("/a") };
    let mut run = opened(terms(), rules, input).unwrap();
    assert!(matches!(let_through(&mut run), RunAction::Script(_)));
    assert_eq!(run.trial.run.headers.get("x-user"), Some("me"));
    let pem = Simulation { client_certificate: Some("nothing".into()), ..simulation_of("/a") };
    assert_eq!(opened(terms(), trial().rules, pem).unwrap_err(), SimulationError::InvalidCertificate);
}

#[test]
fn answers_are_not_kept() {
    let field = |r: &admin::Response, name: &str| {
        r.fields.iter().find(|(n, _)| n == name).map(|(_, v)| v.clone()).unwrap()
    };
    let refused = admin::refuse(Refusal::Unauthenticated);
    assert_eq!(refused.status, 401);
    assert_eq!(refused.body, b"{\"error\":\"diagnostics require a configured bearer token\"}".to_vec());
    assert_eq!(field(&refused, "Content-Type"), "application/json");
    assert_eq!(field(&refused, "Cache-Control"), "no-store");
    let done = admin::conclude(201, b"{}".to_vec());
    assert_eq!((done.status, done.body.as_slice()), (201, b"{}".as_slice()));
    assert_eq!(field(&done, "Cache-Control"), "no-store");
    let long = admin::conclude(200, vec![b' '; 8 * 1024 * 1024 + 1]);
    assert_eq!(long.status, Refusal::AnswerTooLong.status());
    assert!(long.body.len() < 100);
    let plain = admin::respond(200, "text/plain", b"ok".to_vec());
    assert_eq!((field(&plain, "Content-Type"), field(&plain, "Cache-Control")), ("text/plain".into(), "no-store".into()));
}

fn visit(path: &str, method: &str, p: Option<Principal>) -> Visit {
    Visit::new(path.to_string(), method.to_string(), p)
}

fn command(owner: &str) -> Command {
    Command {
        owner: owner.into(),
        kind: None,
        revision: "r1".into(),
        operation: Operation::Approve,
        stage: None,
    }
}

#[test]
fn commands_are_on_record_before_they_are_given() {
    let writer = || Some(principal(Role::Writer, Some(vec!["team"])));
    let begun = |p: Option<Principal>| {
        let mut v = visit("/v1/rollouts", "POST", p);
        let a = v.next(VisitEvent::Begin);
        (v, a)
    };
    let (mut v, a) = begun(writer());
    assert!(matches!(a, VisitAction::Record(_)));
    assert!(matches!(v.next(VisitEvent::Begin), VisitAction::Misplaced));
    assert!(matches!(v.next(VisitEvent::Recorded(true)), VisitAction::Read));
    match v.next(VisitEvent::Read(Reading::Whole, Some(command("team/site")))) {
        VisitAction::Record(s) => assert!(s.starts_with("rollout/team/site/r1/")),
        other => panic!("{:?}", other),
    }
    match v.next(VisitEvent::Recorded(true)) {
        VisitAction::Command(c) => assert_eq!(c.owner, "team/site"),
        other => panic!("{:?}", other),
    }
    match v.next(VisitEvent::Commanded(false)) {
        VisitAction::Answer(Reply::Conflict) => {},
        other => panic!("{:?}", other),
    }
    assert!(matches!(v.next(VisitEvent::Commanded(true)), VisitAction::Misplaced));

    let refused = |owner: &str, recorded: bool| {
        let (mut v, _) = begun(writer());
        v.next(VisitEvent::Recorded(true));
        match v.next(VisitEvent::Read(Reading::Whole, Some(command(owner)))) {
            VisitAction::Record(_) => v.next(VisitEvent::Recorded(recorded)),
            a => a,
        }
    };
    assert!(matches!(refused("other/site", true), VisitAction::Answer(Reply::Refused(Refusal::RolloutOutsideScope))));
    assert!(matches!(refused("site", true), VisitAction::Answer(Reply::Refused(Refusal::OwnerNeedsNamespace))));
    assert!(matches!(refused("team/site", false), VisitAction::Answer(Reply::Refused(Refusal::AuditUnavailable))));
    let (mut v, _) = begun(writer());
    let a = v.next(VisitEvent::Recorded(false));
    assert!(matches!(a, VisitAction::Answer(Reply::Refused(Refusal::AuditUnavailable))));
    let (_, a) = begun(None);
    assert!(matches!(a, VisitAction::Answer(Reply::Refused(Refusal::Unauthenticated))));
    let (mut v, _) = begun(Some(principal(Role::Reader, None)));
    let a = v.next(VisitEvent::Recorded(true));
    assert!(matches!(a, VisitAction::Answer(Reply::Refused(Refusal::RolloutNeedsWriter))));
    let mut v = visit("/v1/config", "GET", Some(principal(Role::Reader, None)));
    v.next(VisitEvent::Begin);
    assert!(matches!(v.next(VisitEvent::Recorded(true)), VisitAction::Perform(Task::Config)));
    match v.next(VisitEvent::Done(200)) {
        VisitAction::Answer(r) => assert_eq!((r.status(), r.outcome().as_str()), (200, "200")),
        other => panic!("{:?}", other),
    }
    assert!(matches!(visit("/metrics", "GET", None).next(VisitEvent::Begin), VisitAction::Telemetry));
}

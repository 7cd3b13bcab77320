use rgnix::backend::{Access, Options, Profile, Setup};
use rgnix::config::load::Listener;
use rgnix::gateway::attachment;
use rgnix::gateway::attachment::{Active, Attachment, RefError, Speech};
use rgnix::gateway::checkpoint;
use rgnix::gateway::checkpoint::{Accepted, Script, Write};
use rgnix::gateway::controller;
use rgnix::gateway::controller::{Cache, Event};
use rgnix::gateway::entries;
use rgnix::gateway::listeners;
use rgnix::gateway::listeners::{Examined, Explanation, Gate, Ports, Programmed, References};
use rgnix::gateway::preflight;
use rgnix::gateway::preflight::PreflightError;
use rgnix::gateway::placing::{in_order, refuse, Placing, RoutePlan};
use rgnix::gateway::prepare;
use rgnix::gateway::prepare::{PrepareError, SettingsError};
use rgnix::gateway::preparing;
use rgnix::gateway::preparing::{Failure, Prepared, Question, TrafficWish};
use rgnix::gateway::reach::{reach, reach_rule, Cluster};
use rgnix::gateway::references;
use rgnix::gateway::references::{CertificateError, Object, Resources, TlsSecret};
use rgnix::gateway::report;
use rgnix::gateway::report::Report;
use rgnix::gateway::routes::{filters, valid_hostname, FilterError, MatchError, Policy};
use rgnix::gateway::scripts;
use rgnix::gateway::scripts::{Compiled, Good, ScriptError, ScriptQuota, Slot};
use rgnix::gateway::serving;
use rgnix::gateway::serving::Traffic;
use rgnix::gateway::spec::{
    BackendRef, Filter, Header, Headers, Match, Mirror, Path, Redirect, Reference, RouteSpec, Rule,
};
use rgnix::gateway::status;
use rgnix::gateway::status::{Outside, Served};
use rgnix::gateway::timeouts::{duration, Budgets, TimeoutError, Timeouts};
use rgnix::gateway::tls_policy::{accept, transport, Policies, Reason, TlsPolicyError, TlsPolicySpec, Trust};
use rgnix::gateway::walk::{Candidate, Known, Pause, Walk, WalkAction, WalkEvent};
use rgnix::identity::IdentityPolicy;
use rgnix::ingress::backends::{
    Owner, ServiceObject, ServicePort, ServiceSpec, SliceEndpoint, SliceObject, SlicePort,
};
use rgnix::ingress::policy::{PolicyError, Readings};
use rgnix::ingress::routes::{Quota, Usage};
use rgnix::json::Json;
use rgnix::model::PathMatch;
use rgnix::net::parse_socket;

fn map(v: Vec<(&str, Json)>) -> Json {
    Json::Object(v.into_iter().map(|(k, x)| (k.to_string(), x)).collect())
}

fn string(s: &str) -> Json {
    Json::Text(s.to_string())
}

fn object(ns: Option<&str>, name: &str, data: Json) -> Object {
    Object {
        namespace: ns.map(|s| s.to_string()),
        name: name.into(),
        uid: Some(format!("uid-{}", name)),
        created: Some(1),
        generation: Some(1),
        labels: vec![],
        annotations: vec![],
        data,
    }
}

fn resources(v: Vec<(&str, Vec<Object>)>) -> Resources {
    Resources { kinds: v.into_iter().map(|(k, x)| (k.to_string(), x)).collect() }
}

fn served() -> Served {
    Served { namespace: "edge".into(), name: "main".into(), controller: "example.test/controller".into() }
}

fn backend(name: &str) -> BackendRef {
    BackendRef {
        group: None,
        kind: None,
        name: name.into(),
        namespace: None,
        port: Some(80),
        weight: None,
        filters: vec![],
    }
}

fn rule(backends: Vec<BackendRef>, filters: Vec<Filter>) -> Rule {
    Rule { name: None, matches: vec![], filters, backend_refs: backends, timeouts: None }
}

fn filter(type_: &str) -> Filter {
    Filter {
        type_: type_.into(),
        request_header_modifier: None,
        response_header_modifier: None,
        request_redirect: None,
        url_rewrite: None,
        request_mirror: None,
    }
}

fn grant() -> Object {
    let from = map(vec![
        ("group", string("gateway.networking.k8s.io")),
        ("kind", string("HTTPRoute")),
        ("namespace", string("team")),
    ]);
    let to = map(vec![("group", string("")), ("kind", string("Service")), ("name", string("web"))]);
    object(
        Some("shared"),
        "grant",
        map(vec![("spec", map(vec![("from", Json::List(vec![from])), ("to", Json::List(vec![to]))]))]),
    )
}

#[test]
fn references_need_a_grant() {
    let r = resources(vec![("ReferenceGrant", vec![grant()])]);
    assert!(references::permitted(&r, "team", "HTTPRoute", "team", "Service", "any"));
    assert!(references::permitted(&r, "team", "HTTPRoute", "shared", "Service", "web"));
    assert!(!references::permitted(&r, "team", "HTTPRoute", "shared", "Service", "db"));
    assert!(!references::permitted(&r, "other", "HTTPRoute", "shared", "Service", "web"));
    let none = resources(vec![]);
    assert!(!references::permitted(&none, "team", "HTTPRoute", "shared", "Service", "web"));
    assert_eq!(attachment::check_reference(&r, &backend("any"), "team", "HTTPRoute"), Ok(()));
    let foreign = BackendRef { namespace: Some("shared".into()), ..backend("db") };
    assert_eq!(attachment::check_reference(&r, &foreign, "team", "HTTPRoute"), Err(RefError::NotPermitted));
    let odd = BackendRef { kind: Some("Planet".into()), ..backend("web") };
    assert_eq!(attachment::check_reference(&r, &odd, "team", "HTTPRoute"), Err(RefError::InvalidKind));
    let portless = BackendRef { port: None, ..backend("web") };
    assert_eq!(attachment::check_reference(&r, &portless, "team", "HTTPRoute"), Err(RefError::Unsupported));
}

#[test]
fn services_speak_their_protocol() {
    assert_eq!(attachment::check_service(false, true, false, None), Err(RefError::NotFound));
    assert_eq!(attachment::check_service(true, false, false, None), Err(RefError::Authority));
    assert_eq!(attachment::check_service(true, true, false, None), Ok(Speech::Route));
    assert_eq!(attachment::check_service(true, true, false, Some("kubernetes.io/h2c")), Ok(Speech::Http2));
    assert_eq!(attachment::check_service(true, true, false, Some("https")), Err(RefError::Protocol));
    assert_eq!(attachment::check_service(true, true, true, Some("https")), Ok(Speech::Route));
}

fn listener(name: &str, hostname: &str) -> Json {
    map(vec![
        ("name", string(name)),
        ("hostname", string(hostname)),
        ("port", Json::Number("80".into())),
        ("protocol", string("HTTP")),
    ])
}

fn parent(section: Option<&str>) -> Reference {
    Reference {
        name: "main".into(),
        namespace: Some("edge".into()),
        group: None,
        kind: None,
        section_name: section.map(|s| s.to_string()),
        port: None,
    }
}

#[test]
fn attached_routes_are_allowed() {
    let r = resources(vec![]);
    let v = vec![listener("a", "*.example.test"), listener("b", "other.test")];
    let active = vec![Active { listener: 0, valid: true }, Active { listener: 1, valid: true }];
    let hosts = vec!["api.example.test".to_string()];
    let at = |section: Option<&str>, ns: &str, hosts: &Vec<String>| {
        attachment::attach(&r, &parent(section), &v, &active, "edge", ns, "HTTPRoute", hosts)
    };
    assert_eq!(at(Some("a"), "edge", &hosts), (Attachment::Attached, vec![0]));
    assert_eq!(at(None, "edge", &hosts), (Attachment::NoMatchingHostname, vec![0]));
    assert_eq!(at(Some("b"), "edge", &hosts).0, Attachment::NoMatchingHostname);
    assert_eq!(at(Some("c"), "edge", &hosts).0, Attachment::NoMatchingParent);
    assert_eq!(at(None, "team", &hosts).0, Attachment::NotAllowed);
    assert_eq!(attachment::hosts_at(&hosts, &v[0]), vec!["api.example.test"]);
    assert_eq!(attachment::hosts_at(&vec![], &v[0]), vec!["*.example.test"]);
    assert!(attachment::parent_targets(&parent(None), "team", &served()));
    assert_eq!(attachment::route_id("team", "site", "HTTPRoute", 1, 2, 3), "team/site:gateway:HTTPRoute:1:2:3");
}

#[test]
fn unusable_backends_keep_their_share() {
    let refs = vec![BackendRef { weight: Some(3), ..backend("a") }, backend("b")];
    let b = attachment::bind(&rule(refs, vec![]), &vec![Some(RefError::NotFound), None], "u", "team", false);
    assert_eq!(b.weights.len(), 2);
    assert_eq!(b.weights[0], (None, 3));
    assert_eq!(b.weights[1].1, 1);
    assert_eq!(b.weights[1].0, Some(attachment::key("u", "team", &backend("b"))));
    assert_eq!(b.problem, Some(RefError::NotFound));
    let gone = attachment::unreachable(b);
    assert_eq!(gone.weights, vec![(None, 1)]);
    assert_eq!(gone.problem, Some(RefError::NotFound));
    let rules = vec![rule(vec![], vec![]), rule(vec![], vec![])];
    assert_eq!(attachment::count_routes(&rules, 2, 3), Some(12));
}

#[test]
fn gateways_are_those_of_the_controller() {
    let class = |controller: &str| {
        object(None, "class", map(vec![("spec", map(vec![("controllerName", string(controller))]))]))
    };
    let gateway = |members: Vec<(&str, Json)>| {
        let mut v = vec![("gatewayClassName", string("class"))];
        v.extend(members);
        object(Some("edge"), "main", map(vec![("spec", map(v))]))
    };
    let all = |c: Object, g: Object| resources(vec![("Gateway", vec![g]), ("GatewayClass", vec![c])]);
    assert_eq!(listeners::gate(&resources(vec![]), &served()), Gate::Absent);
    assert_eq!(listeners::gate(&all(class("x"), gateway(vec![])), &served()), Gate::Foreign);
    assert_eq!(
        listeners::gate(&all(class("example.test/controller"), gateway(vec![])), &served()),
        Gate::Owned { class_valid: true, gateway_valid: true }
    );
    assert_eq!(
        listeners::gate(&all(class("example.test/controller"), gateway(vec![("odd", Json::Null)])), &served()),
        Gate::Owned { class_valid: true, gateway_valid: false }
    );
}

#[test]
fn listeners_are_unique() {
    let available = vec![Listener { address: parse_socket("0.0.0.0:8080").unwrap(), tls: false, http2: false }];
    let ports = Ports { http: 80, https: 443 };
    let v = vec![listener("a", "x.test"), listener("b", "x.test"), listener("c", "bad name")];
    let e = listeners::examine(&v, true, &available, ports);
    assert!(e[0].sound && !e[2].sound);
    assert_eq!(e[0].address, parse_socket("0.0.0.0:8080"));
    assert!(!e[1].sound);
    let f: Vec<_> = e.iter().map(|x| listeners::fate(*x, Ok(()))).collect();
    assert!(f[0].valid);
    assert_eq!(f[2].why, Explanation::Unsupported);
    assert_eq!(listeners::programmed(&e, &f, false, false), Programmed::Programmed);
    assert_eq!(listeners::programmed(&e, &f, false, true), Programmed::Pending);
    assert_eq!(listeners::programmed(&vec![], &vec![], true, false), Programmed::Invalid);
}

#[test]
fn secure_listeners_have_certificates() {
    let e = Examined { address: None, sound: true, secure: true, contradictory: false };
    let f = listeners::fate(e, Err(CertificateError::NotPermitted));
    assert!(!f.valid);
    assert_eq!(f.references, References::NotPermitted);
    assert_eq!(listeners::fate(e, Err(CertificateError::Name)).references, References::Invalid);
    assert!(listeners::fate(e, Ok(())).valid);
    let both = Examined { contradictory: true, secure: false, ..e };
    assert_eq!(listeners::fate(both, Ok(())).why, Explanation::HttpWithTls);
}

fn tls_listener(tls: Json) -> Json {
    map(vec![("tls", tls)])
}

#[test]
fn certificates_are_found_by_their_references() {
    let r = resources(vec![("Secret", vec![object(Some("edge"), "cert", Json::Null)])]);
    let find = |tls: Json| references::certificate_secret(&r, "edge", &tls_listener(tls));
    let refs = |v: Vec<Json>| map(vec![("certificateRefs", Json::List(v))]);
    let named = |n: &str| map(vec![("name", string(n))]);
    assert_eq!(find(refs(vec![named("cert")])), Ok(("edge".to_string(), "cert".to_string())));
    assert_eq!(find(refs(vec![named("none")])), Err(CertificateError::SecretMissing));
    assert_eq!(find(refs(vec![])), Err(CertificateError::NotOneReference));
    assert_eq!(find(map(vec![])), Err(CertificateError::NoReferences));
    assert_eq!(find(Json::Null), Err(CertificateError::UnknownField));
    assert_eq!(find(map(vec![("mode", string("Passthrough"))])), Err(CertificateError::NotTerminating));
    let odd = map(vec![("name", string("cert")), ("kind", string("Odd"))]);
    assert_eq!(find(refs(vec![odd])), Err(CertificateError::NotSecret));
    let far = map(vec![("name", string("cert")), ("namespace", string("x"))]);
    assert_eq!(find(refs(vec![far])), Err(CertificateError::NotPermitted));
}

#[test]
fn secrets_are_usable_when_they_hold_what_is_needed() {
    let secret = |type_: &str, keys: &[&str]| {
        Some(TlsSecret {
            type_: Some(type_.into()),
            data: Some(keys.iter().map(|k| (k.to_string(), b"nothing".to_vec())).collect()),
        })
    };
    let error = |s: Option<TlsSecret>| references::usable(&s, "a.test", 0).unwrap_err();
    assert_eq!(error(None), CertificateError::SecretUnreadable);
    assert_eq!(error(secret("Opaque", &[])), CertificateError::SecretType);
    let empty = Some(TlsSecret { type_: Some("kubernetes.io/tls".into()), data: None });
    assert_eq!(error(empty), CertificateError::SecretEmpty);
    assert_eq!(error(secret("kubernetes.io/tls", &[])), CertificateError::CertificateMissing);
    assert_eq!(error(secret("kubernetes.io/tls", &["tls.crt"])), CertificateError::KeyMissing);
    assert_eq!(error(secret("kubernetes.io/tls", &["tls.crt", "tls.key"])), CertificateError::Invalid);
}

fn accepted() -> Accepted {
    Accepted {
        schema: 1,
        gateway_uid: "g".into(),
        namespace: "team".into(),
        name: "site".into(),
        kind: "HTTPRoute".into(),
        uid: "uid-site".into(),
        reference: "map/key".into(),
        configmap_uid: "m".into(),
        source: "code".into(),
        spec: Json::Null,
        annotations: vec![("rgnix.io/script".into(), "map/key".into())],
    }
}

#[test]
fn current_gateway_checkpoints_are_spared() {
    let route = || {
        let mut o = object(Some("team"), "site", Json::Null);
        o.annotations = vec![("rgnix.io/script".into(), "map/key".into())];
        Some(o)
    };
    let script = || Some(Script { uid: Some("m".into()), source: Some("code".into()) });
    let g = Some("g".to_string());
    assert!(checkpoint::is_current(&accepted(), &route(), &Some(Json::Null), &g, &script()));
    assert!(!checkpoint::is_current(&accepted(), &route(), &Some(Json::Bool(true)), &g, &script()));
    assert!(!checkpoint::is_current(&accepted(), &None, &Some(Json::Null), &g, &script()));
    assert_eq!(checkpoint::write(&None, "x"), Write::Verify);
    assert_eq!(checkpoint::write(&Some("x".into()), "x"), Write::Kept);
    assert_eq!(checkpoint::write(&None, &"x".repeat(1 << 21)), Write::TooLong);
    assert!(checkpoint::check_kind("HTTPRoute") && !checkpoint::check_kind("Planet"));
    assert_ne!(checkpoint::name(&served(), "a"), checkpoint::name(&served(), "b"));
}

#[test]
fn listing_again_loses_nothing() {
    let mut c = Cache::new();
    let o = |n: &str| object(Some("team"), n, Json::Null);
    assert!(!c.observe(Event::Init));
    c.observe(Event::InitApply(o("b")));
    c.observe(Event::InitApply(o("a")));
    assert!(!c.ready);
    assert!(c.observe(Event::InitDone) && c.ready);
    let names = |c: &Cache| c.objects.iter().map(|x| x.name.clone()).collect::<Vec<String>>();
    assert_eq!(names(&c), vec!["a", "b"]);
    c.observe(Event::Init);
    assert_eq!(names(&c), vec!["a", "b"]);
    assert!(c.observe(Event::Delete(o("a"))));
    assert_eq!(names(&c), vec!["b"]);
    c.observe(Event::Apply(o("c")));
    assert_eq!(names(&c), vec!["b", "c"]);
    assert_eq!(controller::group("HTTPRoute"), "gateway.networking.k8s.io");
    assert_eq!(controller::watched(&vec!["b".into(), "a".into()], "own", "pub"), vec!["a", "b", "own", "pub"]);
    assert!(controller::must_publish("x", "y", true, true) && !controller::must_publish("x", "x", true, true));
}

#[test]
fn failed_conditions_are_found() {
    let bad = status::condition(Some(2), "Accepted", false, "Invalid", "no", "now");
    let good = status::condition(None, "Programmed", true, "Programmed", "", "now");
    assert_eq!(bad.get_str("status"), Some("False"));
    assert_eq!(good.field("observedGeneration").as_u64(), Some(1));
    let j = map(vec![("conditions", Json::List(vec![bad, good]))]);
    let mut out: Vec<String> = vec![];
    controller::collect_diagnostics(&j, "team/site", &mut out);
    assert_eq!(out.len(), 1);
    assert_eq!(controller::new_diagnostics(&out, &vec![]), out);
    assert!(controller::new_diagnostics(&out, &out).is_empty());
    let mut faults = vec![];
    preflight::collect_errors(&j, &mut faults);
    assert_eq!(faults.len(), 1);
    assert!(faults[0].reason.same(&string("Invalid")));
}

#[test]
fn unchanged_conditions_keep_their_time() {
    let old = map(vec![(
        "conditions",
        Json::List(vec![status::condition(Some(1), "Accepted", true, "Accepted", "m", "then")]),
    )]);
    let new = map(vec![(
        "conditions",
        Json::List(vec![status::condition(Some(1), "Accepted", true, "Accepted", "m", "now")]),
    )]);
    let time = |j: &Json| j.get_array("conditions").unwrap()[0].text("lastTransitionTime", "").to_string();
    assert_eq!(time(&status::stable_conditions(&new, &old)), "then");
    let changed = map(vec![(
        "conditions",
        Json::List(vec![status::condition(Some(1), "Accepted", false, "No", "m", "now")]),
    )]);
    assert_eq!(time(&status::stable_conditions(&changed, &old)), "now");
}

#[test]
fn entries_of_others_stay() {
    let entry = |name: &str, controller: &str| {
        map(vec![
            ("parentRef", map(vec![("name", string(name)), ("namespace", string("edge"))])),
            ("controllerName", string(controller)),
        ])
    };
    let ns = Some("team".to_string());
    let current = vec![entry("main", "example.test/controller"), entry("other", "another/controller")];
    let mut desired = vec![entry("main", "example.test/controller")];
    status::keep_foreign(&mut desired, &current, "parentRef", &ns, &served());
    assert_eq!(desired.len(), 2);
    assert!(desired.iter().any(|j| j.same(&entry("other", "another/controller"))));
    assert!(status::owns_parent(&map(vec![("name", string("main")), ("namespace", string("edge"))]), &ns, &served()));
    assert_eq!(status::shared("HTTPRoute"), Some(("parents", "parentRef")));
    assert_eq!(status::shared("Gateway"), None);
    assert!(status::lease_name("main").starts_with("main-gw-"));
    let a = status::addresses(&vec![Outside { ip: Some("1.2.3.4".into()), hostname: None }]);
    assert_eq!(a[0].get_str("type"), Some("IPAddress"));
    assert_eq!(a[0].get_str("value"), Some("1.2.3.4"));
}

#[test]
fn candidates_of_gateways_are_checked() {
    let v1 = Some("gateway.networking.k8s.io/v1".to_string());
    assert_eq!(preflight::check_kind(&v1, "HTTPRoute"), Ok(()));
    assert_eq!(preflight::check_kind(&None, "HTTPRoute"), Err(PreflightError::NoType));
    assert_eq!(preflight::check_kind(&v1, "Planet"), Err(PreflightError::WrongType));
    let team = Some("team".to_string());
    let all: Vec<String> = vec![];
    assert_eq!(preflight::managed("HTTPRoute", &team, "x", &vec![parent(None)], &all, &served()), Ok(true));
    assert_eq!(preflight::managed("HTTPRoute", &team, "x", &vec![], &all, &served()), Ok(false));
    assert_eq!(
        preflight::managed("HTTPRoute", &None, "x", &vec![], &all, &served()),
        Err(PreflightError::NoNamespace)
    );
    assert_eq!(preflight::check_name("team", ""), Err(PreflightError::Unnamed));
    assert_eq!(preflight::conclude(false, 1, 1, "a", "a"), Err(PreflightError::Unreported));
    assert_eq!(preflight::conclude(true, 1, 2, "a", "a"), Err(PreflightError::Changed));
    assert_eq!(preflight::conclude(true, 1, 1, "a", "a"), Ok(()));
}

#[test]
fn forbidden_copies_are_refused() {
    let mirror = || {
        let mut f = filter("RequestMirror");
        f.request_mirror = Some(Mirror { backend_ref: backend("copy"), percent: None, fraction: None });
        f
    };
    let with = || vec![rule(vec![backend("a")], vec![mirror()])];
    assert_eq!(prepare::check_rules(&with(), false, true), Err(PrepareError::Filter(FilterError::NotExactlyOne)));
    assert_eq!(prepare::check_rules(&with(), false, false), Err(PrepareError::Mirroring));
    assert_eq!(prepare::check_rules(&vec![rule(vec![backend("a")], vec![])], false, false), Ok(()));
    assert_eq!(prepare::check_traffic(&with(), &vec![], true, true, "team"), Err(PrepareError::TwoMirrors));
    let plain = vec![rule(vec![backend("a")], vec![])];
    assert_eq!(prepare::check_traffic(&plain, &vec![], true, false, "team"), Err(PrepareError::Mirroring));
    assert_eq!(
        prepare::check_traffic(&plain, &vec!["missing".into()], false, true, "team"),
        Err(PrepareError::TrafficTarget)
    );
    assert_eq!(prepare::check_namespace(&vec!["a".into()], "b", false, false), Err(PrepareError::OutOfScope));
    assert_eq!(prepare::check_namespace(&vec![], "b", true, false), Err(PrepareError::Denied));
    assert_eq!(prepare::check_size(1, &vec!["bad name".into()]), Err(PrepareError::Hostname));
    assert_eq!(prepare::check_size(usize::MAX, &vec![]), Err(PrepareError::TooLarge));
}

#[test]
fn replaced_scripts_are_not_used() {
    let config = |uid: &str| {
        let mut m = object(Some("team"), "map", map(vec![("data", map(vec![("key", string("code"))]))]));
        m.uid = Some(uid.into());
        resources(vec![("ConfigMap", vec![m])])
    };
    let route = |reference: Option<&str>| {
        let mut o = object(Some("team"), "site", Json::Null);
        if let Some(r) = reference {
            o.annotations = vec![("rgnix.io/script".into(), r.into())];
        }
        o
    };
    let s = scripts::source(&config("m"), &route(Some("map/key")), None).unwrap().unwrap();
    assert_eq!((s.map_uid.as_str(), s.source.as_str()), ("m", "code"));
    assert!(scripts::source(&config("m"), &route(None), None).unwrap().is_none());
    let error = |r: &str, q: Option<ScriptQuota>| scripts::source(&config("m"), &route(Some(r)), q).unwrap_err();
    assert_eq!(error("map", None), ScriptError::Reference);
    assert_eq!(error("none/key", None), ScriptError::MapMissing);
    assert_eq!(error("map/none", None), ScriptError::KeyMissing);
    assert_eq!(error("map/key", Some(ScriptQuota { allow_scripts: false, max_script_bytes: 9 })), ScriptError::Disabled);
    assert_eq!(error("map/key", Some(ScriptQuota { allow_scripts: true, max_script_bytes: 3 })), ScriptError::TooLong);
    let good = || Some(Good { reference: "map/key".into(), map_uid: "m".into(), source_bytes: 4, build: 7 });
    assert!(scripts::fall_back(&config("m"), &route(Some("map/key")), good()).is_some());
    assert!(scripts::fall_back(&config("other"), &route(Some("map/key")), good()).is_none());
    assert!(scripts::fall_back(&config("m"), &route(None), good()).is_none());
}

#[test]
fn fresh_scripts_are_used() {
    let s = || scripts::Source { reference: "map/key".into(), map_uid: "m".into(), source: "code".into() };
    let mut slot = Slot { good: None, pending: true };
    assert_eq!(slot.settle(false, &s(), None, Compiled::Failed, 1), Err(ScriptError::CompilationFailed));
    assert_eq!(slot.settle(false, &s(), None, Compiled::Done(7), 1), Ok(scripts::Served::Fresh(7)));
    assert_eq!(slot.settle(false, &s(), None, Compiled::Failed, 1), Ok(scripts::Served::Retained(7)));
    assert_eq!(slot.settle(true, &s(), None, Compiled::Failed, 1), Err(ScriptError::CompilationFailed));
    let tight = Some(ScriptQuota { allow_scripts: true, max_script_bytes: 3 });
    assert_eq!(slot.settle(false, &s(), tight, Compiled::Failed, 1), Err(ScriptError::RetainedTooLong));
    assert_eq!(
        slot.settle(false, &s(), None, Compiled::Done(8), usize::MAX),
        Err(ScriptError::CheckpointTooLong)
    );
    let other = scripts::Source { map_uid: "n".into(), ..s() };
    assert_eq!(slot.settle(false, &other, None, Compiled::Failed, 1), Err(ScriptError::CompilationFailed));
    let empty = Slot { good: None, pending: false };
    let kept = Accepted { configmap_uid: "m".into(), ..accepted() };
    assert!(empty.wants(false, &Some(kept), &s(), None));
    assert!(!empty.wants(false, &None, &s(), None));
}

#[test]
fn durations_have_units() {
    assert_eq!(duration("1h2m3s4ms"), Ok(3_723_004));
    assert_eq!(duration("10s"), Ok(10_000));
    assert_eq!(duration(""), Err(TimeoutError::Empty));
    assert_eq!(duration("10"), Err(TimeoutError::Unit));
    assert_eq!(duration("x"), Err(TimeoutError::Number));
    let t = |r: &str, b: &str| Timeouts { request: Some(r.into()), backend_request: Some(b.into()) };
    let b = t("10s", "5s").budgets().unwrap();
    assert_eq!((b.request, b.backend_request), (Some(10_000), Some(5_000)));
    assert_eq!(t("5s", "10s").budgets().unwrap_err(), TimeoutError::BackendExceedsRequest);
}

fn tls_spec(hostname: &str) -> TlsPolicySpec {
    TlsPolicySpec {
        target_refs: vec![Reference {
            name: "web".into(),
            namespace: None,
            group: Some(String::new()),
            kind: Some("Service".into()),
            section_name: None,
            port: None,
        }],
        hostname: hostname.into(),
        ca_certificate_refs: vec![],
        well_known_ca_certificates: Some("System".into()),
        options: vec![],
    }
}

#[test]
fn invalid_policies_fail_closed() {
    let r = resources(vec![]);
    let t = transport(&r, &vec![], "team", &tls_spec("backend.test")).unwrap();
    assert_eq!(t.server_name, "backend.test");
    assert!(t.ca_pem.is_none());
    let error = |s: TlsPolicySpec| transport(&r, &vec![], "team", &s).unwrap_err();
    assert_eq!(error(tls_spec("*.test")), TlsPolicyError::Hostname);
    let none = TlsPolicySpec { well_known_ca_certificates: None, ..tls_spec("a.test") };
    assert_eq!(error(none), TlsPolicyError::NoAuthority);
    let many = TlsPolicySpec { target_refs: vec![], ..tls_spec("a.test") };
    assert_eq!(error(many), TlsPolicyError::Targets);
    let pem = Trust { server_name: "a".into(), ca_pem: Some("x".into()) };
    assert_eq!(accept(pem, false).unwrap_err(), TlsPolicyError::AuthorityInvalid);
    let target = map(vec![(
        "spec",
        map(vec![(
            "targetRefs",
            Json::List(vec![map(vec![
                ("group", string("")),
                ("kind", string("Service")),
                ("name", string("web")),
            ])]),
        )]),
    )]);
    let v = vec![object(Some("team"), "policy", target)];
    let services = resources(vec![("Service", vec![object(Some("team"), "web", Json::Null)])]);
    let (policies, verdicts) = Policies::build(&services, &v, &vec![Err(TlsPolicyError::Hostname)]);
    assert_eq!(verdicts.len(), 1);
    assert!(!verdicts[0].accepted);
    assert_eq!(verdicts[0].reason, Reason::Invalid);
    assert!(policies.policy("team", "web", None).is_err());
    assert!(matches!(policies.policy("team", "db", None), Ok(None)));
    let mut b = setup();
    assert_eq!(policies.apply("team", "web", None, &mut b), Err(TlsPolicyError::Hostname));
    assert!(!b.tls && b.hostname == "web.team.svc");
    assert_eq!(policies.apply("team", "db", None, &mut b), Ok(false));
    assert!(!b.tls && b.hostname == "web.team.svc");
    let trust = Trust { server_name: "inner.test".into(), ca_pem: Some("pem".into()) };
    let (policies, verdicts) = Policies::build(&services, &v, &vec![Ok(trust)]);
    assert!(verdicts[0].accepted);
    assert_eq!(policies.apply("team", "web", None, &mut b), Ok(true));
    assert!(b.tls && b.profile.http2);
    assert_eq!((b.hostname.as_str(), b.ca_pem.as_deref()), ("inner.test", Some("pem")));
    assert_eq!(b.profile.server_name.as_deref(), Some("inner.test"));
    assert_eq!(b.profile.identity, Some(("cert".to_string(), "key".to_string())));
    let r = Report { generation: Some(3), now: "now".into() };
    let told = report::policy_status(&r, &served(), &verdicts[0], &None);
    let ancestor = &told.get_array("ancestors").unwrap()[0];
    assert_eq!(ancestor.get_str("controllerName"), Some("example.test/controller"));
    assert_eq!(ancestor.field("ancestorRef").get_str("name"), Some("main"));
    assert_eq!(ancestor.get_array("conditions").unwrap()[0].get_str("status"), Some("True"));
}

#[test]
fn matches_and_filters_are_checked() {
    assert!(valid_hostname("*.example.test") && !valid_hostname("bad name"));
    let path = |type_: &str, value: &str| Match {
        path: Some(Path { type_: type_.into(), value: value.into() }),
        method: None,
        headers: vec![],
        query_params: vec![],
    };
    assert!(matches!(path("Exact", "/a").path_match(false), Ok(PathMatch::Exact(p)) if p == "/a"));
    assert_eq!(path("Exact", "a").path_match(false).unwrap_err(), MatchError::InvalidPath);
    assert_eq!(path("RegularExpression", "/a").path_match(false).unwrap_err(), MatchError::PathExpression);
    let error = |f: Vec<Filter>| filters(&rule(vec![], f), 80, true).unwrap_err();
    assert_eq!(error(vec![filter("ExtensionRef")]), FilterError::NotExactlyOne);
    let headers = |name: &str| {
        let mut f = filter("RequestHeaderModifier");
        f.request_header_modifier = Some(Headers {
            set: vec![Header { name: name.into(), value: "1".into() }],
            add: vec![],
            remove: vec![],
        });
        f
    };
    assert_eq!(error(vec![headers("bad name")]), FilterError::InvalidName);
    assert_eq!(error(vec![headers("connection")]), FilterError::TransportManaged);
    assert_eq!(error(vec![headers("x-a"), headers("x-b")]), FilterError::Repeated);
    let mut redirect = filter("RequestRedirect");
    redirect.request_redirect =
        Some(Redirect { scheme: None, hostname: None, port: None, path: None, status_code: Some(200) });
    assert_eq!(error(vec![redirect]), FilterError::InvalidStatus);
    let p: Policy = filters(&rule(vec![], vec![headers("x-a")]), 80, true).unwrap();
    assert_eq!(p.request_headers.set.len(), 1);
}

#[test]
fn entries_are_of_their_route() {
    let many = Rule {
        matches: vec![
            Match { path: None, method: None, headers: vec![], query_params: vec![] },
            Match { path: None, method: None, headers: vec![], query_params: vec![] },
        ],
        ..rule(vec![backend("web"), backend("api")], vec![])
    };
    let mut copied = filter("RequestMirror");
    let other = BackendRef { namespace: Some("ops".to_string()), ..backend("shadow") };
    copied.request_mirror = Some(Mirror { backend_ref: other, percent: None, fraction: None });
    let rules = vec![rule(vec![backend("web")], vec![copied]), many];
    let hosts = vec!["a.test".to_string(), "b.test".to_string()];
    let v = entries::slots("team", "site", "HTTPRoute", 3, &rules, &hosts);
    let shown: Vec<_> =
        v.iter().map(|s| (s.hostname.as_str(), s.rule, s.matcher, s.route_id.as_str())).collect();
    assert_eq!(
        shown,
        vec![
            ("a.test", 0, 0, "team/site:gateway:HTTPRoute:3:0:0"),
            ("b.test", 0, 0, "team/site:gateway:HTTPRoute:3:0:0"),
            ("a.test", 1, 0, "team/site:gateway:HTTPRoute:3:1:0"),
            ("b.test", 1, 0, "team/site:gateway:HTTPRoute:3:1:0"),
            ("a.test", 1, 1, "team/site:gateway:HTTPRoute:3:1:1"),
            ("b.test", 1, 1, "team/site:gateway:HTTPRoute:3:1:1"),
        ]
    );
    let d = entries::demand(&rules, "team", 6);
    assert_eq!(d.backends, vec!["team/web:80", "ops/shadow:80", "team/web:80", "team/api:80"]);
    assert_eq!((d.routes, d.retained_routes, d.scripted), (6, 0, false));
}

#[test]
fn routes_are_attached_once() {
    let mut v = vec![];
    entries::attach_once(&mut v, 0, "HTTPRoute", "team", "site");
    entries::attach_once(&mut v, 0, "HTTPRoute", "team", "site");
    entries::attach_once(&mut v, 0, "GRPCRoute", "team", "site");
    entries::attach_once(&mut v, 2, "HTTPRoute", "team", "site");
    assert_eq!(entries::count_attached(&v, 0), 2);
    assert_eq!(entries::count_attached(&v, 1), 0);
    assert_eq!(entries::count_attached(&v, 2), 1);
}

#[test]
fn failed_routes_do_nothing() {
    let policy = || Policy { listener_port: 80, ..Policy::default() };
    let weights = || vec![(Some("web".to_string()), 1u32)];
    let p = entries::handling(policy(), false, weights());
    assert_eq!((p.listener_port, p.backends), (80, weights()));
    assert_eq!(entries::handling(policy(), true, vec![]).listener_port, 0);
    let b = Budgets { request: Some(9000), backend_request: None };
    assert_eq!(entries::limit(b, 5000), Budgets { request: Some(5000), backend_request: None });
    assert_eq!(entries::limit(b, 10000), b);
}

#[test]
fn statuses_are_written_where_they_differ() {
    let entry = |controller: &str, ready: &str| {
        map(vec![
            ("conditions", Json::List(vec![])),
            ("controllerName", string(controller)),
            ("parentRef", map(vec![("name", string(&served().name)), ("namespace", string(&served().namespace))])),
            ("ready", string(ready)),
        ])
    };
    let own = served().controller;
    let status = map(vec![("parents", Json::List(vec![entry(&own, "yes")]))]);
    let record = |v: Vec<Json>| {
        let mut o = object(Some("team"), "site", Json::Null);
        o.data = map(vec![("status", map(vec![("parents", Json::List(v))]))]);
        o
    };
    let current = record(vec![entry("other/one", "no"), entry(&own, "no")]);
    let written = status::publish("HTTPRoute", &current, &status, &Json::Null, &current, &served()).unwrap();
    let parents = written.get_array("parents").unwrap();
    let shown: Vec<_> = parents.iter().map(|p| (p.text("controllerName", ""), p.text("ready", ""))).collect();
    assert_eq!(shown, vec![(own.as_str(), "yes"), ("other/one", "no")]);

    let mut after = record(vec![]);
    after.data = map(vec![("status", written)]);
    assert!(status::publish("HTTPRoute", &after, &status, &Json::Null, &after, &served()).is_none());
    let mut replaced = record(vec![]);
    replaced.generation = Some(2);
    assert!(status::publish("HTTPRoute", &current, &status, &Json::Null, &replaced, &served()).is_none());

    let gateway = map(vec![("listeners", Json::List(vec![]))]);
    let addresses = Json::List(vec![string("192.0.2.1")]);
    let written = status::publish("Gateway", &current, &gateway, &addresses, &current, &served()).unwrap();
    assert!(written.field("addresses").same(&addresses));
}

#[test]
fn checkpoints_are_for_their_gateway() {
    let site = object(Some("team"), "site", Json::Null);
    let mut gateway = object(Some(&served().namespace), &served().name, Json::Null);
    gateway.uid = Some("g".to_string());
    let key = checkpoint::name(&served(), "uid-site");
    let mut stored = object(Some("edge"), &key, map(vec![("data", map(vec![("accepted.json", string("{}"))]))]));
    stored.labels = vec![("rgnix.io/gateway-checkpoint".to_string(), checkpoint::scope(&served()))];
    let all = resources(vec![("Gateway", vec![gateway]), ("ConfigMap", vec![stored])]);
    assert_eq!(checkpoint::stored_text(&all, "edge", &served(), "uid-site"), Some("{}"));
    assert_eq!(checkpoint::stored_text(&all, "edge", &served(), "uid-other"), None);
    assert_eq!(checkpoint::stored_text(&all, "team", &served(), "uid-site"), None);
    assert!(checkpoint::can_restore(&accepted(), &site, "HTTPRoute", &all, &served()));
    assert!(!checkpoint::can_restore(&accepted(), &site, "GRPCRoute", &all, &served()));
    assert!(!checkpoint::can_restore(&accepted(), &site, "HTTPRoute", &resources(vec![]), &served()));
}

#[test]
fn wanted_gateway_checkpoints_stay() {
    let own = checkpoint::name(&served(), "u1");
    let maps = vec![own.clone(), "rgnix-gw-0".to_string(), "notes".to_string()];
    assert_eq!(checkpoint::stale(&maps, &served(), &vec!["u1".into()]), vec![1]);
    assert_eq!(checkpoint::stale(&maps, &served(), &vec![]), vec![0, 1]);
}

#[test]
fn resources_are_gathered_when_all_are_listed() {
    let plain = |name: &str| Object {
        namespace: Some("team".into()),
        name: name.into(),
        uid: None,
        created: None,
        generation: Some(3),
        labels: vec![],
        annotations: vec![],
        data: Json::Null,
    };
    let cache = |ready: bool, names: &[&str]| controller::Cache {
        ready,
        objects: names.iter().map(|n| plain(n)).collect(),
        staging: vec![],
    };
    let stores = |ready: bool| {
        vec![
            ("Service".to_string(), cache(true, &["a"])),
            ("Secret".to_string(), cache(true, &["k"])),
            ("Service".to_string(), cache(ready, &["b", "c"])),
        ]
    };
    assert!(controller::gather(stores(false)).is_none());
    let all = controller::gather(stores(true)).unwrap();
    let names: Vec<(String, Vec<String>)> =
        all.kinds.iter().map(|(k, v)| (k.clone(), v.iter().map(|o| o.name.clone()).collect())).collect();
    assert_eq!(
        names,
        vec![
            ("Service".to_string(), vec!["a".to_string(), "b".to_string(), "c".to_string()]),
            ("Secret".to_string(), vec!["k".to_string()]),
        ]
    );
    assert_eq!(controller::label("HTTPRoute", &plain("site")), "HTTPRoute team/site generation 3");
}

fn setup() -> Setup {
    Setup {
        endpoints: vec![],
        tls: false,
        hostname: "web.team.svc".into(),
        host_header: "web.team.svc".into(),
        options: Options::default(),
        origins: vec![],
        ca_pem: None,
        profile: Profile {
            http2: true,
            identity: Some(("cert".into(), "key".into())),
            server_name: None,
            ca_pem: None,
        },
    }
}

fn web_service(protocol: Option<&str>) -> ServiceObject {
    ServiceObject {
        namespace: Some("team".into()),
        name: "web".into(),
        uid: Some("s1".into()),
        spec: Some(ServiceSpec {
            type_: None,
            ports: Some(vec![ServicePort {
                name: Some("http".into()),
                port: 80,
                protocol: None,
                app_protocol: protocol.map(|s| s.to_string()),
            }]),
        }),
    }
}

fn web_slice() -> SliceObject {
    SliceObject {
        namespace: Some("team".into()),
        service: Some("web".into()),
        address_type: "IPv4".into(),
        owners: vec![Owner { api_version: "v1".into(), kind: "Service".into(), name: "web".into(), uid: "s1".into() }],
        ports: vec![SlicePort { name: Some("http".into()), protocol: None, port: Some(8080) }],
        endpoints: vec![SliceEndpoint { addresses: vec!["10.0.0.1".into()], ready: Some(true), terminating: None }],
    }
}

fn cluster(protocol: Option<&str>, policies: Policies) -> Cluster {
    Cluster {
        resources: resources(vec![]),
        services: vec![web_service(protocol)],
        slices: vec![web_slice()],
        policies,
    }
}

fn no_policies() -> Policies {
    Policies { owned: vec![] }
}

fn plain_access() -> Access {
    Access {
        tls: false,
        options: Options::default(),
        profile: Profile { http2: false, identity: None, server_name: None, ca_pem: None },
    }
}

#[test]
fn backends_of_routes_are_reached() {
    let x = plain_access();
    let s = reach(&cluster(None, no_policies()), &backend("web"), "u", "team", "HTTPRoute", &x).unwrap();
    assert_eq!(s.endpoints.len(), 1);
    assert_eq!(Some(s.endpoints[0].address), parse_socket("10.0.0.1:8080"));
    assert_eq!(s.hostname, "web.team.svc");
    assert!(!s.tls && !s.profile.http2);
    let s = reach(&cluster(Some("kubernetes.io/h2c"), no_policies()), &backend("web"), "u", "team", "HTTPRoute", &x);
    assert!(s.unwrap().profile.http2);
    let error = |c: Cluster, b: BackendRef| reach(&c, &b, "u", "team", "HTTPRoute", &plain_access()).unwrap_err();
    assert_eq!(error(cluster(None, no_policies()), backend("gone")), RefError::NotFound);
    assert_eq!(error(cluster(Some("odd"), no_policies()), backend("web")), RefError::Protocol);
    let foreign = BackendRef { namespace: Some("shared".into()), ..backend("web") };
    assert_eq!(error(cluster(None, no_policies()), foreign), RefError::NotPermitted);
    let target = || rgnix::gateway::tls_policy::Target { namespace: "team".into(), service: "web".into(), section: None };
    let under = |trust: Result<Trust, TlsPolicyError>| Policies {
        owned: vec![rgnix::gateway::tls_policy::Owned { target: target(), trust }],
    };
    assert_eq!(error(cluster(None, under(Err(TlsPolicyError::Hostname))), backend("web")), RefError::Authority);
    let trust = Trust { server_name: "inner.test".into(), ca_pem: None };
    let s = reach(&cluster(Some("https"), under(Ok(trust))), &backend("web"), "u", "team", "HTTPRoute", &x).unwrap();
    assert!(s.tls && s.hostname == "inner.test");
    let mut known: Vec<(String, Setup)> = vec![];
    let idle = BackendRef { weight: Some(0), ..backend("web") };
    let c = cluster(None, no_policies());
    let told = reach_rule(&mut known, &c, &rule(vec![idle], vec![]), "u", "team", "HTTPRoute", &x, false);
    assert!(told == vec![None] && known.is_empty());
    let r = rule(vec![backend("web"), backend("gone"), backend("web")], vec![]);
    let told = reach_rule(&mut known, &c, &r, "u", "team", "HTTPRoute", &x, false);
    assert_eq!(told, vec![None, Some(RefError::NotFound), None]);
    assert_eq!(known.len(), 1);
    assert_eq!(known[0].0, attachment::key("u", "team", &backend("web")));
}

fn placing() -> Placing {
    let available = vec![Listener { address: parse_socket("0.0.0.0:8080").unwrap(), tls: false, http2: false }];
    let v = vec![listener("a", "a.test"), listener("b", "a.test"), listener("c", "c.test")];
    let e = listeners::examine(&v, true, &available, Ports { http: 80, https: 443 });
    let f: Vec<_> = e.iter().map(|x| listeners::fate(*x, Ok(()))).collect();
    assert!(f[0].valid && !f[1].valid && f[2].valid);
    Placing::start(v, &e, f)
}

fn plan(hosts: &[&str]) -> RoutePlan {
    let path = Match {
        path: Some(Path { type_: "Exact".into(), value: "/x".into() }),
        method: None,
        headers: vec![],
        query_params: vec![],
    };
    RoutePlan {
        kind: "HTTPRoute".into(),
        ns: "edge".into(),
        name: "site".into(),
        created: "2026".into(),
        rules: vec![Rule { matches: vec![path], ..rule(vec![], vec![]) }, rule(vec![], vec![])],
        hostnames: hosts.iter().map(|s| s.to_string()).collect(),
        failed: None,
        stale: false,
        problem: None,
    }
}

#[test]
fn routes_are_placed_at_their_listeners() {
    let r = resources(vec![]);
    let mut p = placing();
    assert_eq!(p.table.len(), 3);
    assert_eq!(p.table.iter().map(|l| l.hostname.as_str()).collect::<Vec<_>>(), vec!["a.test", "a.test", "c.test"]);
    assert_eq!(p.active().iter().map(|a| a.valid).collect::<Vec<_>>(), vec![true, false, true]);
    let w = p.place(&r, &served(), &parent(Some("a")), &plan(&["a.test"]));
    assert!(w.accepted && w.resolved);
    assert_eq!((w.reason.as_str(), w.message.as_str(), w.references.as_str()), ("Accepted", "Route accepted", "ResolvedRefs"));
    assert_eq!(p.table[0].entries.len(), 2);
    let e = &p.table[0].entries[0];
    assert_eq!((e.hostname.as_str(), e.route_id.as_str()), ("a.test", "edge/site:gateway:HTTPRoute:0:0:0"));
    assert_eq!(e.order, ("2026".to_string(), "edge".to_string(), "site".to_string(), 0, 0));
    assert!(matches!(&e.paths, PathMatch::Exact(s) if s == "/x"));
    let e = &p.table[0].entries[1];
    assert_eq!((e.order.3, e.order.4), (1, 0));
    assert!(matches!(&e.paths, PathMatch::IngressPrefix(s) if s == "/"));
    assert!(p.table[1].entries.is_empty() && p.table[2].entries.is_empty());
    assert_eq!((p.count(0), p.count(2)), (1, 0));

    let w = p.place(&r, &served(), &parent(Some("a")), &plan(&["other.test"]));
    assert!(!w.accepted && w.resolved);
    assert_eq!(w.reason, "NoMatchingListenerHostname");
    let w = p.place(&r, &served(), &parent(Some("none")), &plan(&["a.test"]));
    assert_eq!(w.reason, "NoMatchingParent");
    assert_eq!(p.table[0].entries.len(), 2);

    let failed = RoutePlan { failed: Some("why".into()), name: "late".into(), ..plan(&["c.test"]) };
    let w = p.place(&r, &served(), &parent(Some("c")), &failed);
    assert!(!w.accepted && !w.resolved);
    assert_eq!((w.reason.as_str(), w.message.as_str(), w.references.as_str()), ("UnsupportedValue", "why", "InvalidPolicy"));
    assert_eq!(p.table[2].entries.len(), 2);
    let faulty = RoutePlan { problem: Some(RefError::NotFound), name: "faulty".into(), ..plan(&["c.test"]) };
    let w = p.place(&r, &served(), &parent(Some("c")), &faulty);
    assert!(w.accepted && !w.resolved && w.references == "BackendNotFound");
    assert_eq!(p.count(2), 2);
    let w = refuse("too large");
    assert!(!w.accepted && w.resolved && w.message == "too large" && w.reason == "UnsupportedValue");

    let aged = |name: &str, t: i64| Object { created: Some(t), ..object(Some("team"), name, Json::Null) };
    assert_eq!(
        in_order(&vec![aged("b", 2), aged("a", 9)], &vec![aged("c", 1), aged("d", 2)]),
        vec![(true, 0), (false, 0), (true, 1), (false, 1)]
    );
}

#[test]
fn states_of_gateways_are_reported() {
    let r = Report { generation: Some(7), now: "now".into() };
    let mut p = placing();
    let w = p.place(&resources(vec![]), &served(), &parent(Some("a")), &plan(&["a.test"]));
    let certificates = vec![String::new(), String::new(), String::new()];
    let j = report::gateway_status(&r, &p, &certificates, true, Programmed::Programmed);
    let conditions = j.get_array("conditions").unwrap();
    assert_eq!(conditions[0].get_str("type"), Some("Accepted"));
    assert_eq!(conditions[0].field("observedGeneration").as_u64(), Some(7));
    assert_eq!(conditions[1].get_str("reason"), Some("Programmed"));
    assert_eq!(conditions[1].get_str("message"), Some("Configuration published"));
    let all = j.get_array("listeners").unwrap();
    assert_eq!(all.len(), 3);
    assert_eq!((all[0].get_str("name"), all[0].field("attachedRoutes").as_u64()), (Some("a"), Some(1)));
    let of = |i: usize, k: usize| all[i].get_array("conditions").unwrap()[k].get_str("status");
    assert_eq!((of(0, 0), of(0, 1), of(0, 2)), (Some("True"), Some("True"), Some("True")));
    assert_eq!((of(1, 0), of(1, 2)), (Some("False"), Some("False")));
    assert_eq!(all[0].get_array("supportedKinds").unwrap()[1].get_str("kind"), Some("GRPCRoute"));
    let j = report::gateway_status(&r, &p, &certificates, false, Programmed::Pending);
    assert_eq!(j.get_array("conditions").unwrap()[0].get_str("reason"), Some("UnsupportedValue"));

    let j = report::class_status(&r, false);
    assert_eq!(j.get_array("conditions").unwrap()[0].get_str("reason"), Some("InvalidParameters"));

    let j = report::parent_status(&r, &served(), &parent(Some("a")), &w, true);
    assert_eq!(j.get_str("controllerName"), Some("example.test/controller"));
    assert_eq!(j.field("parentRef").get_str("sectionName"), Some("a"));
    let conditions = j.get_array("conditions").unwrap();
    assert_eq!(conditions.len(), 3);
    assert_eq!(conditions[2].get_str("type"), Some("rgnix.io/PluginReady"));
    assert_eq!(report::parent_status(&r, &served(), &parent(None), &w, false).get_array("conditions").unwrap().len(), 2);
    let status = report::route_status(vec![j]);
    assert_eq!(status.get_array("parents").unwrap().len(), 1);
    let on_record = object(Some("team"), "site", map(vec![("status", status)]));
    assert!(report::withdraws(&on_record, &served()));
    let other = Served { controller: "other.test/controller".into(), ..served() };
    assert!(!report::withdraws(&on_record, &other));
    assert!(!report::withdraws(&object(Some("team"), "site", Json::Null), &served()));
}

#[test]
fn routes_are_served_at_their_own_parents() {
    let all = vec![parent(Some("a")), Reference { name: "elsewhere".into(), ..parent(None) }, parent(Some("none"))];
    assert_eq!(serving::own(&all, "edge", &served()), vec![0, 2]);
    let parents = vec![parent(Some("a")), parent(Some("none"))];
    let mut p = placing();
    let mut known: Vec<(String, Setup)> = vec![];
    let c = cluster(None, no_policies());
    let at_home = BackendRef { namespace: Some("edge".into()), ..backend("web") };
    let with = RoutePlan { rules: vec![rule(vec![at_home], vec![])], ..plan(&["a.test"]) };
    let (told, bound) = serving::serve(&mut p, &mut known, &c, &served(), &parents, with, "u", &plain_access(), &None);
    assert_eq!(told.len(), 2);
    assert!(told[0].accepted && !told[0].resolved && told[0].references == "BackendNotFound");
    assert_eq!(told[1].reason, "NoMatchingParent");
    assert_eq!(bound[0].problem, Some(RefError::NotFound));
    assert_eq!(p.table[0].entries.len(), 1);
    assert!(known.is_empty());
    let mut home = cluster(None, no_policies());
    home.services[0].namespace = Some("edge".into());
    home.slices[0].namespace = Some("edge".into());
    let with = |created: &str| RoutePlan {
        created: created.into(),
        rules: vec![rule(vec![backend("web")], vec![])],
        ..plan(&["c.test"])
    };
    let at = vec![parent(Some("c"))];
    let unread = Some(Traffic { services: vec!["web:80".into()], readable: false });
    let mut later = placing();
    let (told, bound) =
        serving::serve(&mut later, &mut known, &home, &served(), &at, with("1"), "u", &plain_access(), &unread);
    assert!(told[0].accepted);
    assert_eq!(bound[0].weights, vec![(None, 1)]);
    let (told, bound) = serving::serve(&mut later, &mut known, &home, &served(), &at, with("2"), "u", &plain_access(), &None);
    assert!(told[0].accepted && told[0].resolved);
    let key = attachment::key("u", "edge", &backend("web"));
    assert_eq!(bound[0].weights, vec![(Some(key.clone()), 1)]);
    assert_eq!((known.len(), &known[0].0), (1, &key));
    assert_eq!(later.table[2].entries.len(), 2);
    let failed = RoutePlan { failed: Some("why".into()), ..with("3") };
    let (told, bound) = serving::serve(&mut later, &mut known, &home, &served(), &at, failed, "u", &plain_access(), &None);
    assert!(!told[0].accepted && bound.is_empty());
    assert_eq!(later.table[2].entries.len(), 3);
}

fn readings() -> Readings {
    Readings { services: None, http2: None, headers: true, limits: true, keys: vec!["ip".into()] }
}

fn question(annotations: &[(&str, &str)]) -> Question {
    Question {
        ns: "team".into(),
        grpc: false,
        rules: vec![rule(vec![backend("web")], vec![])],
        hostnames: vec![],
        listeners: 2,
        annotations: annotations.iter().map(|(a, b)| (format!("rgnix.io/{}", a), b.to_string())).collect(),
        quota: None,
        domain: true,
        resources: true,
        traffic: None,
    }
}

#[test]
fn routes_are_prepared_in_order() {
    let spec = || RouteSpec { parent_refs: vec![], hostnames: vec!["a.test".into()], rules: vec![] };
    let entered = |ns: &str, tenants: bool, s: &Option<RouteSpec>| preparing::enter(&vec!["team".into()], ns, tenants, false, s);
    assert_eq!(entered("team", false, &Some(spec())), Ok(()));
    assert_eq!(entered("other", false, &Some(spec())), Err(Failure::Checked(PrepareError::OutOfScope)));
    assert_eq!(entered("team", true, &Some(spec())), Err(Failure::Checked(PrepareError::Denied)));
    assert_eq!(entered("team", false, &None), Err(Failure::Unreadable));
    let odd = RouteSpec { hostnames: vec!["bad name".into()], ..spec() };
    assert_eq!(entered("team", false, &Some(odd)), Err(Failure::Checked(PrepareError::Hostname)));

    let usage = || Usage { ingresses: 0, routes: 0, backends: vec![] };
    let identity = IdentityPolicy { header: "x-client".to_string(), ..IdentityPolicy::default() };
    let mut u = usage();
    let failed = |q: Question| match q.prepare(&mut usage(), Ok(()), &readings(), &IdentityPolicy::default()) {
        Prepared::Ready(_) => panic!("prepared"),
        Prepared::Rejected(f) => (true, f),
        Prepared::Refused(f) => (false, f),
    };
    match question(&[("limit-conn", "5")]).prepare(&mut u, Ok(()), &readings(), &identity) {
        Prepared::Ready(a) => {
            assert_eq!(a.concurrency.unwrap().limit, 5);
            assert_eq!(a.settings.identity.header, "x-client");
        },
        other => panic!("{:?}", other),
    }
    assert_eq!(u.routes, 0);
    let r = question(&[]).prepare(&mut u, Err(ScriptError::MapMissing), &readings(), &identity);
    assert!(matches!(r, Prepared::Refused(Failure::Script(ScriptError::MapMissing))));
    assert_eq!(failed(Question { domain: false, ..question(&[]) }), (false, Failure::Domain));
    let quota = Quota {
        max_ingresses: 1,
        max_routes: 2,
        max_backends: 9,
        allow_scripts: true,
        max_script_bytes: 9,
        allow_mirroring: false,
    };
    let q = || Question { quota: Some(quota), ..question(&[]) };
    assert!(matches!(q().prepare(&mut u, Ok(()), &readings(), &identity), Prepared::Ready(_)));
    assert_eq!((u.ingresses, u.routes), (1, 2));
    let r = q().prepare(&mut u, Ok(()), &readings(), &identity);
    assert!(matches!(r, Prepared::Refused(Failure::Checked(PrepareError::Quota))));
    assert_eq!((u.ingresses, u.routes), (1, 2));
    let certificates = (true, Failure::Settings(SettingsError::ClientCertificates));
    assert_eq!(failed(question(&[("client-ca-secret", "keys")])), certificates);
    assert_eq!(failed(question(&[("verify-client", "on")])), certificates);
    let unknown = Failure::Settings(SettingsError::Policy(PolicyError::Unsupported));
    assert_eq!(failed(question(&[("weather", "x")])), (true, unknown));
    assert_eq!(failed(Question { resources: false, ..question(&[]) }), (true, Failure::Resources));
    assert_eq!(failed(Question { traffic: Some(None), ..question(&[]) }), (true, Failure::Traffic));
    let wish = |alias: &str| Some(Some(TrafficWish { aliases: vec![alias.to_string()], mirror: false }));
    let strange = Question { traffic: wish("gone:80"), ..question(&[]) };
    assert_eq!(failed(strange), (true, Failure::Checked(PrepareError::TrafficTarget)));
    let grpc = prepare::settings(&vec![], &readings(), &identity, true).unwrap();
    assert!(grpc.http2);
}

fn candidate(name: &str, parents: Vec<Reference>) -> Candidate {
    Candidate {
        object: object(Some("edge"), name, Json::Null),
        kind: "HTTPRoute".into(),
        ns: "edge".into(),
        uid: format!("uid-{}", name),
        created: "2026".into(),
        parents,
        spec: Some(RouteSpec { parent_refs: vec![], hostnames: vec![], rules: vec![] }),
        granted: false,
        now: "now".into(),
    }
}

fn known(annotations: &[(&str, &str)]) -> Known {
    Known {
        script: Ok(()),
        stale: false,
        rules: vec![rule(vec![backend("web")], vec![])],
        hostnames: vec!["a.test".into()],
        annotations: annotations.iter().map(|(a, b)| (format!("rgnix.io/{}", a), b.to_string())).collect(),
        quota: None,
        domain: true,
        resources: true,
        traffic: None,
        progress: true,
        readings: readings(),
        ca_pem: Some("pem".into()),
        certificate: None,
    }
}

#[test]
fn walks_place_one_route_after_the_other() {
    let mut home = cluster(None, no_policies());
    home.services[0].namespace = Some("edge".into());
    home.slices[0].namespace = Some("edge".into());
    let mut w = Walk::new(served(), vec![], false, home, IdentityPolicy::default(), placing());
    assert!(matches!(w.next(WalkEvent::Worded("x".into())), WalkAction::Misplaced));
    assert!(matches!(w.next(WalkEvent::Looked(known(&[]))), WalkAction::Misplaced));
    let elsewhere = || Reference { name: "elsewhere".into(), ..parent(None) };
    assert!(matches!(w.next(WalkEvent::Begin(candidate("other", vec![elsewhere()]))), WalkAction::Skip));
    let mut left = candidate("left", vec![]);
    left.object.data = map(vec![(
        "status",
        map(vec![(
            "parents",
            Json::List(vec![map(vec![
                ("controllerName", string("example.test/controller")),
                ("parentRef", map(vec![("name", string("main")), ("namespace", string("edge"))])),
            ])]),
        )]),
    )]);
    match w.next(WalkEvent::Begin(left)) {
        WalkAction::Withdraw(j) => assert!(j.same(&map(vec![("parents", Json::List(vec![]))]))),
        a => panic!("{:?}", a),
    }
    assert!(w.live.is_empty());

    let both = || vec![elsewhere(), parent(Some("a"))];
    assert!(matches!(w.next(WalkEvent::Begin(candidate("site", both()))), WalkAction::Look));
    assert_eq!(w.live, vec!["uid-site"]);
    match w.next(WalkEvent::Looked(known(&[("limit-conn", "5")]))) {
        WalkAction::Placed(settings, bound, j) => {
            assert_eq!(settings.concurrency.unwrap().limit, 5);
            assert_eq!(bound[0].weights, vec![(Some(attachment::key("uid-site", "edge", &backend("web"))), 1)]);
            let parents = j.get_array("parents").unwrap();
            assert_eq!(parents.len(), 1);
            assert_eq!(parents[0].get_array("conditions").unwrap()[0].get_str("reason"), Some("Accepted"));
        },
        a => panic!("{:?}", a),
    }
    assert_eq!((w.backends.len(), w.placing.table[0].entries.len()), (1, 1));
    assert_eq!(w.backends[0].1.ca_pem.as_deref(), Some("pem"));

    assert!(matches!(w.next(WalkEvent::Begin(candidate("late", both()))), WalkAction::Look));
    let f = match w.next(WalkEvent::Looked(known(&[("verify-client", "on")]))) {
        WalkAction::Word(f) => f,
        a => panic!("{:?}", a),
    };
    assert_eq!(f, Failure::Settings(SettingsError::ClientCertificates));
    match w.next(WalkEvent::Worded("why".into())) {
        WalkAction::Reported(j) => {
            let conditions = j.get_array("parents").unwrap()[0].get_array("conditions").unwrap();
            assert_eq!(conditions[0].get_str("message"), Some("why"));
            assert_eq!(conditions[1].get_str("reason"), Some("InvalidPolicy"));
        },
        a => panic!("{:?}", a),
    }
    assert_eq!((w.backends.len(), w.placing.table[0].entries.len()), (1, 2));

    assert!(matches!(w.next(WalkEvent::Begin(candidate("lost", both()))), WalkAction::Look));
    let failed = Known { script: Err(ScriptError::KeyMissing), stale: true, ..known(&[]) };
    assert!(matches!(w.next(WalkEvent::Looked(failed)), WalkAction::Word(Failure::Script(ScriptError::KeyMissing))));
    assert!(matches!(&w.pause, Pause::Wording { kept: None, stale: false, .. }));
    match w.next(WalkEvent::Worded("gone".into())) {
        WalkAction::Reported(j) => {
            let conditions = j.get_array("parents").unwrap()[0].get_array("conditions").unwrap();
            assert_eq!(conditions.len(), 2);
            assert_eq!(conditions[0].get_str("message"), Some("gone"));
            assert_eq!(conditions[1].get_str("status"), Some("True"));
        },
        a => panic!("{:?}", a),
    }
    assert_eq!(w.placing.table[0].entries.len(), 2);

    let unread = Candidate { spec: None, ..candidate("odd", both()) };
    assert!(matches!(w.next(WalkEvent::Begin(unread)), WalkAction::Word(Failure::Unreadable)));
    assert!(matches!(w.next(WalkEvent::Worded("odd".into())), WalkAction::Reported(_)));
    assert!(matches!(w.pause, Pause::Idle));
    assert_eq!(w.live.len(), 4);
    let quota = Quota {
        max_ingresses: 1,
        max_routes: 9,
        max_backends: 9,
        allow_scripts: true,
        max_script_bytes: 9,
        allow_mirroring: true,
    };
    for expected in [true, false] {
        assert!(matches!(w.next(WalkEvent::Begin(candidate("many", both()))), WalkAction::Look));
        let a = w.next(WalkEvent::Looked(Known { quota: Some(quota), ..known(&[]) }));
        assert_eq!(matches!(a, WalkAction::Placed(..)), expected);
    }
}

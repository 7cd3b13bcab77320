use rgnix::admission;
use rgnix::admission::{Admission, Check, Denial, Move, Reading, Reload, Step};
use rgnix::config::bundle::Bundle;
use rgnix::controls;
use rgnix::controls::{Budgets, ControlError, ControlFile, Look, Quota, Told, Watch};
use rgnix::fleet;
use rgnix::fleet::{
    FleetError, LeaseInfo, Local, PeerSamples, PeerState, PodInfo, Report, Samples, WaitError, WaitOptions,
};
use rgnix::history;
use rgnix::history::{HistoryError, Journal};
use rgnix::json::Json;
use rgnix::maintenance::{Health, Held, Maintenance};
use rgnix::net::parse_socket;
use rgnix::snapshot::{
    contents, fingerprint, BackendContents, CertificateContents, Contents, HostContents, RouteContents,
};

fn object(v: Vec<(&str, Json)>) -> Json {
    Json::Object(v.into_iter().map(|(k, x)| (k.to_string(), x)).collect())
}

fn string(s: &str) -> Json {
    Json::Text(s.to_string())
}

fn report(uid: &str, active: &str) -> Report {
    Report {
        pod_uid: uid.into(),
        local: Local {
            desired_sha256: "d".into(),
            observed_sha256: "d".into(),
            attempt_at: 0,
            completed_at: 0,
            rejection: None,
        },
        active_sha256: active.into(),
        controls_sha256: "c".into(),
        version: 1,
        ready: true,
        rejected: 0,
        published_at: 0,
    }
}

fn pod(name: &str, uid: &str) -> PodInfo {
    PodInfo { name: name.into(), uid: Some(uid.into()), deleting: false, phase: Some("Running".into()), ready: true }
}

fn lease(uid: &str, renewed: i64, r: Report) -> LeaseInfo {
    LeaseInfo { holder: Some(uid.into()), renewed: Some(renewed), report: Some(r) }
}

fn state(r: Report, renewed: i64, now: i64) -> PeerState {
    fleet::peer(&pod("p", "u"), &vec![lease("u", renewed, r)], &report("own", "a"), now).0
}

#[test]
fn replicas_are_told_apart() {
    assert_eq!(state(report("u", "a"), 100, 120), PeerState::Converged);
    assert_eq!(state(report("u", "a"), 100, 121), PeerState::Stale);
    assert_eq!(state(report("u", "a"), 100, 99), PeerState::Stale);
    assert_eq!(state(report("u", "b"), 100, 100), PeerState::Drifted);
    assert_eq!(state(Report { ready: false, ..report("u", "a") }, 100, 100), PeerState::Unready);
    assert_eq!(state(Report { rejected: 1, ..report("u", "a") }, 100, 100), PeerState::Rejected);
    let mut r = report("u", "a");
    r.local.observed_sha256 = "old".into();
    assert_eq!(state(r, 100, 100), PeerState::Reconciling);
    let own = report("own", "a");
    assert_eq!(fleet::peer(&pod("p", "x"), &vec![], &own, 0), (PeerState::Missing, None));
    assert_eq!(PeerState::Missing.text(), "missing");
}

#[test]
fn converged_replicas_agree() {
    let own = report("own", "a");
    let pods = vec![pod("p", "u"), PodInfo { deleting: true, ..pod("q", "v") }];
    let leases = vec![lease("u", 10, report("u", "a"))];
    let states = fleet::peers(&pods, &leases, &own, 12);
    assert_eq!(states, vec![PeerState::Converged]);
    assert!(fleet::converged(&states));
    assert!(!fleet::converged(&vec![]));
    assert!(!fleet::converged(&vec![PeerState::Converged, PeerState::Drifted]));
    assert!(fleet::still_converged(true, 0, 20) && !fleet::still_converged(true, 0, 21));
}

#[test]
fn reports_and_pods_are_bounded() {
    assert_eq!(fleet::check_pods(257, false), Err(FleetError::TooManyPods));
    assert_eq!(fleet::check_pods(1, true), Err(FleetError::TooManyPods));
    assert_eq!(fleet::check_leases(1025, false), Err(FleetError::TooManyLeases));
    assert_eq!(fleet::find_own(&vec![pod("p", "u")], "p"), Ok("u".to_string()));
    assert_eq!(fleet::find_own(&vec![], "p"), Err(FleetError::NotSelected));
    assert_eq!(fleet::find_own(&vec![PodInfo { uid: None, ..pod("p", "u") }], "p"), Err(FleetError::NoUid));
    assert_eq!(fleet::check_report(196609, &None, "u"), Err(FleetError::ReportTooLong));
    assert_eq!(fleet::check_report(1, &Some(Some("v".into())), "u"), Err(FleetError::ForeignLease));
    assert_eq!(fleet::check_report(1, &Some(Some("u".into())), "u"), Ok(()));
    assert_eq!(fleet::selector(&vec![]), Err(FleetError::NoSelector));
    let labels = vec![("a".to_string(), "1".to_string()), ("b".to_string(), "2".to_string())];
    assert_eq!(fleet::selector(&labels), Ok("a=1,b=2".to_string()));
    assert!(fleet::lease_name("s", "u").starts_with("rgnix-replica-"));
    assert_ne!(fleet::scope("n", "s", "g"), fleet::scope("n", "s", "h"));
}

#[test]
fn local_progress_is_noted() {
    let mut l = report("u", "a").local;
    l.begin(true, "next".into(), 5);
    assert_eq!((l.desired_sha256.as_str(), l.attempt_at), ("next", 5));
    l.complete(true, None, 6);
    assert_eq!((l.observed_sha256.as_str(), l.completed_at), ("next", 6));
    l.begin(false, "ignored".into(), 7);
    assert_eq!(l.desired_sha256, "next");
}

#[test]
fn samples_are_those_of_every_replica() {
    let s = |count: u64| PeerSamples {
        state: PeerState::Converged,
        age: Some(0),
        ready: true,
        samples: Some(Samples { count, errors: 1, slow: 0 }),
    };
    let total = fleet::rollout_samples(&vec![s(2), s(3)], Some(100), false, 60, 100);
    assert_eq!(total, Some(Samples { count: 5, errors: 2, slow: 0 }));
    assert_eq!(fleet::rollout_samples(&vec![s(2)], None, false, 60, 100), None);
    assert_eq!(fleet::rollout_samples(&vec![s(2)], Some(100), true, 60, 100), None);
    assert_eq!(fleet::rollout_samples(&vec![], Some(100), false, 60, 100), None);
    let missing = PeerSamples { samples: None, ..s(1) };
    assert_eq!(fleet::rollout_samples(&vec![s(2), missing], Some(100), false, 60, 100), None);
}

#[test]
fn status_is_not_wanted() {
    let before = object(vec![
        ("metadata", object(vec![("name", string("a")), ("resourceVersion", string("1"))])),
        ("spec", object(vec![("x", Json::Number("1".into()))])),
        ("status", object(vec![("y", Json::Bool(true))])),
    ]);
    let after = object(vec![
        ("metadata", object(vec![("name", string("a")), ("resourceVersion", string("2"))])),
        ("spec", object(vec![("x", Json::Number("1".into()))])),
    ]);
    assert!(fleet::clean(&before, false).same(&fleet::clean(&after, false)));
    assert!(!before.same(&after));
}

#[test]
fn waits_have_a_target() {
    let o = |digest: &str, url: &str| WaitOptions {
        admin_url: url.into(),
        expected_sha256: digest.into(),
        replicas: 1,
        timeout_seconds: 10,
    };
    let digest = "A".repeat(64);
    assert_eq!(o(&digest, "http://host:1").validate(), Ok(()));
    assert_eq!(o("x", "http://host:1").validate(), Err(WaitError::Digest));
    assert_eq!(o(&digest, "nowhere").validate(), Err(WaitError::Url));
    assert_eq!(o(&digest, "http://user@host").validate(), Err(WaitError::UrlParts));
    assert_eq!(o(&digest, "ftp://host").validate(), Err(WaitError::UrlParts));
    assert_eq!(WaitOptions { replicas: 0, ..o(&digest, "http://h") }.validate(), Err(WaitError::Bounds));
    let value = object(vec![
        ("converged", Json::Bool(true)),
        ("target", object(vec![("active_sha256", string(&"a".repeat(64)))])),
        ("replicas", Json::List(vec![Json::Null])),
    ]);
    assert!(o(&digest, "http://h").reached(&value));
    assert!(!WaitOptions { replicas: 2, ..o(&digest, "http://h") }.reached(&value));
    assert!(fleet::token_fits(&"a".repeat(32)).is_ok() && fleet::token_fits("a").is_err());
}

fn bundle() -> Bundle {
    Bundle { nodes: vec![], assets: vec![] }
}

#[test]
fn the_newest_revisions_are_kept() {
    let mut j = Journal::open(None, "main.conf").unwrap();
    assert!(j.latest().is_none());
    for version in 1..=12 {
        assert_eq!(j.record(version, Some(bundle()), 1), Ok(true));
    }
    assert_eq!(j.versions(), (4..=12).collect::<Vec<u64>>());
    assert_eq!(j.record(12, Some(bundle()), 1), Ok(false));
    assert_eq!(j.record(13, None, 1), Err(HistoryError::NoBundle));
    assert_eq!(j.latest().unwrap().version, 12);
    assert_eq!(j.restore(5).unwrap().version, 5);
    assert_eq!(j.restore(1).unwrap_err(), HistoryError::NotRetained);
    assert_eq!(Journal::open(Some(j), "other.conf").unwrap_err(), HistoryError::ForeignSource);
    assert_eq!(history::check_length(67108865), Err(HistoryError::TooLong));
}

#[test]
fn large_revisions_push_others_out() {
    let mut j = Journal::open(None, "main.conf").unwrap();
    j.record(1, Some(bundle()), 8388608).unwrap();
    j.record(2, Some(bundle()), 1).unwrap();
    assert_eq!(j.versions(), vec![2]);
}

fn control_file(path: &str, content: &str) -> ControlFile {
    ControlFile { path: path.as_bytes().to_vec(), content: content.as_bytes().to_vec() }
}

#[test]
fn contents_are_told_apart() {
    let a = controls::fingerprint(&vec![control_file("a", "b")]);
    assert_eq!(a.len(), 64);
    assert_eq!(a, rgnix::digest::digest_text("a\u{0}b"));
    assert_ne!(a, controls::fingerprint(&vec![control_file("a", "c")]));
    assert!(controls::needs_reload("x", &a) && !controls::needs_reload(&a, &a));
    assert_eq!(controls::check_unchanged("a", "b"), Err(ControlError::Changed));
    assert_eq!(controls::check_bounded(11, 10), Err(ControlError::FileTooLong));
    assert_eq!(controls::check_bounded(10, 10), Ok(()));
    assert_eq!(controls::operation("abc"), "reload-access-policy/abc");
}

#[test]
fn quotas_leave_room() {
    let b = Budgets { max_inflight: 10, max_plugin_instances: 4 };
    let fits = Quota { max_inflight: 9, max_plugins: 3 };
    let full = Quota { max_inflight: 10, max_plugins: 3 };
    assert_eq!(controls::check_quotas(Some(fits), &vec![fits], b), Ok(()));
    assert_eq!(controls::check_quotas(Some(full), &vec![], b), Err(ControlError::Quota));
    assert_eq!(controls::check_quotas(None, &vec![fits, full], b), Err(ControlError::Quota));
}

#[test]
fn failures_are_told_once() {
    let mut w = Watch::new();
    assert_eq!(w.note(Look::Failed("x".into())), Told { reloaded: false, rejected: true });
    assert_eq!(w.note(Look::Failed("x".into())), Told { reloaded: false, rejected: false });
    assert_eq!(w.note(Look::Done(true)), Told { reloaded: true, rejected: false });
    assert_eq!(w.note(Look::Failed("x".into())), Told { reloaded: false, rejected: true });
}

#[test]
fn backends_are_looked_after_once() {
    let m = Maintenance::new();
    assert_eq!(m.distinct(&vec![7, 8, 7, 9]), vec![0, 1, 3]);
    let held = vec![
        Held {
            listener: "l".into(),
            name: "a".into(),
            certificate: Some(Health { valid_time: true, covers: true, expires: Some(5) }),
        },
        Held { listener: "l".into(), name: "b".into(), certificate: None },
    ];
    let g = m.measure(&held);
    assert!(g[0].valid && g[0].expires == Some(5));
    assert!(!g[1].valid && g[1].expires.is_none());
}

fn review(operation: &str, annotation: &str, user: &str) -> Json {
    let item = |state: &str| {
        object(vec![
            ("metadata", object(vec![("annotations", object(vec![("rgnix.io/rollout-state", string(state))]))])),
            ("spec", object(vec![])),
        ])
    };
    object(vec![
        ("kind", object(vec![("group", string("networking.k8s.io")), ("kind", string("Ingress"))])),
        ("operation", string(operation)),
        ("userInfo", object(vec![("username", string(user))])),
        ("oldObject", item("old")),
        ("object", item(annotation)),
        ("namespace", string("team")),
    ])
}

#[test]
fn requests_for_admission_are_begun() {
    assert_eq!(admission::endpoint("/admission/ingress"), Ok(()));
    assert_eq!(admission::endpoint("/other"), Err(Denial::UnknownEndpoint));
    assert_eq!(admission::begin(&review("CREATE", "old", "u")), Step::Proceed);
    assert_eq!(admission::begin(&review("DELETE", "old", "u")), Step::Allow);
    assert_eq!(admission::begin(&review("CONNECT", "old", "u")), Step::Deny(Denial::Operation));
    assert_eq!(admission::begin(&object(vec![])), Step::Deny(Denial::WrongKind));
    assert_eq!(admission::namespace(None, &review("CREATE", "old", "u")), Some("team".to_string()));
    assert_eq!(admission::namespace(Some("own".into()), &object(vec![])), Some("own".to_string()));
    assert!(admission::review_uid(&object(vec![])).is_err());
}

#[test]
fn progress_is_the_controllers() {
    let a = Admission { controller_user: Some("controller".into()) };
    let changed = review("UPDATE", "new", "someone");
    assert_eq!(a.judge(&changed, true, Some(true)), Step::Deny(Denial::Controlled));
    assert_eq!(a.judge(&review("UPDATE", "new", "controller"), true, Some(true)), Step::Allow);
    assert_eq!(a.judge(&review("UPDATE", "old", "someone"), true, Some(true)), Step::Proceed);
    assert_eq!(a.judge(&changed, false, Some(true)), Step::Deny(Denial::Object));
    let turned = match review("UPDATE", "old", "someone") {
        Json::Object(v) => Json::Object(
            v.into_iter()
                .map(|(k, j)| match j {
                    Json::Object(mut w) if k == "object" => {
                        w.reverse();
                        (k, Json::Object(w))
                    },
                    j => (k, j),
                })
                .collect(),
        ),
        j => j,
    };
    assert_eq!(a.judge(&turned, true, Some(true)), Step::Proceed);
    assert_eq!(a.judge(&changed, true, None), Step::Deny(Denial::Unavailable));
    assert_eq!(a.judge(&changed, true, Some(false)), Step::Allow);
    assert_eq!(admission::conclude(Check::Busy), Step::Deny(Denial::Capacity));
    assert_eq!(admission::conclude(Check::Crashed), Step::Deny(Denial::TaskFailed));
    assert_eq!(admission::conclude(Check::Checked(false)), Step::Deny(Denial::Invalid));
    assert_eq!(admission::conclude(Check::Checked(true)), Step::Allow);
    assert_eq!(Denial::Capacity.status(), 429);
}

#[test]
fn valid_certificates_stay() {
    let mut r = Reload::new();
    let d = admission::certificate_digest(&vec![1], &vec![2]);
    assert_eq!(d.len(), 32);
    assert_ne!(d, admission::certificate_digest(&vec![1], &vec![3]));
    assert_eq!(r.step(Reading::Read(d.clone())), Move::Store);
    assert_eq!(r.step(Reading::Failed("x".into())), Move::Report);
    assert_eq!(r.step(Reading::Failed("x".into())), Move::Keep);
    assert_eq!(r.digest, Some(d.clone()));
    assert_eq!(r.step(Reading::Read(d)), Move::Keep);
}

fn snapshot_contents(names: &[&str], chain: Option<Vec<Vec<u8>>>) -> Contents {
    let listener = parse_socket("0.0.0.0:80").unwrap();
    Contents {
        gateway: Json::Null,
        listeners: Json::List(vec![]),
        hosts: vec![HostContents {
            listener,
            names: names.iter().map(|s| s.to_string()).collect(),
            default: true,
            ingress: false,
            routes: vec![RouteContents {
                id: "r".into(),
                matcher: Json::Text("/".into()),
                action: Json::Text("static".into()),
                settings: Json::Null,
                script: Some("00".into()),
                allowed_backends: Json::Null,
                rollout: Json::Null,
                quota: Json::Null,
            }],
        }],
        backends: vec![BackendContents {
            name: "b".into(),
            endpoints: Json::List(vec![]),
            tls: true,
            hostname: "h".into(),
            host_header: "x".into(),
            options: Json::Null,
            origins: Json::Null,
            ca_pem: None,
            profile: Json::Null,
        }],
        certificates: vec![CertificateContents {
            listener,
            name: "a.test".into(),
            ingress: true,
            default: false,
            chain,
            client_auth: Json::Null,
        }],
        log_rotation: Json::Null,
        default_access_log: Some("/dev/stdout".into()),
    }
}

#[test]
fn configurations_are_told_apart() {
    let text = |s: &str| Json::Text(s.to_string());
    let list = Json::List;
    let object = |v: Vec<(&str, Json)>| Json::Object(v.into_iter().map(|(k, j)| (k.to_string(), j)).collect());
    let first = contents(&snapshot_contents(&["a.test"], Some(vec![b"a".to_vec(), b"bc".to_vec()])));
    let route = list(vec![
        text("r"),
        text("/"),
        text("static"),
        Json::Null,
        text("00"),
        Json::Null,
        Json::Null,
        Json::Null,
    ]);
    let backend = list(vec![
        text("b"),
        list(vec![]),
        Json::Bool(true),
        text("h"),
        text("x"),
        Json::Null,
        Json::Null,
        Json::Null,
        Json::Null,
    ]);
    let chain = "ba7816bf8f01cfea414140de5dae2223b00361a396177a9cb410ff61f20015ad";
    let certificate = list(vec![
        text("0.0.0.0:80"),
        text("a.test"),
        Json::Bool(true),
        Json::Bool(false),
        text(chain),
        Json::Null,
    ]);
    let host = list(vec![
        text("0.0.0.0:80"),
        list(vec![text("a.test")]),
        Json::Bool(true),
        Json::Bool(false),
        list(vec![route]),
    ]);
    assert!(first.same(&object(vec![
        ("backends", list(vec![backend])),
        ("certificates", list(vec![certificate])),
        ("default_access_log", text("/dev/stdout")),
        ("gateway", Json::Null),
        ("hosts", list(vec![host])),
        ("listeners", list(vec![])),
        ("log_rotation", Json::Null),
    ])));
    assert!(!first.same(&contents(&snapshot_contents(&["b.test"], Some(vec![b"abc".to_vec()])))));
    assert!(!first.same(&contents(&snapshot_contents(&["a.test"], None))));
    assert!(first.same(&contents(&snapshot_contents(&["a.test"], Some(vec![b"abc".to_vec()])))));
    assert_eq!(fingerprint(&None, "abc"), chain);
    assert_eq!(fingerprint(&Some(b"abc".to_vec()), "other"), chain);
}

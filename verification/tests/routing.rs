use rgnix::gateway::routes::{intersect, valid_hostname, Entry, ListenerRoutes, Policy, Routing};
use rgnix::gateway::spec::{Match, NamedMatch, Path, PathModifier};
use rgnix::json::Json;
use rgnix::model::{host_rank, PathMatch};
use rgnix::net::parse_socket;
use rgnix::script::RequestData;

fn named(name: &str, value: &str) -> NamedMatch {
    NamedMatch { type_: "Exact".into(), name: name.into(), value: value.into() }
}

fn blank() -> Match {
    Match { path: None, method: None, headers: vec![], query_params: vec![] }
}

fn at(type_: &str, value: &str) -> Option<Path> {
    Some(Path { type_: type_.into(), value: value.into() })
}

fn entry(id: &str, hostname: &str, matcher: Match) -> Entry {
    let paths = matcher.path_match(false).unwrap();
    Entry {
        hostname: hostname.into(),
        matcher,
        grpc: false,
        order: ("2026-01-01".into(), "test".into(), id.into(), 0, 0),
        route_id: id.into(),
        paths,
    }
}

#[test]
fn request_predicates_and_listener_isolation() {
    let address = parse_socket("127.0.0.1:8080").unwrap();
    let mut routing = Routing {
        listeners: vec![
            ListenerRoutes {
                address,
                hostname: "*.example.test".into(),
                entries: vec![entry("wildcard", "", blank())],
            },
            ListenerRoutes {
                address,
                hostname: "api.example.test".into(),
                entries: vec![
                    entry("prefix", "", Match { path: at("PathPrefix", "/api"), ..blank() }),
                    entry(
                        "predicate",
                        "",
                        Match {
                            path: at("Exact", "/api"),
                            method: Some(Json::Text("POST".into())),
                            headers: vec![named("X-Canary", "1")],
                            query_params: vec![named("v", "2")],
                        },
                    ),
                ],
            },
        ],
    };
    let mut request = RequestData::default();
    request.host = "api.example.test".into();
    request.path = "/api".into();
    request.method = "POST".into();
    request.query = "v=2&v=3".into();
    request.headers.insert("x-canary".into(), "1".into());
    assert_eq!(routing.route(address, &request).unwrap().route_id, "predicate");
    request.query = "v=3&v=2".into();
    assert_eq!(routing.route(address, &request).unwrap().route_id, "prefix");
    request.path = "/apix".into();
    assert!(routing.route(address, &request).is_none());
    request.host = "a.b.example.test".into();
    assert_eq!(routing.route(address, &request).unwrap().route_id, "wildcard");
    routing.listeners[1].entries.clear();
    request.host = "api.example.test".into();
    assert!(routing.route(address, &request).is_none());
}

#[test]
fn invalid_backends_keep_their_weight_and_path_rewrite_preserves_boundaries() {
    let policy = Policy {
        backends: vec![(Some("valid".into()), 9), (None, 1), (Some("disabled".into()), 0)],
        ..Default::default()
    };
    assert_eq!((0..100).filter(|sample| policy.select_at(*sample).is_none()).count(), 10);
    let modifier = PathModifier {
        type_: "ReplacePrefixMatch".into(),
        replace_prefix_match: Some("/new/".into()),
        replace_full_path: None,
    };
    modifier.validate(true).unwrap();
    assert!(modifier.validate(false).is_err());
    assert_eq!(modifier.apply("/old/a", &PathMatch::IngressPrefix("/old/".into())), "/new/a");
    assert_eq!(modifier.apply("/old", &PathMatch::IngressPrefix("/old/".into())), "/new/");
}

#[test]
fn prefix_and_wildcard_boundaries_are_source_specific() {
    assert!(PathMatch::NginxPrefix("/api".into()).matches("/apix"));
    assert!(!PathMatch::IngressPrefix("/api".into()).matches("/apix"));
    assert!(PathMatch::IngressPrefix("/api/".into()).matches("/api/v1"));
    assert!(host_rank("*.example.org", "a.b.example.org", false).is_some());
    assert!(host_rank("*.example.org", "a.b.example.org", true).is_none());
}

#[test]
fn intersections_of_hosts_are_the_narrower_pattern() {
    assert_eq!(intersect("", "a.test"), Some("a.test".to_string()));
    assert_eq!(intersect("*.test", "a.test"), Some("a.test".to_string()));
    assert_eq!(intersect("a.test", "*.test"), Some("a.test".to_string()));
    assert_eq!(intersect("*.a.test", "*.test"), Some("*.a.test".to_string()));
    assert_eq!(intersect("a.test", "b.test"), None);
    let hosts = ["", "*.test", "*.a.test", "a.test", "b.a.test", "*.b.a.test", "other"];
    for left in hosts {
        for right in hosts {
            assert_eq!(intersect(left, right), intersect(right, left));
        }
    }
    assert_eq!(intersect("*.a.test", "a.test"), None);
    assert!(valid_hostname("a.example.test"));
    assert!(!valid_hostname("-"));
}

use rgnix::config::syntax::{parse, tokenize, Directive};
use rgnix::json::Json;
use rgnix::migration::compare::{check_fixtures, compare, compatible, normalize};
use rgnix::migration::ingress::{convert, ConvertError, InputError, Note};
use rgnix::migration::manifest::manifests;
use rgnix::migration::nginx::{assess, Concern};

fn nodes(text: &str) -> Vec<Directive> {
    let tokens = tokenize(text).unwrap();
    parse(&tokens, 0, "nginx.conf", 0).unwrap().0
}

fn shape(v: &Vec<Directive>) -> Vec<String> {
    v.iter()
        .map(|n| {
            let inner = match &n.children {
                Some(c) => format!("{:?}", shape(c)),
                None => String::new(),
            };
            format!("{} {:?} {}", n.name, n.args, inner)
        })
        .collect()
}

#[test]
fn findings_are_kept() {
    let a = assess(
        nodes("worker_processes 4; http { server { listen 80; location / { return 200 \"a b\"; } } }"),
        "/etc/nginx",
        false,
    );
    assert!(!a.findings.is_empty());
    assert!(a.findings.iter().any(|f| matches!(f.concern, Concern::Process(_))));
    assert!(a.inventory.iter().any(|(n, c)| n == "server" && *c == 1));
    assert!(!a.compatible());
    let accepted = assess(nodes("worker_processes 4; http { server { listen 80; } }"), "/etc/nginx", true);
    assert!(accepted.findings.iter().all(|f| !matches!(f.concern, Concern::Process(false))));
}

#[test]
fn candidates_read_as_what_was_kept() {
    let a = assess(
        nodes("http { server { listen 80; location / { add_header x \"a \\\"b\\\" $host;\" always; } } }"),
        "/etc/nginx",
        false,
    );
    assert_eq!(shape(&nodes(&a.candidate)), shape(&a.nodes));
    let tokens = tokenize(&a.candidate).unwrap();
    let (read, next) = parse(&tokens, 0, "any.conf", 0).unwrap();
    assert_eq!(next, tokens.len());
    assert_eq!(shape(&read), shape(&a.nodes));
}

#[test]
fn unknown_directives_are_named() {
    let a = assess(nodes("http { frobnicate on; }"), "/etc/nginx", false);
    let f = a.findings.iter().find(|f| f.directive == "frobnicate").unwrap();
    assert!(matches!(f.concern, Concern::Unknown));
    assert!(f.concern.blocks());
}

fn map(v: Vec<(&str, Json)>) -> Json {
    Json::Object(v.into_iter().map(|(k, x)| (k.to_string(), x)).collect())
}

fn string(s: &str) -> Json {
    Json::Text(s.to_string())
}

fn ingress(name: &str, host: &str) -> Json {
    let path = map(vec![
        ("path", string("/")),
        ("pathType", string("Prefix")),
        (
            "backend",
            map(vec![(
                "service",
                map(vec![("name", string("web")), ("port", map(vec![("number", Json::Number("80".into()))]))]),
            )]),
        ),
    ]);
    map(vec![
        ("apiVersion", string("networking.k8s.io/v1")),
        ("kind", string("Ingress")),
        ("metadata", map(vec![("name", string(name)), ("namespace", string("team"))])),
        (
            "spec",
            map(vec![(
                "rules",
                Json::List(vec![map(vec![
                    ("host", string(host)),
                    ("http", map(vec![("paths", Json::List(vec![path]))])),
                ])]),
            )]),
        ),
    ])
}

#[test]
fn ingresses_become_routes() {
    let c = convert(&vec![ingress("site", "a.test")], "rgnix", "main", "default").unwrap();
    assert_eq!(c.routes.len(), 1);
    assert_eq!(c.routes[0].host, "a.test");
    assert_eq!(c.routes[0].namespace, "team");
    assert_eq!(c.routes[0].rules[0].service, "web");
    assert_eq!(c.routes[0].rules[0].port, 80);
    assert!(c.compatible());
}

fn annotated(name: &str, host: &str, value: &str) -> Json {
    let mut j = ingress(name, host);
    if let Json::Object(v) = &mut j {
        if let Json::Object(m) = &mut v[2].1 {
            m.insert(0, ("annotations".to_string(), map(vec![("rgnix.io/client-max-body-size", string(value))])));
        }
    }
    j
}

#[test]
fn each_route_has_the_annotations_of_its_own_ingress() {
    let v = vec![annotated("site", "a.test", "1m"), annotated("site", "b.test", "2m")];
    let c = convert(&v, "rgnix", "main", "default").unwrap();
    let made = manifests(&c, "rgnix.io/gateway", "rgnix", "main");
    let kinds: Vec<&str> = made.iter().map(|j| j.get_str("kind").unwrap()).collect();
    assert_eq!(kinds, vec!["GatewayClass", "HTTPRoute", "HTTPRoute", "Gateway"]);
    for (route, (host, value)) in made[1..3].iter().zip([("a.test", "1m"), ("b.test", "2m")]) {
        let hosts = route.field("spec").get_array("hostnames").unwrap();
        assert_eq!(hosts.iter().map(|h| h.as_str().unwrap()).collect::<Vec<_>>(), vec![host]);
        let kept = route.field("metadata").field("annotations");
        assert_eq!(kept.get_str("rgnix.io/client-max-body-size"), Some(value));
        let rule = &route.field("spec").get_array("rules").unwrap()[0];
        let service = &rule.get_array("backendRefs").unwrap()[0];
        assert_eq!(service.get_str("name"), Some("web"));
        assert!(matches!(service.get("port"), Some(Json::Number(n)) if n == "80"));
    }
    assert_eq!(made[0].field("spec").get_str("controllerName"), Some("rgnix.io/gateway"));
    assert_eq!(made[3].field("metadata").get_str("namespace"), Some("team"));
    assert_eq!(made[3].field("spec").get_str("gatewayClassName"), Some("rgnix"));
    let bare = convert(&vec![ingress("site", "a.test")], "rgnix", "main", "default").unwrap();
    assert!(bare.routes[0].annotations.is_empty());
}

#[test]
fn no_wildcards_are_converted() {
    let c = convert(&vec![ingress("site", "*.test")], "rgnix", "main", "default").unwrap();
    assert!(c.routes.is_empty());
    assert!(c.findings.iter().any(|f| matches!(f.note, Note::Failed(ConvertError::WildcardHost))));
    assert!(!c.compatible());
}

#[test]
fn inputs_are_bounded() {
    let one = || vec![ingress("site", "a.test")];
    assert_eq!(convert(&one(), "Bad", "main", "default").unwrap_err(), InputError::Names);
    assert_eq!(convert(&vec![], "rgnix", "main", "default").unwrap_err(), InputError::NoIngress);
    let list = map(vec![("kind", string("List"))]);
    assert_eq!(convert(&vec![list], "rgnix", "main", "default").unwrap_err(), InputError::ListItems);
    let twice = convert(&vec![ingress("a", "a.test"), ingress("b", "a.test")], "rgnix", "main", "default").unwrap();
    assert!(twice.findings.iter().any(|f| matches!(f.note, Note::Conflict)));
}

#[test]
fn names_of_objects_make_no_difference() {
    let result = |version: &str, status: &str| {
        Json::Object(vec![
            ("route".to_string(), Json::Text(format!("r{version}"))),
            ("status".to_string(), Json::Number(status.to_string())),
            ("version".to_string(), Json::Number(version.to_string())),
        ])
    };
    let cases = compare(&vec![(result("1", "200"), result("2", "200"))]);
    assert!(cases[0].equal && compatible(&cases));
    assert!(cases[0].after.same(&Json::Object(vec![("status".to_string(), Json::Number("200".to_string()))])));
    let cases = compare(&vec![
        (result("1", "200"), result("2", "200")),
        (result("1", "200"), result("1", "404")),
        (Json::Text("a".to_string()), Json::Text("a".to_string())),
    ]);
    assert_eq!(cases.iter().map(|c| c.equal).collect::<Vec<_>>(), vec![true, false, true]);
    assert!(!compatible(&cases));
    let turned = match result("2", "200") {
        Json::Object(mut v) => {
            v.reverse();
            Json::Object(v)
        },
        j => j,
    };
    assert!(compatible(&compare(&vec![(result("1", "200"), turned)])));
    assert!(check_fixtures(1000) && !check_fixtures(1001));
    assert!(normalize(&Json::Null).same(&Json::Null));
}

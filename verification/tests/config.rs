use rgnix::config::apply::{apply, apply_policy, proxy_url, Context, Problem, ProxyError};
use rgnix::config::bundle::{capture, is_valid_asset, Bundle, BundleError};
use rgnix::config::group;
use rgnix::config::limits;
use rgnix::config::limits::LimitError;
use rgnix::config::load::{load_nodes, LoadProblem, Plan, Source};
use rgnix::config::security;
use rgnix::config::security::{Change, Mode, SecurityError};
use rgnix::config::settings::Scope;
use rgnix::config::syntax::{load, parse, tokenize, Directive, File, Files, Listing, LoadError, SyntaxError};
use rgnix::config::value::{duration, size, switch, validate_host, validate_variables, ValueError};
use rgnix::backend::Balance;
use rgnix::config::upstream;
use rgnix::config::upstream::UpstreamError;
use rgnix::model::{Action, PathMatch};

fn nodes(text: &str) -> Vec<Directive> {
    let tokens = tokenize(text).unwrap();
    parse(&tokens, 0, "main.conf", 0).unwrap().0
}

fn plan(text: &str) -> Result<Plan, LoadProblem> {
    load_nodes(&nodes(text), "/etc/rgnix").map_err(|e| e.1)
}

fn problem(text: &str) -> LoadProblem {
    match plan(text) {
        Ok(_) => panic!("accepted: {}", text),
        Err(e) => e,
    }
}

fn server(text: &str) -> LoadProblem {
    problem(&format!("http {{ server {{ listen 127.0.0.1:80; {} }} }}", text))
}

#[test]
fn values_have_units() {
    assert_eq!(size("2k"), Ok(2048));
    assert_eq!(size("3M"), Ok(3 * 1048576));
    assert_eq!(size("1g"), Ok(1073741824));
    assert_eq!(size("7"), Ok(7));
    assert_eq!(size("x"), Err(ValueError::NotANumber));
    assert_eq!(size("18446744073709551615k"), Err(ValueError::Overflow));
    assert_eq!(duration("5s"), Ok(5000));
    assert_eq!(duration("250ms"), Ok(250));
    assert_eq!(duration("2m"), Ok(120_000));
    assert_eq!(switch("on"), Ok(true));
    assert_eq!(switch("off"), Ok(false));
    assert_eq!(switch("yes"), Err(ValueError::ExpectedSwitch));
    assert_eq!(validate_host("*.example.test"), Ok(()));
    assert_eq!(validate_host("a.*.test"), Err(ValueError::UnsupportedHost));
    assert_eq!(validate_variables("$host/$uri"), Ok(()));
    assert_eq!(validate_variables("$unknown"), Err(ValueError::UnsupportedVariable));
}

#[test]
fn texts_are_cut_into_tokens() {
    let v = tokenize("server { # comment\n listen \"a b\"; }").unwrap();
    let words: Vec<&str> = v.iter().map(|t| t.text.as_str()).collect();
    assert_eq!(words, vec!["server", "{", "listen", "a b", ";", "}"]);
    assert!(v[1].punctuation && !v[3].punctuation);
    assert_eq!((v[2].line, v[2].column), (2, 2));
    assert!(matches!(tokenize("a \"b"), Err(SyntaxError::UnterminatedString { .. })));
    assert!(matches!(tokenize("a \\"), Err(SyntaxError::IncompleteEscape { .. })));
}

fn syntax_error(text: &str) -> SyntaxError {
    let tokens = tokenize(text).unwrap();
    match parse(&tokens, 0, "main.conf", 0) {
        Ok(_) => panic!("accepted"),
        Err(e) => e,
    }
}

#[test]
fn directives_are_parsed_or_refused() {
    let v = nodes("user a b; http { gzip on; }");
    assert_eq!(v.len(), 2);
    assert_eq!(v[0].name, "user");
    assert_eq!(v[0].args, vec!["a", "b"]);
    assert!(v[0].children.is_none());
    assert_eq!(v[1].children.as_ref().unwrap()[0].name, "gzip");
    assert!(matches!(syntax_error("}"), SyntaxError::UnexpectedClosingBrace { .. }));
    assert!(matches!(syntax_error(";"), SyntaxError::ExpectedDirective { .. }));
    assert!(matches!(syntax_error("a b"), SyntaxError::MissingSemicolonOrBlock { .. }));
    assert!(matches!(syntax_error("a b }"), SyntaxError::MissingSemicolon { .. }));
    assert!(matches!(syntax_error("a {"), SyntaxError::UnclosedBlock));
    assert!(matches!(
        syntax_error(&format!("{}{}", "a { ".repeat(200), "} ".repeat(200))),
        SyntaxError::NestingTooDeep
    ));
}

fn file(path: &str, text: &str) -> File {
    File { path: path.into(), bytes: text.as_bytes().to_vec() }
}

#[test]
fn included_files_are_asked_for_and_put_in_place() {
    let mut files = Files { listings: vec![], files: vec![] };
    assert!(matches!(load("/c/main", &files), Err(LoadError::NeedFile(_))));
    files.files.push(file("/c/main", "a; include part; b;"));
    let asked = match load("/c/main", &files) {
        Err(LoadError::NeedFile(p)) => p,
        Err(LoadError::NeedListing(p)) => p,
        other => panic!("{:?}", other),
    };
    assert!(asked.ends_with("/part"));
    files.files.push(file("/c/part", "c;"));
    files.listings.push(Listing { pattern: "/c/part".into(), paths: vec!["/c/part".into()] });
    let names: Vec<String> = load("/c/main", &files).unwrap().iter().map(|n| n.name.clone()).collect();
    assert_eq!(names, vec!["a", "c", "b"]);
}

#[test]
fn includes_do_not_turn_in_circles() {
    let files = Files {
        listings: vec![
            Listing { pattern: "/c/a".into(), paths: vec!["/c/a".into()] },
            Listing { pattern: "/c/none".into(), paths: vec![] },
        ],
        files: vec![
            file("/c/a", "include a;"),
            file("/c/b", "include none;"),
            file("/c/c", "include;"),
            File { path: "/c/d".into(), bytes: vec![0xff] },
            file("/c/e", "a"),
        ],
    };
    assert!(matches!(load("/c/a", &files), Err(LoadError::IncludeCycle(_))));
    assert!(matches!(load("/c/b", &files), Err(LoadError::IncludeNotFound(_))));
    assert!(matches!(load("/c/c", &files), Err(LoadError::IncludeArguments(_))));
    assert!(matches!(load("/c/d", &files), Err(LoadError::NotUtf8(_))));
    assert!(matches!(load("/c/e", &files), Err(LoadError::Syntax(_, _))));
}

#[test]
fn configurations_become_plans() {
    let p = plan(
        "http {
            upstream app { server 10.0.0.1:8080 weight=2; server 10.0.0.2:8080; }
            server {
                listen 127.0.0.1:8080 default_server;
                server_name example.test;
                location / { proxy_pass http://app; }
                location = /ping { return 200 pong; }
            }
        }",
    )
    .unwrap();
    assert_eq!(p.servers.len(), 1);
    assert_eq!(p.servers[0].names, vec!["example.test"]);
    assert_eq!(p.upstreams.len(), 1);
    let servers: Vec<_> = p.upstreams[0].servers.iter().map(|s| (s.address.as_str(), s.weight)).collect();
    assert_eq!(servers, vec![("10.0.0.1:8080", 2), ("10.0.0.2:8080", 1)]);
    assert_eq!(p.listeners.len(), 1);
    assert_eq!(p.listeners[0].address.port, 8080);
    assert!(!p.listeners[0].tls);
    assert!(p.hosts[0].default);
    let exact = p.servers[0].routes.iter().find(|r| matches!(r.matcher, PathMatch::Exact(_))).unwrap();
    assert!(matches!(&exact.action, Action::Return { status: 200, text } if text == "pong"));
    let prefix = p.servers[0]
        .routes
        .iter()
        .find(|r| matches!(&r.matcher, PathMatch::NginxPrefix(x) if x == "/"))
        .unwrap();
    assert!(matches!(&prefix.action, Action::Proxy { .. }));
    let keys: Vec<&str> = p.targets.iter().map(|t| t.key.as_str()).collect();
    assert_eq!(keys, vec!["app", "http://app"]);
    assert!(p.targets.iter().all(|t| matches!(&t.source, Source::Group(g) if g == "app")));
}

#[test]
fn inconsistent_configurations_are_refused() {
    assert_eq!(problem("events {}"), LoadProblem::NoHttp);
    assert_eq!(problem("http {} http {}"), LoadProblem::DuplicateHttp);
    assert_eq!(problem("http x {}"), LoadProblem::HttpArguments);
    assert_eq!(problem("events { a; } http {}"), LoadProblem::EventsNotEmpty);
    assert_eq!(problem("stream {}"), LoadProblem::UnsupportedTopLevel);
    assert_eq!(problem("http {}"), LoadProblem::NoServer);
    assert_eq!(
        problem("http { upstream a { server b:1; } upstream a { server b:1; } }"),
        LoadProblem::DuplicateUpstream
    );
    assert_eq!(problem("http { server x { } }"), LoadProblem::ServerArguments);
    assert_eq!(server("server_name;"), LoadProblem::NoServerNames);
    assert_eq!(server("listen;"), LoadProblem::NoListenAddress);
    assert_eq!(server("listen nowhere:x;"), LoadProblem::ListenAddress);
    assert_eq!(server("listen 127.0.0.1:81 odd;"), LoadProblem::ListenOption);
    assert_eq!(server("location / { return 200; } location / { return 200; }"), LoadProblem::DuplicateLocation);
    assert_eq!(server("location { }"), LoadProblem::LocationArguments);
    assert_eq!(server("listen 127.0.0.1:443 ssl;"), LoadProblem::TlsWithoutCertificate);
    assert_eq!(server("ssl_certificate a;"), LoadProblem::CertificatePair);
    assert_eq!(
        problem(
            "http { server { listen 127.0.0.1:80 default_server; } \
             server { listen 127.0.0.1:80 default_server; } }"
        ),
        LoadProblem::DuplicateDefault
    );
    assert!(matches!(server("server_name a/b;"), LoadProblem::Host(_)));
    assert!(matches!(server("client_max_body_size much;"), LoadProblem::Directive(Problem::Value(_))));
    assert!(matches!(server("gzip on;"), LoadProblem::Directive(Problem::Unsupported)));
    assert!(matches!(problem("http { upstream a { least_conn; } }"), LoadProblem::Upstream(_)));
    assert!(matches!(server("unknown x;"), LoadProblem::Directive(Problem::Unsupported)));
}

#[test]
fn addresses_of_backends_are_plain() {
    assert!(proxy_url("http://app").is_ok());
    assert_eq!(proxy_url("app").unwrap_err(), ProxyError::NotAbsolute);
    assert_eq!(proxy_url("http://app/?a=b").unwrap_err(), ProxyError::HasQuery);
    assert_eq!(proxy_url("http://user@app/").unwrap_err(), ProxyError::NeedsPlainHost);
    let u = proxy_url("https://app:8443/x").unwrap();
    assert_eq!((u.scheme.as_str(), u.port, u.path.as_str()), ("https", Some(8443), "/x"));
}

fn applied(text: &str, context: Context) -> Result<Scope, Problem> {
    let v = nodes(text);
    let mut s = Scope::new("/root".to_string());
    apply(&mut s, &v[0], "/etc", context).map(|_| s)
}

#[test]
fn groups_name_their_servers() {
    let error = |text: &str| group::load(&nodes(text)[0]).unwrap_err().1;
    let g = group::load(&nodes("upstream app { server a.test weight=3; server [::1]; }")[0]).unwrap();
    assert_eq!(g.name, "app");
    let servers: Vec<_> = g.servers.iter().map(|s| (s.address.as_str(), s.weight)).collect();
    assert_eq!(servers, vec![("a.test:80", 3), ("[::1]:80", 1)]);
    assert_eq!(group::authority_with_port("[::1]:81", 80), "[::1]:81");
    assert_eq!(group::authority_with_port("a.test:81", 80), "a.test:81");
    assert_eq!(group::authority_with_port("::1", 80), "::1:80");
    assert_eq!(error("upstream app { }"), UpstreamError::ServerCount);
    assert_eq!(error("upstream app { hash $host; }"), UpstreamError::ServerArguments);
    assert_eq!(error("upstream app { server a b c; }"), UpstreamError::ServerArguments);
    assert_eq!(error("upstream app { server a down; }"), UpstreamError::OnlyWeight);
    assert_eq!(error("upstream app { server a weight=x; }"), UpstreamError::NotANumber);
    assert_eq!(error("upstream app { server a weight=0; }"), UpstreamError::InvalidWeight);
    assert_eq!(error("upstream app;"), UpstreamError::Directive(Problem::RequiresBlock));
    assert_eq!(error("upstream { server a; }"), UpstreamError::Directive(Problem::ExpectsOneArgument));
}

#[test]
fn directives_on_policy_stand_by_themselves() {
    let policy = |text: &str| {
        let mut s = Scope::new("/root".to_string());
        apply_policy(&mut s, &nodes(text)[0]).map(|known| (known, s))
    };
    let (known, s) = policy("gzip on;").unwrap();
    assert!(known && s.settings.compression.gzip > 0);
    assert!(!policy("root html;").unwrap().0);
    assert!(matches!(policy("gzip;"), Err(Problem::ExpectsOneArgument)));
    assert!(matches!(policy("set_real_ip_from x;"), Err(Problem::InvalidNetwork)));
    for text in ["gzip on;", "set_real_ip_from 10.0.0.0/8;", "deny all;"] {
        assert!(matches!(applied(text, Context::Http), Err(Problem::Unsupported)));
    }
}

#[test]
fn directives_change_their_scope_only() {
    let s = applied("client_max_body_size 2m;", Context::Http).unwrap();
    assert_eq!(s.settings.max_body, 2 * 1048576);
    let s = applied("return 204;", Context::Location).unwrap();
    assert!(matches!(s.action, Some(Action::Return { status: 204, .. })));
    let s = applied("root html;", Context::Server).unwrap();
    assert_eq!(s.settings.root, "/etc/html");
    assert!(matches!(applied("root $host;", Context::Http), Err(Problem::RootVariables)));
    assert!(matches!(applied("add_header a;", Context::Http), Err(Problem::HeaderArguments)));
    assert!(matches!(applied("return 99;", Context::Location), Err(Problem::ReturnStatus)));
}

#[test]
fn assets_are_numbered() {
    let c = capture(
        &nodes(
            "http { server { listen 127.0.0.1:443 ssl; ssl_certificate a.pem; ssl_certificate_key a.key; } }",
        ),
        "/etc/rgnix/main.conf",
    );
    assert_eq!(c.assets.len(), 2);
    assert_eq!(c.assets[0].path, "/etc/rgnix/a.pem");
    assert!(c.assets.iter().all(|a| is_valid_asset(&a.name)));
    assert_ne!(c.assets[0].name, c.assets[1].name);
    assert!(!is_valid_asset("../a"));
}

#[test]
fn bundles_are_bounded() {
    let b = Bundle { nodes: vec![], assets: vec![] };
    assert_eq!(b.validate(10), Ok(()));
    let b = Bundle { nodes: vec![], assets: vec![("../x".into(), vec![1])] };
    assert_eq!(b.validate(10), Err(BundleError::InvalidAsset));
    assert_eq!(Bundle { nodes: vec![], assets: vec![] }.validate(usize::MAX), Err(BundleError::TooLarge));
}

#[test]
fn limits_are_read() {
    let keys = vec!["ip".to_string()];
    assert!(matches!(limits::rate(&nodes("limit_req off;")[0], &keys), Ok(None)));
    assert!(matches!(limits::concurrency(&nodes("limit_conn off;")[0], &keys), Ok(None)));
    assert!(limits::rate(&nodes("limit_req;")[0], &keys).is_err());
    assert!(limits::concurrency(&nodes("limit_conn a b c d e;")[0], &keys).is_err());
    let limit = limits::concurrency(&nodes("limit_conn 5 key=ip;")[0], &keys).unwrap().unwrap();
    assert_eq!((limit.limit, limit.key.as_str()), (5, "ip"));
    let other = limits::concurrency(&nodes("limit_conn 5 key=moon;")[0], &keys).unwrap_err();
    assert_eq!(other, LimitError::Key);
}

#[test]
fn security_directives_are_read() {
    let r = security::apply(&nodes("ssl_verify_client on;")[0], "/etc", Context::Server);
    assert!(matches!(r, Ok(Change::Verify(Mode::Required))));
    let r = security::apply(&nodes("ssl_verify_client maybe;")[0], "/etc", Context::Server);
    assert!(matches!(r, Err(SecurityError::VerifyMode)));
    let r = security::apply(&nodes("ssl_verify_client on;")[0], "/etc", Context::Location);
    assert!(matches!(r, Err(SecurityError::InLocation)));
    let r = security::apply(&nodes("ssl_client_certificate ca.pem;")[0], "/etc", Context::Server);
    assert!(matches!(r, Ok(Change::ClientAuthority(p)) if p == "/etc/ca.pem"));
    let r = security::apply(&nodes("gzip on;")[0], "/etc", Context::Server);
    assert!(matches!(r, Ok(Change::Other)));
}

#[test]
fn upstreams_spread_requests() {
    let keys = vec!["ip".to_string()];
    let load = |text: &str| upstream::load(&nodes(text)[0], &keys);
    let u = load("upstream app { server a.test:81 weight=3; server [::1]; rgnix_balance hash ip; rgnix_max_inflight 7; }");
    let u = u.unwrap();
    assert_eq!(u.name, "app");
    let servers: Vec<_> = u.origins.iter().map(|o| (o.host.as_str(), o.port, o.weight)).collect();
    assert_eq!(servers, vec![("a.test", 81, 3), ("::1", 80, 1)]);
    assert!(matches!(u.options.balance, Balance::Hash(k) if k == "ip"));
    assert_eq!(u.options.max_inflight, 7);
    let error = |text: &str| load(text).unwrap_err().1;
    assert_eq!(error("upstream app { server a; rgnix_balance hash moon; }"), UpstreamError::HashKey);
    assert_eq!(error("upstream app { server a; rgnix_balance odd; }"), UpstreamError::BalanceArguments);
    assert_eq!(error("upstream app { server a/b; }"), UpstreamError::ServerAddress);
    assert_eq!(error("upstream app { least_conn; }"), UpstreamError::ServerCount);
    assert_eq!(error("upstream app { server a; least_conn x; }"), UpstreamError::TakesNoArguments);
    assert_eq!(error("upstream app { server a; odd; }"), UpstreamError::UnsupportedDirective);
}

use rgnix::body::{BodyPolicy, Inspection};
use rgnix::header::{Field, Headers};
use rgnix::identity::IdentityPolicy;
use rgnix::model::{Action, AddedHeader, PathMatch};
use rgnix::net::network;
use rgnix::proxy::files::{
    after_piece, answer, directory_location, etag, extension, file_headers, file_lookup, mime, next_piece,
    relative, sends_file, serve_file, FileReply, Lookup, Opened, StaticFile,
};
use rgnix::proxy::flow::{body_too_long, enter, keepalive_seconds, next, Event, Gate, Next, Stage};
use rgnix::proxy::inspect::{start, take, turn, view, Start, Turn};
use rgnix::proxy::mirror::{copy_headers, copy_url, decide_copy, in_sample, keep_piece, skips_copy, Copying};
use rgnix::json::Json;
use rgnix::logging::access::Policy;
use rgnix::proxy::outcome::{
    access_entry, access_line, conclude, exported_client, target_path, Circumstances, Entry,
};
use rgnix::proxy::paths::{encode_path, normalized_path, PathError};
use rgnix::proxy::planning::outbound_uri;
use rgnix::proxy::request::{
    https_redirect, identify, receive, redirects_to_slash, slash_path, strip_hop_headers, Arrival, HostError,
    Progress, Refusal,
};
use rgnix::proxy::responses::{
    decorate, edit_fields, fail_status, fail_to_proxy, failure, insert_field, reply, sends_body, Fault, FieldError, Response,
    Side,
};
use rgnix::proxy::upstream::{
    affinity, affinity_cookie, affinity_text, bind, count_body, grpc_status, upstream_headers,
};
use rgnix::script::{Decision, Edits, RequestData};
use rgnix::table::Table;

fn headers(v: &[(&str, &str)]) -> Headers {
    Headers {
        fields: v
            .iter()
            .map(|(n, x)| Field { name: n.to_string(), value: x.as_bytes().to_vec() })
            .collect(),
    }
}

fn arrival(path: &str, fields: &[(&str, &str)]) -> Arrival {
    Arrival {
        method: "GET".into(),
        path: path.into(),
        query: Some("a=1".into()),
        target: Some(format!("{}?a=1", path)),
        authority: None,
        http11: true,
        peer: "10.0.0.1".into(),
        headers: headers(fields),
    }
}

fn progress(fields: &[(&str, &str)]) -> Progress {
    let mut all = vec![("host", "example.test")];
    all.extend_from_slice(fields);
    receive(&arrival("/a", &all), false, "server").unwrap()
}

fn text(h: &Headers, name: &str) -> String {
    h.first_text(name).unwrap()
}

#[test]
fn paths_are_normalized_below_the_root() {
    assert_eq!(normalized_path("/a/./b/../c"), Ok("/a/c".to_string()));
    assert_eq!(normalized_path("/a%20b"), Ok("/a b".to_string()));
    assert_eq!(normalized_path("/a//b"), Ok("/a/b".to_string()));
    assert_eq!(normalized_path("/../a"), Err(PathError::EscapesRoot));
    assert_eq!(normalized_path("/%zz"), Err(PathError::BadEscape));
    assert_eq!(normalized_path("/%ff"), Err(PathError::NotUtf8));
    assert_eq!(normalized_path("/%00"), Err(PathError::Invalid));
    assert_eq!(normalized_path(&format!("/{}", "a".repeat(1 << 17))), Err(PathError::TooLong));
}

#[test]
fn encoded_paths_decode_to_themselves() {
    let encoded = encode_path("/a b/é?");
    assert_eq!(encoded, "/a%20b/%C3%A9%3F");
    assert_eq!(normalized_path(&encoded), Ok("/a b/é?".to_string()));
}

#[test]
fn requests_are_received_with_one_host() {
    let p = progress(&[]);
    assert_eq!(p.request.host, "example.test");
    assert_eq!(p.request.query, "a=1");
    assert_eq!(p.original_uri, "/a?a=1");
    assert_eq!(p.scheme, "http");
    assert_eq!(receive(&arrival("/a", &[]), false, "s").unwrap_err(), Refusal::Host(HostError::NotExactlyOne));
    assert_eq!(
        receive(&arrival("/a", &[("host", "a"), ("host", "b")]), false, "s").unwrap_err(),
        Refusal::Host(HostError::NotExactlyOne)
    );
    assert_eq!(
        receive(&arrival("/a", &[("host", "a b")]), false, "s").unwrap_err(),
        Refusal::Host(HostError::InvalidAuthority)
    );
    assert_eq!(
        receive(&arrival("/..", &[("host", "a")]), false, "s").unwrap_err(),
        Refusal::Path(PathError::EscapesRoot)
    );
    assert_eq!(
        receive(&arrival("/", &[("host", "a"), ("connection", "content-length")]), false, "s").unwrap_err(),
        Refusal::FramingNamed
    );
}

#[test]
fn fields_of_the_connection_stop() {
    let mut h = headers(&[
        ("connection", "close, X-Hop"),
        ("x-hop", "1"),
        ("keep-alive", "1"),
        ("x-stay", "1"),
        ("transfer-encoding", "chunked"),
    ]);
    strip_hop_headers(&mut h);
    assert!(h.first("x-hop").is_none());
    assert!(h.first("keep-alive").is_none());
    assert!(h.first("connection").is_none());
    assert_eq!(text(&h, "x-stay"), "1");
}

#[test]
fn untouched_requests_pass_through() {
    let p = progress(&[]);
    let m = PathMatch::NginxPrefix("/a".into());
    assert_eq!(outbound_uri("/a?x=%20", &p.request, &p.edits, &m, &None), "/a?x=%20");
    assert_eq!(outbound_uri("/a?a=1", &p.request, &p.edits, &m, &Some("/b".into())), "/b?a=1");
    let edits = Edits { path: Some("/n".into()), query: Some(String::new()), headers: vec![] };
    assert_eq!(outbound_uri("/a?a=1", &p.request, &edits, &m, &None), "/n");
}

#[test]
fn slashes_are_added_to_prefixes() {
    let m = PathMatch::NginxPrefix("/a/".into());
    assert_eq!(slash_path("/a", &m), Some("/a/".to_string()));
    assert_eq!(slash_path("/a/", &m), None);
    assert_eq!(slash_path("/a", &PathMatch::Exact("/a".into())), None);
    let proxy = Action::Proxy { backend: "b".into(), uri: None };
    assert!(redirects_to_slash("/a/", &m, &proxy));
    assert!(!redirects_to_slash("/b/", &m, &proxy));
}

#[test]
fn clients_are_identified_through_trusted_proxies() {
    let policy = IdentityPolicy {
        trusted: vec![network("10.0.0.0/8").unwrap()],
        header: "x-real-ip".into(),
        recursive: false,
        access: vec![],
    };
    let h = headers(&[("host", "a"), ("x-real-ip", "192.0.2.9"), ("x-forwarded-proto", "https")]);
    let mut p = progress(&[]);
    assert!(identify(&mut p, &policy, &h, None, false));
    assert_eq!(p.request.remote_addr, "192.0.2.9");
    assert_eq!(p.scheme, "https");
    let mut p = progress(&[]);
    p.request.remote_addr = "198.51.100.1".into();
    p.original_peer = "198.51.100.1".into();
    assert!(identify(&mut p, &policy, &h, None, false));
    assert_eq!(p.request.remote_addr, "198.51.100.1");
}

#[test]
fn redirects_lead_to_the_secure_port() {
    assert_eq!(https_redirect("a.test", "/x?y", 443), "https://a.test/x?y");
    assert_eq!(https_redirect("a.test", "/x", 8443), "https://a.test:8443/x");
    assert_eq!(https_redirect("::1", "/", 443), "https://[::1]/");
}

fn gate() -> Gate {
    Gate {
        secure_port: None,
        tenant: false,
        jwt: false,
        external: None,
        slash: false,
        max_body: 10,
        script: false,
        backends: Table::new(),
        action: Action::Proxy { backend: "b".into(), uri: None },
    }
}

#[test]
fn requests_move_on_check_by_check() {
    let g = gate();
    let h = headers(&[]);
    let mut p = progress(&[]);
    assert!(matches!(enter(&p, &g), Next::Ask(Stage::Certificate)));
    assert!(matches!(next(&mut p, &g, &h, Stage::Certificate, &Event::Passed), Next::Ask(Stage::PreAuth)));
    assert!(matches!(next(&mut p, &g, &h, Stage::PreAuth, &Event::Passed), Next::Ask(Stage::Traffic)));
    assert!(matches!(
        next(&mut p, &g, &h, Stage::Traffic, &Event::Passed),
        Next::Backend { key, scripted: false, .. } if key == "b"
    ));
    assert!(matches!(next(&mut p, &g, &h, Stage::Certificate, &Event::Denied(418)), Next::Fail(403)));
    assert!(matches!(next(&mut p, &g, &h, Stage::Traffic, &Event::Denied(429)), Next::Fail(429)));
    let long = headers(&[("content-length", "11")]);
    assert!(body_too_long(&long, 10) && !body_too_long(&long, 0));
    assert!(matches!(next(&mut p, &g, &long, Stage::Traffic, &Event::Passed), Next::Fail(413)));
    let secure = Gate { secure_port: Some(443), ..gate() };
    assert!(matches!(
        enter(&p, &secure),
        Next::Reply { status: 308, location: Some(l), .. } if l == "https://example.test/a?a=1"
    ));
}

#[test]
fn tokens_and_scripts_are_not_left_out() {
    let g = Gate { jwt: true, script: true, tenant: true, ..gate() };
    let mut p = progress(&[]);
    let none = headers(&[]);
    let some = headers(&[("authorization", "Bearer abc")]);
    assert!(matches!(
        next(&mut p, &g, &none, Stage::Certificate, &Event::Passed),
        Next::Ask(Stage::TenantRequest)
    ));
    assert!(matches!(next(&mut p, &g, &none, Stage::PreAuth, &Event::Passed), Next::Fail(401)));
    assert!(matches!(
        next(&mut p, &g, &some, Stage::PreAuth, &Event::Passed),
        Next::Verify(t) if t == "abc"
    ));
    let mut claims = Table::new();
    claims.insert("sub".into(), "me".into());
    assert!(matches!(
        next(&mut p, &g, &some, Stage::Token, &Event::Claims(claims)),
        Next::Ask(Stage::Traffic)
    ));
    assert_eq!(p.request.claims.get("sub"), Some("me"));
    assert!(matches!(
        next(&mut p, &g, &some, Stage::Traffic, &Event::Passed),
        Next::Ask(Stage::PluginQuota)
    ));
    assert!(matches!(next(&mut p, &g, &some, Stage::Body, &Event::Passed), Next::Ask(Stage::Script)));
    let e = Edits { path: None, query: None, headers: vec![] };
    assert!(matches!(
        next(&mut p, &g, &some, Stage::Script, &Event::Scripted(e, Decision::Reply(418, "tea".into()))),
        Next::Reply { status: 418, .. }
    ));
}

#[test]
fn vouched_fields_are_not_the_clients() {
    let g = Gate { external: Some(vec!["x-user".into()]), ..gate() };
    let mut p = progress(&[("x-user", "mallory")]);
    let h = headers(&[]);
    assert!(matches!(next(&mut p, &g, &h, Stage::PreAuth, &Event::Passed), Next::Ask(Stage::External)));
    assert!(p.request.headers.get("x-user").is_none());
    let vouched = Event::Authorized(vec![("x-user".into(), "alice".into())]);
    assert!(matches!(next(&mut p, &g, &h, Stage::External, &vouched), Next::Ask(Stage::Traffic)));
    assert_eq!(p.request.headers.get("x-user"), Some("alice"));
}

#[test]
fn inspected_bodies_fit() {
    let full = BodyPolicy { inspection: Inspection::Full(10), timeout: 1000 };
    assert_eq!(start(&full, &headers(&[("content-length", "11")]), false), Start::TooLong);
    assert_eq!(start(&full, &headers(&[]), true), Start::Empty);
    assert_eq!(start(&BodyPolicy::default(), &headers(&[]), false), Start::Off);
    assert!(matches!(start(&full, &headers(&[("content-length", "5")]), false), Start::Read(_)));
    assert_eq!(turn(10, true, 3, true), Turn::Stop(true));
    assert_eq!(turn(10, true, 3, false), Turn::Read);
    assert_eq!(turn(10, false, 10, false), Turn::Stop(false));
    assert_eq!(take(10, true, 0, 8, 3, false), Err(413));
    assert_eq!(take(10, false, 10, 8, 3, false), Err(413));
    assert_eq!(take(10, true, 0, 1, 3, true), Err(500));
    assert_eq!(take(10, true, 0, 1, 3, false), Ok(4));
    let v = view(&vec![1, 2, 3], 2, 3, true);
    assert_eq!(v.bytes, vec![1, 2]);
    assert!(!v.complete);
}

#[test]
fn copies_go_by_the_sample() {
    assert!(in_sample(0, 1) && !in_sample(1, 1));
    assert!(!in_sample(0, 0));
    assert_eq!(decide_copy(true, true, None), Copying::Skipped(false));
    assert_eq!(decide_copy(false, false, None), Copying::Skipped(false));
    assert_eq!(decide_copy(false, true, Some(false)), Copying::Skipped(true));
    assert_eq!(decide_copy(false, true, Some(true)), Copying::Copy);
    let p = progress(&[]);
    assert!(skips_copy(&headers(&[("content-length", "11")]), &p.request, false, 10));
    assert!(skips_copy(&headers(&[]), &p.request, true, 10));
    let mut kept = vec![1];
    assert!(keep_piece(&mut kept, &vec![2, 3], 3));
    assert_eq!(kept, vec![1, 2, 3]);
    assert!(!keep_piece(&mut kept, &vec![4], 3));
    let h = copy_headers(&headers(&[("connection", "close"), ("host", "a"), ("x-b", "2")]), "mirror");
    assert!(h.first("connection").is_none());
    assert_eq!(text(&h, "host"), "mirror");
    assert_eq!(text(&h, "x-b"), "2");
    assert_eq!(copy_url(false, "m.test", None, 80, "/a"), "http://m.test:80/a");
}

#[test]
fn failures_are_not_successes() {
    assert_eq!(fail_status(Fault::ReadTimeout, Side::Upstream), 504);
    assert_eq!(fail_status(Fault::Closed, Side::Upstream), 502);
    assert_eq!(fail_status(Fault::Closed, Side::Downstream), 0);
    assert_eq!(fail_status(Fault::Other, Side::Downstream), 400);
    assert_eq!(fail_status(Fault::Other, Side::Internal), 500);
    assert_eq!(fail_status(Fault::Status(418), Side::Internal), 418);
    assert_eq!(text(&failure(429).headers, "retry-after"), "1");
    assert_eq!(text(&failure(401).headers, "www-authenticate"), "Bearer");
    assert!(failure(500).headers.first("retry-after").is_none());
    let p = progress(&[]);
    let o = conclude(None, 0, &p.request, None, Some(Side::Upstream));
    assert_eq!(o.status, 502);
    assert!(o.failed && o.upstream_failed && o.counts);
    let o = conclude(Some(200), 0, &p.request, None, None);
    assert!(!o.failed && o.grpc_status.is_none());
    let call = progress(&[("content-type", "application/grpc")]);
    let o = conclude(Some(403), 0, &call.request, None, None);
    assert_eq!(o.grpc_status, Some(7));
    assert!(o.failed);
}

#[test]
fn replies_hold_what_is_sent() {
    let r = reply(200, "hello", &None).unwrap();
    assert_eq!(text(&r.headers, "content-length"), "5");
    assert!(reply(204, "", &None).unwrap().headers.first("content-length").is_none());
    assert_eq!(reply(301, "", &Some("a\nb".into())).unwrap_err(), FieldError::Value);
    assert_eq!(reply(99, "", &None).unwrap_err(), FieldError::Status);
    assert!(sends_body("GET", 200, "x") && !sends_body("HEAD", 200, "x") && !sends_body("GET", 304, "x"));
    let mut h = headers(&[]);
    assert_eq!(insert_field(&mut h, "bad name", "x"), Err(FieldError::Name));
    assert_eq!(insert_field(&mut h, "x", "a\nb"), Err(FieldError::Value));
    assert_eq!(insert_field(&mut h, "x", "1"), Ok(()));
    assert_eq!(edit_fields(&mut h, &vec![("x".into(), None), ("y".into(), Some("2".into()))]), Ok(()));
    assert!(h.first("x").is_none());
    assert_eq!(text(&h, "y"), "2");
}

#[test]
fn responses_are_decorated() {
    let p = progress(&[]);
    let mut r = Response { status: 500, headers: headers(&[]) };
    let extra = vec![
        AddedHeader { name: "x-a".into(), value: "$host".into(), always: true },
        AddedHeader { name: "x-b".into(), value: "1".into(), always: false },
    ];
    decorate(&mut r, &p, None, &extra).unwrap();
    assert_eq!(text(&r.headers, "x-a"), "example.test");
    assert!(r.headers.first("x-b").is_none());
}

#[test]
fn backends_get_their_own_fields() {
    let p = progress(&[]);
    let mut h = headers(&[("connection", "close"), ("host", "example.test"), ("x-a", "1")]);
    let rules = vec![("x-forwarded-host".to_string(), "$host".to_string()), ("x-a".to_string(), String::new())];
    upstream_headers(&mut h, &p, "backend.test", &rules, &Some("00-trace".into())).unwrap();
    assert_eq!(text(&h, "host"), "backend.test");
    assert_eq!(text(&h, "x-forwarded-host"), "example.test");
    assert!(h.first("x-a").is_none());
}

#[test]
fn new_cookies_are_recognized() {
    let value = affinity_text(255);
    assert_eq!(value, "000000000000000000000000000000ff");
    assert_eq!(
        affinity_cookie("id", &value, "https"),
        format!("id={}; Path=/; Max-Age=86400; HttpOnly; SameSite=Lax; Secure", value)
    );
    let p = progress(&[("cookie", &format!("a=b; id={}", value))]);
    assert_eq!(affinity(&p, "id"), Some(value.clone()));
    assert_eq!(bind(&p, "id"), (value, None));
    let (fresh, cookie) = bind(&progress(&[]), "id");
    assert_eq!(fresh.len(), 32);
    assert!(cookie.unwrap().starts_with(&format!("id={};", fresh)));
    let again = progress(&[("cookie", &format!("id={}", fresh))]);
    assert_eq!(affinity(&again, "id"), Some(fresh));
}

#[test]
fn bodies_are_counted() {
    let mut seen = 8;
    assert_eq!(count_body(&mut seen, 2, 10), Ok(()));
    assert_eq!(count_body(&mut seen, 1, 10), Err(413));
    assert_eq!(seen, 11);
    assert_eq!(count_body(&mut seen, 1, 0), Ok(()));
    assert_eq!(grpc_status(&b"7".to_vec()), 7);
    assert_eq!(grpc_status(&b"17".to_vec()), 2);
    assert_eq!(grpc_status(&b"x".to_vec()), 2);
}

fn static_file() -> StaticFile {
    StaticFile { length: 10, mime: "text/plain".into(), etag: "\"a-1-0\"".into(), modified: 784111777 }
}

fn asked(fields: &[(&str, &str)]) -> RequestData {
    progress(fields).request
}

#[test]
fn files_are_answered_in_ranges() {
    let f = static_file();
    let a = answer(&asked(&[("range", "bytes=2-4")]), &f);
    assert_eq!((a.status, a.start, a.length), (206, 2, 3));
    assert_eq!(a.content_range.as_deref(), Some("bytes 2-4/10"));
    let a = answer(&asked(&[("range", "bytes=10-")]), &f);
    assert_eq!((a.status, a.length), (416, 0));
    assert_eq!(a.content_range.as_deref(), Some("bytes */10"));
    let a = answer(&asked(&[("range", "bytes=2-4"), ("if-range", "\"other\"")]), &f);
    assert_eq!((a.status, a.length), (200, 10));
    let a = answer(&asked(&[("range", "bytes=2-4"), ("if-range", "Sun, 06 Nov 1994 08:49:37 GMT")]), &f);
    assert_eq!(a.status, 206);
}

#[test]
fn fresh_files_are_not_sent_again() {
    let f = static_file();
    assert_eq!(answer(&asked(&[("if-none-match", "\"x\", \"a-1-0\"")]), &f).status, 304);
    assert_eq!(answer(&asked(&[("if-modified-since", "Sun, 06 Nov 1994 08:49:37 GMT")]), &f).status, 304);
    assert_eq!(answer(&asked(&[("if-modified-since", "Sun, 06 Nov 1994 08:49:36 GMT")]), &f).status, 200);
    let a = answer(&asked(&[]), &f);
    let h = file_headers(&f, &a);
    assert_eq!(text(&h, "last-modified"), "Sun, 06 Nov 1994 08:49:37 GMT");
    assert_eq!(text(&h, "content-length"), "10");
    assert_eq!(text(&h, "accept-ranges"), "bytes");
    assert!(sends_file("GET", &a) && !sends_file("HEAD", &a));
}

#[test]
fn files_have_tags_and_types() {
    assert_eq!(etag(10, 255, 1), "\"a-ff-1\"");
    assert_eq!(extension("/a.b/c.HTML"), "html");
    assert_eq!(extension("/a/.profile"), "");
    let types = vec![("html".to_string(), "text/html".to_string())];
    assert_eq!(mime(&types, "other", "a.html"), "text/html");
    assert_eq!(mime(&types, "other", "a.bin"), "other");
    assert_eq!(relative("/a/b"), "a/b");
    let r = asked(&[]);
    let none = Edits { path: None, query: None, headers: vec![] };
    assert!(matches!(file_lookup(&r, &none), Lookup::Open(p) if p == "/a"));
    assert_eq!(directory_location("/a b", &r, &none), "/a%20b/?a=1");
    let post = RequestData { method: "POST".into(), ..asked(&[]) };
    assert!(matches!(file_lookup(&post, &none), Lookup::MethodNotAllowed));
}

#[test]
fn lines_of_the_access_log_tell_of_requests() {
    let c = Circumstances {
        timestamp: "2026-01-01T00:00:00Z".to_string(),
        uri: "/a".to_string(),
        protocol: "HTTP/1.1".to_string(),
        bytes: 12,
        route: None,
        backend: None,
        upstream: None,
        config: None,
        trace_id: None,
        span_id: None,
        parent_span_id: None,
        upstream_span_id: None,
        trace_sampled: Some(true),
    };
    let line = access_line(&Policy::default(), &progress(&[]).request, 200, &c);
    assert!(line.contains("/a") && line.contains("200") && line.contains("10.0.0.1"));
    let only = Policy {
        json: true,
        client: false,
        fields: vec!["status".into(), "client".into(), "grpc_status".into(), "trace_sampled".into()],
        ..Policy::default()
    };
    match access_entry(&only, &progress(&[]).request, 200, Some(3), &c) {
        Entry::Object(j) => assert!(j.same(&Json::Object(vec![
            ("client".into(), Json::Text("-".into())),
            ("grpc_status".into(), Json::Number("3".into())),
            ("status".into(), Json::Number("200".into())),
            ("trace_sampled".into(), Json::Bool(true)),
        ]))),
        Entry::Line(_) => panic!(),
    }
    let all = Policy { json: true, ..Policy::default() };
    match access_entry(&all, &progress(&[("referer", "/b?token=1")]).request, 404, None, &c) {
        Entry::Object(j) => {
            assert_eq!(j.as_object().unwrap().len(), 17);
            assert_eq!(j.get_str("referer"), Some("/b?token=[REDACTED]"));
            assert_eq!(j.get_str("route"), Some("_unmatched"));
            assert!(j.field("grpc_status").same(&Json::Null));
        }
        Entry::Line(_) => panic!(),
    }
    assert!(matches!(access_entry(&Policy::default(), &progress(&[]).request, 200, None, &c), Entry::Line(l) if l == line));
    assert_eq!(exported_client(None, "10.0.0.1"), "10.0.0.1");
    assert_eq!(exported_client(Some(&only), "10.0.0.1"), "");
    assert_eq!(target_path("/a?b?c"), "/a");
    assert_eq!(target_path("/a"), "/a");
}

#[test]
fn failures_are_answered_with_the_fields_of_the_route() {
    let r = fail_to_proxy(429, &progress(&[]), None, &vec![]);
    assert_eq!(r.status, 429);
    assert_eq!(text(&r.headers, "retry-after"), "1");
}

#[test]
fn files_are_answered_by_what_was_found() {
    let file = || StaticFile { length: 10, mime: "text/plain".into(), etag: "\"a\"".into(), modified: 1000 };
    let p = progress(&[("range", "bytes=2-4")]);
    match serve_file("/a", &p.request, &p.edits, &Opened::File(file())) {
        FileReply::File(a) => assert_eq!((a.status, a.start, a.length), (206, 2, 3)),
        FileReply::Plain { .. } => panic!(),
    }
    let plain = |o: Opened| match serve_file("/a b", &p.request, &p.edits, &o) {
        FileReply::Plain { status, body, location } => (status, body, location),
        FileReply::File(_) => panic!(),
    };
    assert_eq!(plain(Opened::NotFound), (404, "not found\n", None));
    assert_eq!(plain(Opened::Forbidden), (403, "forbidden\n", None));
    assert_eq!(plain(Opened::Status(410)), (410, "", None));
    assert_eq!(plain(Opened::Directory), (301, "", Some("/a%20b/?a=1".to_string())));
    assert_eq!((next_piece(70000), next_piece(5)), (65536, 5));
    assert_eq!((after_piece(10, 4), after_piece(10, 0)), (Some(6), None));
}

#[test]
fn connections_are_kept_for_whole_seconds() {
    assert_eq!(keepalive_seconds(0), None);
    assert_eq!(keepalive_seconds(1), Some(1));
    assert_eq!(keepalive_seconds(75000), Some(75));
    assert_eq!(keepalive_seconds(75001), Some(76));
}

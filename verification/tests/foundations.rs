use rgnix::backend::{
    hash_value, probe, settle, Balance, Endpoint, HealthCheck, Options, OptionsError, Origin, Pool, Profile,
    Setup,
};
use rgnix::body::{BodyError, BodyPolicy, Inspection};
use rgnix::certificates::{
    chain_digest, dns_match, expiring_soon, matches_name, valid_time, validate_name, CertificateError,
    Names,
};
use rgnix::compression::{negotiated_encoding, prepare, Compression, Encoding};
use rgnix::digest::{digest_text, hex_text};
use rgnix::header::{Field, Headers};
use rgnix::identity::{AccessRule, Forwarding, IdentityError, IdentityPolicy};
use rgnix::json::Json;
use rgnix::model::{tls_host, PathMatch, TlsHost};
use rgnix::net::{network, parse_socket, socket_string, Ip, Socket};
use rgnix::tenancy::namespace_name;
use rgnix::text;
use rgnix::uri;

fn socket(s: &str) -> Socket {
    parse_socket(s).unwrap()
}

fn ip(s: &str) -> Ip {
    socket(s).ip
}

fn headers(v: &[(&str, &str)]) -> Headers {
    Headers {
        fields: v
            .iter()
            .map(|(n, x)| Field { name: n.to_string(), value: x.as_bytes().to_vec() })
            .collect(),
    }
}

#[test]
fn texts_are_split_joined_and_compared() {
    assert_eq!(text::split("a,b,,c", ','), vec!["a", "b", "", "c"]);
    assert_eq!(text::join(&text::split("a,b,,c", ','), ","), "a,b,,c");
    assert_eq!(text::split_once("k=v=w", '='), Some(("k".to_string(), "v=w".to_string())));
    assert_eq!(text::split_once("plain", '='), None);
    assert_eq!(text::split_whitespace("  a \t b\n"), vec!["a", "b"]);
    assert_eq!(text::trim("  x y "), "x y");
    assert_eq!(text::to_lowercase("HeaDer-É"), "header-É");
    assert_eq!(text::parse_u64("18446744073709551615"), Some(u64::MAX));
    assert_eq!(text::parse_u64("18446744073709551616"), None);
    assert_eq!(text::parse_u16("+80"), Some(80));
    assert_eq!(text::decimal_string(0), "0");
    assert_eq!(text::decimal_string(1204), "1204");
    assert_eq!(text::hex_string(255), "ff");
    assert!(text::is_before("a", "b"));
    assert!(text::is_before("a", "aa"));
    assert!(!text::is_before("b", "ab"));
    assert_eq!(text::truncate("aé", 2), "a");
    assert_eq!(text::truncate("aé", 3), "aé");
}

#[test]
fn pairs_are_put_in_the_order_of_their_keys() {
    let mut v: Vec<(String, String)> = vec![];
    text::put_pair(&mut v, "b".into(), "1".into());
    text::put_pair(&mut v, "a".into(), "2".into());
    text::put_pair(&mut v, "b".into(), "3".into());
    assert_eq!(v, vec![("a".to_string(), "2".to_string()), ("b".to_string(), "3".to_string())]);
}

#[test]
fn digests_are_those_of_sha_256() {
    assert_eq!(
        digest_text("abc"),
        "ba7816bf8f01cfea414140de5dae2223b00361a396177a9cb410ff61f20015ad"
    );
    assert_eq!(hex_text(&vec![0, 15, 255]), "000fff");
    assert_eq!(chain_digest(&vec![b"a".to_vec(), b"bc".to_vec()]), digest_text("abc"));
}

#[test]
fn addresses_are_read_and_written() {
    assert_eq!(socket("1.2.3.4:80"), Socket { ip: Ip::V4(0x01020304), scope: 0, port: 80 });
    assert_eq!(socket("[::1]:443"), Socket { ip: Ip::V6(1), scope: 0, port: 443 });
    assert!(parse_socket("1.2.3.4").is_none());
    assert!(parse_socket("::1:80").is_none());
    assert_eq!(socket_string(socket("1.2.3.4:80")), "1.2.3.4:80");
    assert_eq!(socket_string(socket("[::1]:443")), "[::1]:443");
    let n = network("10.0.0.0/8").unwrap();
    assert_eq!((n.address, n.prefix), (Ip::V4(0x0a000000), 8));
    assert_eq!(network("::1").unwrap().prefix, 128);
    assert!(network("10.0.0.0/33").is_none());
}

#[test]
fn targets_are_paths_and_queries() {
    assert_eq!(uri::target("/a?b=c"), Some("/a?b=c".to_string()));
    assert_eq!(uri::target("http://host/a"), Some("/a".to_string()));
    assert_eq!(uri::target("/a b"), None);
}

#[test]
fn namespaces_are_labels() {
    assert!(namespace_name("team-a1"));
    assert!(!namespace_name("-team"));
    assert!(!namespace_name("Team"));
    assert!(!namespace_name(""));
    assert!(!namespace_name(&"a".repeat(64)));
}

#[test]
fn set_fields_have_one_value() {
    let mut h = headers(&[("x-a", "1"), ("x-a", "2"), ("x-b", "3")]);
    assert_eq!(h.all("x-a").len(), 2);
    h.insert("x-a".into(), b"9".to_vec());
    assert_eq!(h.all("x-a"), vec![&b"9".to_vec()]);
    assert_eq!(h.first_text("x-b"), Some("3".to_string()));
    h.remove("x-b");
    assert!(h.first("x-b").is_none());
    h.append("x-a".into(), b"10".to_vec());
    assert_eq!(h.all("x-a").len(), 2);
}

#[test]
fn untrusted_peers_are_the_client() {
    let policy = IdentityPolicy {
        trusted: vec![network("10.0.0.0/8").unwrap()],
        header: "x-forwarded-for".into(),
        recursive: true,
        access: vec![
            AccessRule { network: network("10.9.0.0/16"), allow: false },
            AccessRule { network: None, allow: true },
        ],
    };
    let h = headers(&[("x-forwarded-for", "1.1.1.1, 10.0.0.2")]);
    let peer = ip("192.0.2.1:1");
    assert_eq!(policy.resolve(peer, &h, None), peer);
    assert_eq!(policy.resolve(ip("10.0.0.1:1"), &h, None), ip("1.1.1.1:1"));
    let broken = headers(&[("x-forwarded-for", "1.1.1.1, nobody")]);
    assert_eq!(policy.resolve(ip("10.0.0.1:1"), &broken, None), ip("10.0.0.1:1"));
    assert!(policy.trusts(ip("10.1.2.3:1")));
    assert!(!policy.trusts(peer));
    assert!(!policy.allows(ip("10.9.1.1:1")));
    assert!(policy.allows(peer));
    assert!(policy.validate().is_ok());
    assert_eq!(IdentityPolicy::default().header, "x-real-ip");
}

#[test]
fn proxy_protocol_needs_a_trusted_proxy() {
    let mut f = Forwarding {
        trusted_proxy: vec![],
        real_ip_header: "X-Forwarded-For".into(),
        real_ip_recursive: true,
        proxy_protocol: false,
    };
    let p = f.policy().unwrap();
    assert_eq!(p.header, "x-forwarded-for");
    assert!(p.recursive);
    f.proxy_protocol = true;
    assert_eq!(f.policy().unwrap_err(), IdentityError::ProxyProtocolWithoutTrustedProxy);
    f.trusted_proxy.push(network("10.0.0.1").unwrap());
    assert_eq!(f.policy().unwrap().trusted.len(), 1);
    f.real_ip_header = "bad name".into();
    assert_eq!(f.policy().unwrap_err(), IdentityError::InvalidHeaderName);
    f.trusted_proxy = vec![network("10.0.0.1").unwrap(); 1025];
    assert_eq!(f.policy().unwrap_err(), IdentityError::TooManyRules);
}

#[test]
fn bodies_are_inspected_within_limits() {
    assert_eq!(Inspection::parse("off"), Ok(Inspection::Off));
    assert_eq!(Inspection::parse("full 1k"), Ok(Inspection::Full(1024)));
    assert_eq!(Inspection::parse("some"), Err(BodyError::UnknownMode));
    assert_eq!(Inspection::parse("prefix 1g"), Err(BodyError::SizeOutOfRange));
    assert!(matches!(Inspection::parse("full x"), Err(BodyError::Size(_))));
    let policy = BodyPolicy::default();
    assert!(policy.validate());
    assert!(BodyPolicy::parse_timeout("0s").is_err());
}

#[test]
fn refused_codings_are_not_chosen() {
    let policy = Compression::default();
    let on = Compression { gzip: 1, brotli: 4, ..Compression::default() };
    assert_eq!(negotiated_encoding(&headers(&[("accept-encoding", "gzip, br")]), &on), Some(Encoding::Brotli));
    assert_eq!(
        negotiated_encoding(&headers(&[("accept-encoding", "gzip, br;q=0")]), &on),
        Some(Encoding::Gzip)
    );
    assert_eq!(negotiated_encoding(&headers(&[("accept-encoding", "gzip;q=0")]), &on), None);
    assert_eq!(negotiated_encoding(&headers(&[("accept-encoding", "gzip")]), &policy), None);
    let request = headers(&[("accept-encoding", "gzip")]);
    let response = headers(&[("content-type", "text/html; charset=utf-8"), ("content-length", "9999")]);
    assert_eq!(prepare("GET", &request, 200, &response, &on), Some(Encoding::Gzip));
    assert_eq!(prepare("HEAD", &request, 200, &response, &on), None);
    let small = headers(&[("content-type", "text/html"), ("content-length", "1")]);
    assert_eq!(prepare("GET", &request, 200, &small, &on), None);
}

#[test]
fn certificates_cover_one_label_and_a_time() {
    assert!(dns_match("*.Example.test", "a.example.test"));
    assert!(!dns_match("*.example.test", "a.b.example.test"));
    let names = Names {
        dns: vec!["*.example.test".into()],
        addresses: vec![vec![127, 0, 0, 1]],
        common: vec!["other.test".into()],
    };
    assert!(matches_name(&names, "A.example.test."));
    assert!(!matches_name(&names, "other.test"));
    assert!(matches_name(&names, "127.0.0.1"));
    assert!(matches_name(&names, "_"));
    let common = Names { dns: vec![], addresses: vec![], common: vec!["other.test".into()] };
    assert!(matches_name(&common, "other.test"));
    assert_eq!(validate_name(&names, "other.test"), Err(CertificateError::Name));
    assert_eq!(valid_time(5, 9, 4), Err(CertificateError::NotYetValid));
    assert_eq!(valid_time(5, 9, 5), Ok(()));
    assert_eq!(valid_time(5, 9, 9), Err(CertificateError::Expired));
    assert!(expiring_soon(14 * 86400, 0));
    assert!(!expiring_soon(14 * 86400 + 1, 0));
}

#[test]
fn unavailable_certificates_keep_their_names() {
    let listener = socket("0.0.0.0:443");
    let host = |name: &str, default: bool, certificate: Option<usize>| TlsHost {
        listener,
        name: name.into(),
        ingress: false,
        default,
        certificate,
    };
    let v = vec![host("a.test", false, None), host("*.test", false, Some(0)), host("b.test", true, Some(1))];
    assert_eq!(tls_host(&v, listener, "A.test"), Some(0));
    assert_eq!(tls_host(&v, listener, "c.test"), Some(1));
    assert_eq!(tls_host(&v, listener, "other"), Some(2));
    assert_eq!(tls_host(&v, socket("0.0.0.0:444"), "a.test"), None);
    assert_eq!(PathMatch::Exact("/a".into()).rank(), (2, true));
}

fn options(balance: Balance) -> Options {
    Options { balance, max_inflight: 0, health: None }
}

fn endpoint(s: &str, weight: u32) -> Endpoint {
    Endpoint { address: socket(s), weight }
}

#[test]
fn turns_follow_weights() {
    let mut pool = Pool::new(&vec![endpoint("10.0.0.1:80", 2), endpoint("10.0.0.2:80", 1)], 0);
    let o = options(Balance::RoundRobin);
    let picked: Vec<u16> = (0..6)
        .map(|_| {
            let lease = pool.select(&o, 0, &vec![0, 0]).unwrap();
            pool.release(lease);
            match lease.address.ip {
                Ip::V4(a) => (a & 0xff) as u16,
                Ip::V6(_) => 0,
            }
        })
        .collect();
    assert_eq!(picked, vec![1, 1, 2, 1, 1, 2]);
    assert_eq!(pool.active, 0);
}

#[test]
fn least_loaded_endpoints_are_taken() {
    let mut pool = Pool::new(&vec![endpoint("10.0.0.1:80", 1), endpoint("10.0.0.2:80", 1)], 0);
    let o = options(Balance::LeastConnections);
    let a = pool.select(&o, 0, &vec![0, 0]).unwrap();
    let b = pool.select(&o, 0, &vec![0, 0]).unwrap();
    assert_ne!(a.address, b.address);
    pool.release(b);
    assert_eq!(pool.select(&o, 0, &vec![0, 0]).unwrap().address, b.address);
}

#[test]
fn live_leases_are_counted() {
    let mut pool = Pool::new(&vec![endpoint("10.0.0.1:80", 1), endpoint("10.0.0.2:80", 1)], 0);
    let o = options(Balance::RoundRobin);
    assert_eq!(pool.active, 0);
    let a = pool.select(&o, 0, &vec![0, 0]).unwrap();
    let b = pool.select(&o, 0, &vec![0, 0]).unwrap();
    assert_eq!(pool.active, 2);
    pool.refreshed(&vec![endpoint("10.0.0.3:80", 1)], 5000, 1100);
    let c = pool.select(&o, 1100, &vec![0; pool.members.len()]).unwrap();
    assert_eq!(pool.active, 3);
    pool.release(b);
    pool.release(c);
    assert_eq!(pool.active, 1);
    pool.record_result(c.address, true, 1, 1100, 10);
    pool.release(a);
    assert_eq!(pool.active, 0);
    assert!(pool.members.iter().all(|m| m.active == 0));
}

#[test]
fn failing_endpoints_are_left_out_for_a_while() {
    let mut pool = Pool::new(&vec![endpoint("10.0.0.1:80", 1)], 0);
    let o = options(Balance::RoundRobin);
    let a = socket("10.0.0.1:80");
    assert!(!pool.record_result(a, true, 2, 100, 1000));
    assert!(pool.record_result(a, true, 2, 100, 1000));
    assert!(pool.select(&o, 1099, &vec![0]).is_none());
    assert!(pool.select(&o, 1100, &vec![0]).is_some());
    assert!(!pool.record_result(socket("10.0.0.9:80"), true, 1, 100, 1000));
}

#[test]
fn refreshes_replace_endpoints_and_keep_leases() {
    let mut pool = Pool::new(&vec![endpoint("127.0.0.1:8080", 1)], 0);
    let o = options(Balance::RoundRobin);
    let lease = pool.select(&o, 0, &vec![0]).unwrap();
    assert_eq!(lease.address, socket("127.0.0.1:8080"));
    pool.refreshed(&vec![endpoint("127.0.0.2:8080", 1)], 5000, 1100);
    assert_eq!(pool.select(&o, 1100, &vec![0]).unwrap().address, socket("127.0.0.2:8080"));
    assert_eq!(pool.active, 2);
    assert_eq!(pool.next_dns, 5000);
    let found = settle(&vec![endpoint("127.0.0.2:1", 1), endpoint("127.0.0.1:1", 1), endpoint("127.0.0.2:1", 7)]);
    assert_eq!(found, vec![endpoint("127.0.0.1:1", 1), endpoint("127.0.0.2:1", 7)]);
}

#[test]
fn health_is_checked_when_it_is_due() {
    let health = HealthCheck { path: "/ok".into(), interval: 1000, timeout: 100, status: 200 };
    let o = Options { balance: Balance::RoundRobin, max_inflight: 1, health: Some(health) };
    assert_eq!(o.validate(), Ok(()));
    let mut pool = Pool::new(&vec![endpoint("10.0.0.1:80", 1)], 0);
    assert!(pool.select(&o, 0, &vec![0]).is_none());
    let origins = vec![Origin { host: "name.test".into(), port: 80, weight: 1 }];
    let due = pool.due(&origins, &o, 10);
    assert!(due.resolve && due.check);
    let due = pool.due(&origins, &o, 11);
    assert!(!due.resolve && !due.check);
    let id = pool.members[0].id;
    pool.probed(id, true);
    assert!(pool.select(&o, 11, &vec![0]).is_some());
    assert!(pool.select(&o, 11, &vec![0]).is_none());
    let bad = Options {
        balance: Balance::RoundRobin,
        max_inflight: 0,
        health: Some(HealthCheck { path: "ok".into(), interval: 1000, timeout: 100, status: 200 }),
    };
    assert_eq!(bad.validate(), Err(OptionsError::HealthPath));
    pool.resolution_failed(60_000);
    assert_eq!(pool.members.len(), 1);
    pool.resolution_failed(60_001);
    assert_eq!(pool.members.len(), 0);
}

#[test]
fn hashes_are_of_the_key_and_the_address() {
    let expected = u64::from_str_radix(&digest_text("key\u{0}1.2.3.4:80")[..16], 16).unwrap();
    assert_eq!(hash_value("key", socket("1.2.3.4:80")), expected);
    assert_ne!(hash_value("key", socket("1.2.3.4:81")), expected);
}

#[test]
fn probes_ask_by_name_and_port() {
    let check = HealthCheck { path: "/health".into(), interval: 1000, timeout: 100, status: 200 };
    assert_eq!(probe(false, "name.test", 8080, &check), "http://name.test:8080/health");
    assert_eq!(probe(true, "::1", 443, &check), "https://[::1]:443/health");
}

#[test]
fn backends_stay_while_their_configuration_does() {
    let setup = |tls: bool| Setup {
        endpoints: vec![endpoint("10.0.0.1:80", 1)],
        tls,
        hostname: "a".into(),
        host_header: "a".into(),
        options: options(Balance::Sticky("id".into())),
        origins: vec![Origin { host: "a".into(), port: 80, weight: 1 }],
        ca_pem: None,
        profile: Profile { http2: false, identity: None, server_name: None, ca_pem: None },
    };
    assert!(setup(true).same_config(&setup(true), "k", "k"));
    assert!(!setup(true).same_config(&setup(true), "k", "l"));
    assert!(!setup(true).same_config(&setup(false), "k", "k"));
    let mut dressed = setup(false);
    let profile = Profile {
        http2: true,
        identity: None,
        server_name: Some("b.test".into()),
        ca_pem: Some("pem".into()),
    };
    dressed.dress(true, options(Balance::LeastConnections), profile);
    assert!(dressed.tls && dressed.profile.http2);
    assert_eq!((dressed.hostname.as_str(), dressed.host_header.as_str()), ("b.test", "a"));
    assert_eq!(dressed.ca_pem.as_deref(), Some("pem"));
    assert!(matches!(dressed.options.balance, Balance::LeastConnections));
}

#[test]
fn json_values_are_read_and_compared() {
    let j = Json::Object(vec![
        ("a".into(), Json::Text("x".into())),
        ("n".into(), Json::Number("12".into())),
        ("v".into(), Json::List(vec![Json::Bool(true)])),
    ]);
    assert_eq!(j.get_str("a"), Some("x"));
    assert_eq!(j.field("n").as_u64(), Some(12));
    assert_eq!(Json::Number("1.5".into()).as_u64(), None);
    assert_eq!(Json::Number("-1".into()).as_u64(), None);
    assert_eq!(j.text("b", "none"), "none");
    assert_eq!(j.get_array("v").unwrap().len(), 1);
    assert!(j.same(&j.copy()));
    assert!(!j.same(&Json::Null));
    let turned = Json::Object(vec![
        ("v".into(), Json::List(vec![Json::Bool(true)])),
        ("a".into(), Json::Text("x".into())),
        ("n".into(), Json::Number("12".into())),
    ]);
    assert!(j.same(&turned) && turned.same(&j));
    let fewer = Json::Object(vec![("a".into(), Json::Text("x".into()))]);
    assert!(!j.same(&fewer) && !fewer.same(&j));
    let list = |a: bool, b: bool| Json::List(vec![Json::Bool(a), Json::Bool(b)]);
    assert!(list(true, false).same(&list(true, false)) && !list(true, false).same(&list(false, true)));
}

use rgnix::header::{Field, Headers};
use rgnix::otlp::config::{number, pairs, Environment, Options, OtlpError, Signal};
use rgnix::otlp::export;
use rgnix::otlp::export::{Answer, Attempt, Head, Loss, Next};
use rgnix::otlp::propagation::{extract, tracestate, valid_key};
use rgnix::otlp::record::{push_text, AccessRecord, Attribute, Severity, Value};
use rgnix::otlp::trace::{clamp, grpc_error, hex, known_method, now, random_id, usable_id, Draw, Ending, Trace};

const PARENT: &str = "00-0af7651916cd43dd8448eb211c80319c-b7ad6b7169203331-01";

fn headers(v: &[(&str, &str)]) -> Headers {
    Headers {
        fields: v
            .iter()
            .map(|(n, x)| Field { name: n.to_string(), value: x.as_bytes().to_vec() })
            .collect(),
    }
}

fn draw() -> Draw {
    Draw { trace_id: vec![1; 16], span_id: vec![2; 8], sampled: true }
}

#[test]
fn injected_parents_are_extracted() {
    let c = extract(&headers(&[("traceparent", PARENT), ("tracestate", "a=1, b=2")])).unwrap();
    assert!(c.sampled);
    assert_eq!(hex(&c.trace), "0af7651916cd43dd8448eb211c80319c");
    assert_eq!(hex(&c.parent), "b7ad6b7169203331");
    let t = Trace::new(Some(c), true, draw(), 5).unwrap();
    let span = t.client("GET", "backend", "primary", vec![7; 8], 6);
    let mut h = headers(&[("traceparent", "old")]);
    span.inject(&mut h);
    let again = extract(&h).unwrap();
    assert_eq!(hex(&again.trace), "0af7651916cd43dd8448eb211c80319c");
    assert_eq!(hex(&again.parent), "0707070707070707");
    assert_eq!(again.state, "a=1,b=2");
    assert_eq!(span.id(), "0707070707070707");
}

#[test]
fn broken_parents_are_left_out() {
    for bad in [
        "",
        "00-00000000000000000000000000000000-b7ad6b7169203331-01",
        "00-0af7651916cd43dd8448eb211c80319c-0000000000000000-01",
        "ff-0af7651916cd43dd8448eb211c80319c-b7ad6b7169203331-01",
        "00-0AF7651916CD43DD8448EB211C80319C-b7ad6b7169203331-01",
        "00-0af7651916cd43dd8448eb211c80319c-b7ad6b7169203331-01-x",
    ] {
        assert!(extract(&headers(&[("traceparent", bad)])).is_none(), "{}", bad);
    }
    assert!(extract(&headers(&[("traceparent", PARENT), ("traceparent", PARENT)])).is_none());
}

#[test]
fn foreign_traces_pass() {
    let c = extract(&headers(&[("traceparent", PARENT)])).unwrap();
    let t = Trace::new(Some(c), false, draw(), 5).unwrap();
    let mut h = headers(&[]);
    t.client("GET", "b", "primary", vec![7; 8], 6).inject(&mut h);
    assert_eq!(h.first_text("traceparent"), Some(PARENT.to_string()));
    assert!(Trace::new(None, false, draw(), 5).is_none());
}

#[test]
fn trace_states_are_bounded() {
    assert_eq!(tracestate(&headers(&[("tracestate", "a=1"), ("tracestate", "b=2")])), "a=1,b=2");
    let long = (0..100).map(|i| format!("k{}=v", i)).collect::<Vec<String>>().join(",");
    assert!(tracestate(&headers(&[("tracestate", &long)])).split(',').count() <= 32);
    assert!(valid_key("a-b") && !valid_key("A") && !valid_key(""));
}

#[test]
fn spans_end_after_they_start() {
    let t = Trace::new(None, true, draw(), 100).unwrap();
    let e = Ending { route: "r", path: Some("/a"), method: "GET", status: 200, grpc: None, error: None, now: 50 };
    let s = t.export(&e).unwrap();
    assert_eq!((s.start, s.end), (100, 100));
    assert_eq!(s.name, "GET /a");
    assert!(!s.failed && s.parent_span_id.is_empty());
    let s = t.export(&Ending { status: 503, now: 200, ..e }).unwrap();
    assert!(s.failed && s.end == 200);
    let unsampled = Trace::new(None, true, Draw { sampled: false, ..draw() }, 1).unwrap();
    assert!(unsampled.export(&Ending {
        route: "r",
        path: None,
        method: "GET",
        status: 200,
        grpc: None,
        error: None,
        now: 5
    })
    .is_none());
    let c = t.client("ODD", "b", "mirror", vec![7; 8], 10).export(Some("upstream"), None, 20).unwrap();
    assert!(c.failed);
    assert_eq!(known_method("ODD"), "_OTHER");
    assert!(usable_id(&vec![0, 1]) && !usable_id(&vec![0, 0]));
    let drawn = (0..64).find_map(|_| random_id(16)).unwrap();
    assert!(drawn.len() == 16 && usable_id(&drawn));
    assert_ne!(drawn, (0..64).find_map(|_| random_id(16)).unwrap());
    assert!(random_id(0).is_none());
    assert_eq!(clamp(u128::MAX), u64::MAX);
    assert!(now() > 1_600_000_000_000_000_000);
    assert!(grpc_error(Some(0)).is_none() && grpc_error(Some(2)).is_some());
}

fn env(v: &[(&str, &str)]) -> Environment {
    Environment { entries: v.iter().map(|(a, b)| (a.to_string(), Some(b.to_string()))).collect() }
}

fn options(url: Option<&str>) -> Options {
    Options { otlp_logs_endpoint: url.map(|s| s.to_string()), otlp_traces_endpoint: None }
}

#[test]
fn exports_are_configured() {
    let none = env(&[]);
    assert!(options(None).configure(&none, Signal::Logs, "1").map_err(|_| ()).unwrap().is_none());
    let c = options(Some("http://collector:4318/v1/logs")).configure(&none, Signal::Logs, "1");
    let c = match c {
        Ok(Some(c)) => c,
        _ => panic!("not configured"),
    };
    assert_eq!(c.endpoint, "http://collector:4318/v1/logs");
    let base = env(&[
        ("OTEL_EXPORTER_OTLP_ENDPOINT", "http://collector:4318/base/"),
        ("OTEL_TRACES_EXPORTER", "otlp"),
    ]);
    let told = |signal: Signal| match options(None).configure(&base, signal, "1") {
        Ok(Some(c)) => c.endpoint,
        _ => panic!("not configured"),
    };
    assert_eq!(told(Signal::Logs), "http://collector:4318/base/v1/logs");
    assert_eq!(told(Signal::Traces), "http://collector:4318/base/v1/traces");
    assert!(c.batch_size <= c.capacity);
    assert!(c.resource.iter().any(|(k, _)| k == "service.name"));
    let broken = options(Some("nowhere")).configure(&none, Signal::Logs, "1");
    assert!(matches!(broken, Err(OtlpError::InvalidEndpoint)));
    assert!(env(&[("A", "1")]).variable("A").unwrap() == Some("1".to_string()));
    let bytes = Environment { entries: vec![("A".into(), None)] };
    assert!(matches!(bytes.variable("A"), Err(OtlpError::NotUtf8(_))));
}

#[test]
fn settings_are_bounded() {
    assert!(matches!(number(&Some("5".into()), "N", 1, 1, 10), Ok(5)));
    assert!(matches!(number(&None, "N", 1, 1, 10), Ok(1)));
    assert!(matches!(number(&Some("x".into()), "N", 1, 1, 10), Err(OtlpError::NotInteger(_))));
    assert!(matches!(number(&Some("11".into()), "N", 1, 1, 10), Err(OtlpError::OutOfRange(_))));
    let p = pairs(&Some("a=1,b=%20x".into()), 4).unwrap();
    assert_eq!(p[0], ("a".to_string(), "1".to_string()));
    assert_eq!(p[1], ("b".to_string(), " x".to_string()));
    assert!(matches!(pairs(&Some("a".into()), 4), Err(OtlpError::NoPair)));
    assert!(matches!(pairs(&Some("a=%ff".into()), 4), Err(OtlpError::PairNotUtf8)));
    assert!(matches!(pairs(&Some("a=12345".into()), 4), Err(OtlpError::PairTooLong)));
    assert!(matches!(pairs(&Some(vec!["a=1"; 33].join(",")), 4), Err(OtlpError::TooManyPairs)));
}

#[test]
fn attempts_end() {
    assert_eq!(export::next(0, Attempt::Retry(None), 7), Next::Again(207));
    assert_eq!(export::next(1, Attempt::Retry(None), 7), Next::Again(407));
    assert_eq!(export::next(0, Attempt::Retry(Some(5)), 7), Next::Again(5));
    assert_eq!(export::next(100, Attempt::Retry(None), 7), Next::GivenUp);
    assert_eq!(export::next(0, Attempt::Failed, 7), Next::GivenUp);
    assert_eq!(export::conclude(None, 3), Attempt::Failed);
    assert_eq!(export::conclude(Some(Some(2)), 3), Attempt::Accepted { rejected: 2, partial: true });
    assert_eq!(export::conclude(Some(Some(4)), 3), Attempt::Failed);
    assert_eq!(export::conclude_body(&vec![], 3), Attempt::Accepted { rejected: 0, partial: false });
    assert_eq!(export::conclude_body(&vec![10, 2, 8, 2], 3), Attempt::Accepted { rejected: 2, partial: true });
    assert_eq!(export::conclude_body(&vec![10, 2, 8, 4], 3), Attempt::Failed);
    assert_eq!(export::conclude_body(&vec![255], 3), Attempt::Failed);
    let s = export::settle(3, Some(1));
    assert_eq!((s.exported, s.lost), (2, 1));
    let s = export::settle(3, None);
    assert_eq!((s.exported, s.lost), (0, 3));
}

#[test]
fn answers_are_read() {
    let head = |status: u16, retry: Option<&str>, kind: &str| Head {
        status,
        retry_after: retry.map(|s| s.as_bytes().to_vec()),
        content_type: Some(kind.as_bytes().to_vec()),
        content_length: None,
    };
    assert_eq!(export::answer(&head(200, None, "application/x-protobuf"), 0), Answer::Body);
    assert_eq!(export::answer(&head(200, None, "text/html"), 0), Answer::Failed);
    assert_eq!(export::answer(&head(500, None, "application/x-protobuf"), 0), Answer::Failed);
    assert_eq!(export::answer(&head(503, None, ""), 0), Answer::Retry(None));
    assert!(matches!(export::answer(&head(429, Some("2"), ""), 0), Answer::Retry(Some(n)) if n > 0));
    let date = "Sun, 06 Nov 1994 08:49:37 GMT";
    assert_eq!(export::answer(&head(429, Some(date), ""), 784111778), Answer::Retry(Some(0)));
    assert!(matches!(
        export::answer(&head(429, Some(date), ""), 784111776),
        Answer::Retry(Some(n)) if n > 0
    ));
    assert_eq!(export::accept(usize::MAX, true, true), Err(Loss::TooLarge));
    assert_eq!(export::accept(1, false, true), Err(Loss::Shutdown));
    assert_eq!(export::accept(1, true, false), Err(Loss::QueueFull));
    assert_eq!(export::accept(1, true, true), Ok(()));
    assert!(export::waits(0, 0, 10) && !export::waits(10, 0, 10));
}

#[test]
fn records_name_their_service() {
    let r = AccessRecord {
        method: "GET",
        path: "/a",
        host: "example.test",
        client: "1.2.3.4",
        protocol_version: "1.1",
        tls: false,
        status: 500,
        response_bytes: 5,
        duration: 7,
        route: "r",
        backend: Some("b"),
        upstream: None,
        config_hash: "h",
        config_version: 3,
        error_source: None,
    };
    let log = r.into_log();
    assert_eq!(log.severity, Severity::Error);
    assert!(log.attributes.iter().any(|a| matches!(&a.value, Value::Text(s) if s == "GET")));
    assert!(log.attributes.iter().any(|a| matches!(&a.value, Value::Number(500))));
    let mut v: Vec<Attribute> = vec![];
    push_text(&mut v, "k", &"x".repeat(1 << 20));
    assert!(matches!(&v[0].value, Value::Text(s) if s.len() < 1 << 20));
}

use rgnix::logging::access::{escape, Policy, PolicyError, Record};
use rgnix::logging::output::{closes_all, configure, told, Destination, ErrorOutput, Level, Switch};
use rgnix::logging::rotation::{
    act, archive_path, next_sequence, prune, sequence, Act, Due, FileSink, Found, Rotation, RotationError,
};

fn record() -> Record {
    Record {
        timestamp: "now".into(),
        client: "1.2.3.4".into(),
        method: "GET".into(),
        uri: "/a?token=x&b=1".into(),
        protocol: "HTTP/1.1".into(),
        status: "200".into(),
        bytes: "5".into(),
        referer: "-".into(),
        user_agent: "a\"b\n".into(),
        route: "r".into(),
        backend: "b".into(),
        upstream: "u".into(),
        config: "c".into(),
        trace_id: "-".into(),
        span_id: "-".into(),
        parent_span_id: "-".into(),
        upstream_span_id: "-".into(),
        trace_sampled: "-".into(),
    }
}

#[test]
fn redacted_values_are_not_shown() {
    let p = Policy::default();
    assert_eq!(p.uri("/a?token=x&b=1"), "/a?token=[REDACTED]&b=1");
    assert_eq!(p.uri("/a?%74oken=x"), "/a?%74oken=[REDACTED]");
    assert_eq!(p.uri("/a?TOKEN=x"), "/a?TOKEN=[REDACTED]");
    assert_eq!(p.uri("/a"), "/a");
    let hidden = Policy { query: false, ..Policy::default() };
    assert_eq!(hidden.uri("/a?b=1"), "/a");
}

#[test]
fn escaped_text_stays_in_its_quotes() {
    let e = escape("a\"b\\c\n");
    assert!(e.starts_with("a\\\"b\\\\c"));
    assert!(!e.contains('\n'));
    let line = Policy::default().render(&record());
    assert!(line.starts_with("1.2.3.4 - - [now] \"GET /a?token=[REDACTED]&b=1 HTTP/1.1\" 200 "));
    assert!(!line.contains('\n'));
    let hidden = Policy { client: false, ..Policy::default() };
    assert!(hidden.render(&record()).starts_with("- - - [now]"));
}

#[test]
fn policies_are_bounded() {
    let p = Policy { fields: vec!["status".into()], ..Policy::default() };
    assert_eq!(p.validate_fields(), Ok(()));
    assert!(p.shows("status"));
    let p = Policy { fields: vec!["weather".into()], ..Policy::default() };
    assert_eq!(p.validate_fields(), Err(PolicyError::UnsupportedField));
    let p = Policy { redact: vec![String::new()], ..Policy::default() };
    assert_eq!(p.validate_fields(), Err(PolicyError::InvalidRedaction));
}

#[test]
fn levels_choose_the_output() {
    assert_eq!(Level::parse("info"), Some(Level::Info));
    assert_eq!(Level::parse("loud"), None);
    assert!(Level::Error.rank() < Level::Debug.rank());
    let mut s = Switch { output: None, files: true };
    assert_eq!(s.destination(Level::Error), Destination::Default);
    assert!(s.enabled(Level::Trace, true) && !s.enabled(Level::Trace, false));
    configure(&mut s, ErrorOutput::open("stderr", "warn"));
    assert_eq!(s.output.as_ref().unwrap().path, "/dev/stderr");
    assert_eq!(s.destination(Level::Error), Destination::File);
    assert_eq!(s.destination(Level::Info), Destination::Nowhere);
    assert!(!s.enabled(Level::Info, true));
    assert!(ErrorOutput::open("x", "loud").is_none());
    assert!(told(None) && !told(Some(0)));
    assert!(!closes_all(0) && closes_all(usize::MAX));
}

fn rotation(v: &[&str]) -> Result<Rotation, RotationError> {
    Rotation::parse(&v.iter().map(|s| s.to_string()).collect())
}

#[test]
fn rotations_are_read() {
    let r = rotation(&["size=1m", "interval=1h", "keep=3", "gzip=on"]).unwrap();
    assert_eq!(r, Rotation { max_bytes: 1048576, interval_seconds: 3600, keep: 3, gzip: true });
    assert!(r.enabled() && !Rotation::default().enabled());
    assert_eq!(rotation(&[]), Err(RotationError::Missing));
    assert_eq!(rotation(&["size"]), Err(RotationError::NotAPair));
    assert_eq!(rotation(&["size=1k", "size=2k"]), Err(RotationError::Duplicate));
    assert!(matches!(rotation(&["size=x"]), Err(RotationError::Size(_))));
    assert_eq!(rotation(&["size=0"]), Err(RotationError::SizeRange));
    assert_eq!(rotation(&["interval=xs"]), Err(RotationError::Interval));
    assert_eq!(rotation(&["interval=5"]).unwrap().interval_seconds, 5);
    assert_eq!(rotation(&["interval=0s"]), Err(RotationError::IntervalRange));
    assert_eq!(rotation(&["keep=x"]), Err(RotationError::Keep));
    assert_eq!(rotation(&["keep=0"]), Err(RotationError::KeepRange));
    assert_eq!(rotation(&["gzip=yes"]), Err(RotationError::Gzip));
    assert_eq!(rotation(&["odd=1"]), Err(RotationError::Unknown));
    assert_eq!(rotation(&["keep=3"]), Err(RotationError::NeverDue));
}

#[test]
fn files_are_archived_when_they_are_due() {
    let policy = Rotation { max_bytes: 100, interval_seconds: 60, keep: 2, gzip: false };
    let mut sink = FileSink { period: policy.period(120), policy };
    assert_eq!(sink.period, 2);
    assert_eq!(sink.due(true, 90, 10, 121), Due::No);
    assert_eq!(sink.due(true, 90, 11, 121), Due::Yes);
    assert_eq!(sink.due(true, 90, 1, 180), Due::Yes);
    assert_eq!(sink.due(true, 0, 1000, 180), Due::Begun);
    assert_eq!(sink.due(false, 90, 1000, 180), Due::No);
    sink.begin(180);
    assert_eq!(sink.due(true, 90, 1, 181), Due::No);
    sink.set_policy(Rotation { max_bytes: 1, ..policy }, 240);
    assert_eq!(sink.period, 4);
    assert_eq!(act(Found::Special), Act::Nothing);
    assert_eq!(act(Found::Other), Act::Reopen);
    assert_eq!(act(Found::Same), Act::Archive);
}

#[test]
fn archives_keep_their_numbers() {
    let path = archive_path("/var/log/a.log", 7);
    assert_eq!(path, "/var/log/a.log.rgnix.00000000000000000007");
    assert_eq!(sequence("a.log", "a.log.rgnix.00000000000000000007"), Some(7));
    assert_eq!(sequence("a.log", "b.log.rgnix.00000000000000000007"), None);
    assert_eq!(next_sequence(None), Some(1));
    assert_eq!(next_sequence(Some(7)), Some(8));
    assert_eq!(next_sequence(Some(u64::MAX)), None);
    let v = vec![(3, "c".to_string()), (1, "a".to_string()), (2, "b".to_string())];
    assert_eq!(prune(&v, 1), vec!["a", "b"]);
    assert!(prune(&v, 3).is_empty());
}

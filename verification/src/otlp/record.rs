//! What is exported of a request that is over. No query, no body and no credentials are.
use crate::text;
use vstd::prelude::*;

verus! {

/// The longest path that is exported, in bytes.
pub const MAX_PATH: usize = 4096;

/// The longest other text that is exported, in bytes.
pub const MAX_TEXT: usize = 1024;

/// The value of an attribute; a time is in nanoseconds.
#[derive(Debug)]
pub enum Value {
    Text(String),
    Number(i64),
    Time(u64),
}

#[derive(Debug)]
pub struct Attribute {
    pub key: &'static str,
    pub value: Value,
}

/// What a `Value` holds.
#[verifier::ext_equal]
pub ghost enum Datum {
    Text(Seq<char>),
    Number(int),
    Time(int),
}

impl View for Value {
    type V = Datum;

    open spec fn view(&self) -> Datum {
        match self {
            Value::Text(s) => Datum::Text(s@),
            Value::Number(n) => Datum::Number(*n as int),
            Value::Time(n) => Datum::Time(*n as int),
        }
    }
}

pub open spec fn data(v: Seq<Attribute>) -> Seq<(Seq<char>, Datum)> {
    Seq::new(v.len(), |i: int| (v[i].key@, v[i].value@))
}

/// How long a text may be, by what it is.
pub open spec fn limit_for(key: Seq<char>) -> nat {
    if key == "url.path"@ {
        MAX_PATH as nat
    } else {
        MAX_TEXT as nat
    }
}

pub open spec fn text_datum(key: Seq<char>, value: Seq<char>) -> (Seq<char>, Datum) {
    (key, Datum::Text(text::truncated(value, limit_for(key))))
}

/// Adds a text, cut where it is too long.
pub fn push_text(v: &mut Vec<Attribute>, key: &'static str, value: &str)
    ensures
        data(final(v)@) == data(old(v)@).push(text_datum(key@, value@)),
{
    let ghost before = data(v@);
    let limit: usize = if text::same(key, "url.path") {
        MAX_PATH
    } else {
        MAX_TEXT
    };
    let a = Attribute { key, value: Value::Text(text::truncate(value, limit)) };
    let ghost x = (a.key@, a.value@);
    v.push(a);
    assert(data(v@) =~= before.push(x));
}

pub fn push_number(v: &mut Vec<Attribute>, key: &'static str, n: i64)
    ensures
        data(final(v)@) == data(old(v)@).push((key@, Datum::Number(n as int))),
{
    let ghost before = data(v@);
    let a = Attribute { key, value: Value::Number(n) };
    let ghost x = (a.key@, a.value@);
    v.push(a);
    assert(data(v@) =~= before.push(x));
}

fn push_time(v: &mut Vec<Attribute>, key: &'static str, n: u64)
    ensures
        data(final(v)@) == data(old(v)@).push((key@, Datum::Time(n as int))),
{
    let ghost before = data(v@);
    let a = Attribute { key, value: Value::Time(n) };
    let ghost x = (a.key@, a.value@);
    v.push(a);
    assert(data(v@) =~= before.push(x));
}

/// A request that is over.
#[derive(Debug)]
pub struct AccessRecord<'a> {
    pub method: &'a str,
    pub path: &'a str,
    pub host: &'a str,
    pub client: &'a str,
    pub protocol_version: &'a str,
    pub tls: bool,
    pub status: u16,
    pub response_bytes: u64,
    /// How long it took, in nanoseconds.
    pub duration: u64,
    pub route: &'a str,
    pub backend: Option<&'a str>,
    pub upstream: Option<&'a str>,
    pub config_hash: &'a str,
    pub config_version: u64,
    pub error_source: Option<&'a str>,
}

#[derive(Clone, Copy, Debug, PartialEq, Eq, Structural)]
pub enum Severity {
    Info,
    Warn,
    Error,
}

impl Severity {
    pub open spec fn spec_text(self) -> Seq<char> {
        match self {
            Severity::Error => "ERROR"@,
            Severity::Warn => "WARN"@,
            Severity::Info => "INFO"@,
        }
    }

    pub fn text(&self) -> (r: &'static str)
        ensures
            r@ == self.spec_text(),
    {
        match self {
            Severity::Error => "ERROR",
            Severity::Warn => "WARN",
            Severity::Info => "INFO",
        }
    }
}

/// What is exported of a request.
#[derive(Debug)]
pub struct Log {
    pub severity: Severity,
    pub attributes: Vec<Attribute>,
}

pub open spec fn severity_of(status: u16, failed: bool) -> Severity {
    if status >= 500 || failed {
        Severity::Error
    } else if status >= 400 {
        Severity::Warn
    } else {
        Severity::Info
    }
}

/// A number, or the greatest that can be exported.
pub open spec fn capped(n: u64) -> int {
    if n <= i64::MAX {
        n as int
    } else {
        i64::MAX as int
    }
}

fn cap(n: u64) -> (r: i64)
    ensures
        r == capped(n),
{
    if n <= i64::MAX as u64 {
        n as i64
    } else {
        i64::MAX
    }
}

impl<'a> AccessRecord<'a> {
    /// The attributes that every request has.
    pub open spec fn usual(&self) -> Seq<(Seq<char>, Datum)> {
        seq![
            text_datum("http.request.method"@, self.method@),
            text_datum("url.path"@, self.path@),
            text_datum(
                "url.scheme"@,
                if self.tls {
                    "https"@
                } else {
                    "http"@
                },
            ),
            text_datum("server.address"@, self.host@),
            text_datum("client.address"@, self.client@),
            text_datum("network.protocol.name"@, "http"@),
            text_datum("network.protocol.version"@, self.protocol_version@),
            ("http.response.status_code"@, Datum::Number(self.status as int)),
            ("http.response.body.size"@, Datum::Number(capped(self.response_bytes))),
            ("rgnix.request.duration_ms"@, Datum::Time(self.duration as int)),
            text_datum("rgnix.route.id"@, self.route@),
            text_datum("rgnix.config.sha256"@, self.config_hash@),
            ("rgnix.config.version"@, Datum::Number(capped(self.config_version))),
        ]
    }

    /// All attributes of the request.
    pub open spec fn attributes_of(&self) -> Seq<(Seq<char>, Datum)> {
        let a = match self.backend {
            Some(s) => self.usual().push(text_datum("rgnix.upstream.name"@, s@)),
            None => self.usual(),
        };
        let b = match self.upstream {
            Some(s) => a.push(text_datum("rgnix.upstream.address"@, s@)),
            None => a,
        };
        match self.error_source {
            Some(s) => b.push(text_datum("rgnix.error.source"@, s@)),
            None => b,
        }
    }

    /// What is exported of the request.
    pub fn into_log(&self) -> (r: Log)
        ensures
            data(r.attributes@) == self.attributes_of(),
            r.severity == severity_of(self.status, self.error_source is Some),
    {
        let mut v: Vec<Attribute> = Vec::new();
        push_text(&mut v, "http.request.method", self.method);
        push_text(&mut v, "url.path", self.path);
        push_text(
            &mut v,
            "url.scheme",
            if self.tls {
                "https"
            } else {
                "http"
            },
        );
        push_text(&mut v, "server.address", self.host);
        push_text(&mut v, "client.address", self.client);
        push_text(&mut v, "network.protocol.name", "http");
        push_text(&mut v, "network.protocol.version", self.protocol_version);
        push_number(&mut v, "http.response.status_code", self.status as i64);
        push_number(&mut v, "http.response.body.size", cap(self.response_bytes));
        push_time(&mut v, "rgnix.request.duration_ms", self.duration);
        push_text(&mut v, "rgnix.route.id", self.route);
        push_text(&mut v, "rgnix.config.sha256", self.config_hash);
        push_number(&mut v, "rgnix.config.version", cap(self.config_version));
        assert(data(v@) =~= self.usual());
        if let Some(s) = self.backend {
            push_text(&mut v, "rgnix.upstream.name", s);
        }
        if let Some(s) = self.upstream {
            push_text(&mut v, "rgnix.upstream.address", s);
        }
        if let Some(s) = self.error_source {
            push_text(&mut v, "rgnix.error.source", s);
        }
        let severity = if self.status >= 500 || self.error_source.is_some() {
            Severity::Error
        } else if self.status >= 400 {
            Severity::Warn
        } else {
            Severity::Info
        };
        Log { severity, attributes: v }
    }
}

// ---------------------------------------------------------------------------
// Laws
// ---------------------------------------------------------------------------

proof fn lemma_truncated_fits(s: Seq<char>, limit: nat)
    ensures
        text::byte_len(text::truncated(s, limit)) <= limit,
        text::truncated(s, limit).is_prefix_of(s),
    decreases s.len(),
{
    if s.len() == 0 {
        assert(vstd::utf8::encode_utf8(s).len() == 0);
    } else if text::byte_len(s) > limit {
        lemma_truncated_fits(s.drop_last(), limit);
    }
}

/// A text that is exported fits, and is the beginning of what it stands for.
pub proof fn law_texts_fit(key: Seq<char>, value: Seq<char>)
    ensures
        text::byte_len(text_datum(key, value).1->Text_0) <= limit_for(key),
        text_datum(key, value).1->Text_0.is_prefix_of(value),
{
    lemma_truncated_fits(value, limit_for(key));
}

/// A fault of the server is an error, one of the client a warning.
pub proof fn law_severities_follow_the_status(status: u16)
    ensures
        status >= 500 ==> severity_of(status, false) == Severity::Error,
        400 <= status < 500 ==> severity_of(status, false) == Severity::Warn,
        status < 400 ==> severity_of(status, false) == Severity::Info,
        severity_of(status, true) == Severity::Error,
{
}

/// A record holds what is known of the request, each under its name.
pub proof fn law_records_name_what_they_hold<'a>(r: AccessRecord<'a>, s: Seq<char>)
    ensures
        ({
            let v = r.usual();
            &&& v.len() == 13
            &&& v[0] == text_datum("http.request.method"@, r.method@)
            &&& v[1] == text_datum("url.path"@, r.path@)
            &&& r.tls ==> v[2] == text_datum("url.scheme"@, "https"@)
            &&& !r.tls ==> v[2] == text_datum("url.scheme"@, "http"@)
            &&& v[3] == text_datum("server.address"@, r.host@)
            &&& v[4] == text_datum("client.address"@, r.client@)
            &&& v[7] == ("http.response.status_code"@, Datum::Number(r.status as int))
            &&& v[9] == ("rgnix.request.duration_ms"@, Datum::Time(r.duration as int))
            &&& v[10] == text_datum("rgnix.route.id"@, r.route@)
            &&& v[11] == text_datum("rgnix.config.sha256"@, r.config_hash@)
            &&& r.backend is None && r.upstream is None && r.error_source is None ==> r.attributes_of() == v
        }),
        text::byte_len(s) <= 1024 ==> text_datum("server.address"@, s) == ("server.address"@, Datum::Text(s)),
        text::byte_len(s) <= 4096 ==> text_datum("url.path"@, s) == ("url.path"@, Datum::Text(s)),
{
    reveal_strlit("server.address");
    reveal_strlit("url.path");
    assert("server.address"@.len() != "url.path"@.len());
}

} // verus!

//! What the annotations of an Ingress set.
use crate::backend::{rules_checked, Balance, Check, HealthCheck, Options, OptionsError, Rules, Spread};
use crate::body::{BodyError, BodyPolicy};
use crate::config::settings::{default_values, Settings, Values};
use crate::config::value;
use crate::config::value::{duration_of, size_of, ValueError};
use crate::header;
use crate::identity::{AccessRule, IdentityError};
use crate::logging::access::{fields_checked, PolicyError as LogError};
use crate::net;
use crate::net::{network_of, Network};
use crate::text;
use vstd::prelude::*;

verus! {

/// The longest annotation that is read, in bytes.
pub const MAX_ANNOTATION: usize = 8192;

/// The largest limit of a body: 1 TiB.
pub const MAX_BODY: u64 = 1099511627776;

/// The longest timeout, in milliseconds: a day.
pub const MAX_TIMEOUT: u64 = 86400000;

/// The longest timeout of an authorization, in milliseconds.
pub const MAX_AUTH_TIMEOUT: u64 = 30000;

#[derive(Clone, Copy, Debug, PartialEq, Eq, Structural)]
pub enum PolicyError {
    TooLong,
    Body(BodyError),
    TrafficPolicy,
    AuthService,
    Value(ValueError),
    BodyLimit,
    Timeout,
    LogFormat,
    Switch,
    LogFields(LogError),
    SslRedirect,
    AccessLog,
    BackendProtocol,
    HttpVersion,
    ServerName,
    SecretName,
    TokenParty,
    TokenAlgorithm,
    VerifyClient,
    AuthTimeout,
    AuthHeaders,
    Balance,
    Key,
    CookieName,
    Number,
    EmptyLimit,
    LimitOption,
    BurstWithoutRate,
    Network,
    Compression,
    Unsupported,
    HttpsPort,
    Limits,
    Identity(IdentityError),
    Options(OptionsError),
    TokenIncomplete,
    VerifyWithoutAuthority,
    GrpcVersion,
}

/// Whether clients have to show a certificate.
#[derive(Clone, Copy, Debug, PartialEq, Eq, Structural)]
pub enum Verify {
    Off,
    Optional,
    Required,
}

/// A limit on requests: so many in a second, or at once, for each value of a key.
#[derive(Debug)]
pub struct Limit {
    pub limit: u32,
    pub burst: u32,
    pub key: String,
}

/// What a `Limit` holds.
#[verifier::ext_equal]
pub ghost struct Cap {
    pub limit: u32,
    pub burst: u32,
    pub key: Seq<char>,
}

impl View for Limit {
    type V = Cap;

    open spec fn view(&self) -> Cap {
        Cap { limit: self.limit, burst: self.burst, key: self.key@ }
    }
}

pub open spec fn cap(l: Option<Limit>) -> Option<Cap> {
    match l {
        Some(l) => Some(l@),
        None => None,
    }
}

/// What the annotations of an Ingress set.
#[derive(Debug)]
pub struct Annotated {
    pub settings: Settings,
    pub upstream: Options,
    pub tls: bool,
    /// Whether backends are asked over HTTP/2 only.
    pub http2: bool,
    pub server_name: Option<String>,
    pub rate: Option<Limit>,
    pub concurrency: Option<Limit>,
    pub verify: Verify,
}

/// What an `Annotated` holds.
#[verifier::ext_equal]
pub ghost struct Draft {
    pub settings: Values,
    pub upstream: Rules,
    pub tls: bool,
    pub http2: bool,
    pub server_name: Option<Seq<char>>,
    pub rate: Option<Cap>,
    pub concurrency: Option<Cap>,
    pub verify: Verify,
}

impl View for Annotated {
    type V = Draft;

    open spec fn view(&self) -> Draft {
        Draft {
            settings: self.settings@,
            upstream: self.upstream@,
            tls: self.tls,
            http2: self.http2,
            server_name: text::opt(self.server_name),
            rate: cap(self.rate),
            concurrency: cap(self.concurrency),
            verify: self.verify,
        }
    }
}

/// What is read of the annotations elsewhere.
pub struct Readings {
    /// The services of the traffic policy, where it is one.
    pub services: Option<Vec<String>>,
    /// Whether the version that backends are asked with is HTTP/2, where it is a version.
    pub http2: Option<bool>,
    /// Whether the fields that the authentication service may set are accepted.
    pub headers: bool,
    /// Whether the limits on rate and on requests at a time are accepted.
    pub limits: bool,
    /// The keys that requests are told apart by, of those that are named and can be read.
    pub keys: Vec<String>,
}

/// What a `Readings` holds.
pub ghost struct Verdicts {
    pub services: Option<Seq<Seq<char>>>,
    pub http2: Option<bool>,
    pub headers: bool,
    pub limits: bool,
    pub keys: Seq<Seq<char>>,
}

pub open spec fn opt_texts(v: Option<Vec<String>>) -> Option<Seq<Seq<char>>> {
    match v {
        Some(v) => Some(text::texts(v@)),
        None => None,
    }
}

impl View for Readings {
    type V = Verdicts;

    open spec fn view(&self) -> Verdicts {
        Verdicts {
            services: opt_texts(self.services),
            http2: self.http2,
            headers: self.headers,
            limits: self.limits,
            keys: text::texts(self.keys@),
        }
    }
}

// ---------------------------------------------------------------------------
// Parts
// ---------------------------------------------------------------------------

pub open spec fn name_char(c: char) -> bool {
    text::spec_lower_letter(c) || text::spec_digit(c) || c == '-' || c == '.'
}

/// The name of an object in the same namespace.
pub open spec fn name_valid(s: Seq<char>) -> bool {
    s.len() > 0 && text::byte_len(s) <= 253 && forall|i: int|
        0 <= i < s.len() ==> name_char(#[trigger] s[i])
}

pub fn valid_name(s: &str) -> (r: bool)
    ensures
        r == name_valid(s@),
{
    if s.is_empty() || text::len(s) > 253 {
        return false;
    }
    let v = text::chars(s);
    let mut i: usize = 0;
    while i < v.len()
        invariant
            i <= v.len(),
            v@ == s@,
            forall|j: int| 0 <= j < i ==> name_char(#[trigger] s@[j]),
        decreases v.len() - i,
    {
        let c = v[i];
        if !(text::lower_letter(c) || text::digit(c) || c == '-' || c == '.') {
            assert(!name_char(s@[i as int]));
            return false;
        }
        i += 1;
    }
    true
}

/// A port by its number or by its name.
#[derive(Debug)]
pub enum Port {
    Number(u16),
    Name(String),
}

/// A service and a path at it.
#[derive(Debug)]
pub struct ServiceRef {
    pub name: String,
    pub port: Port,
    pub path: String,
}

#[verifier::ext_equal]
pub ghost enum PortView {
    Number(u16),
    Name(Seq<char>),
}

/// What a `ServiceRef` holds.
#[verifier::ext_equal]
pub ghost struct Service {
    pub name: Seq<char>,
    pub port: PortView,
    pub path: Seq<char>,
}

impl View for Port {
    type V = PortView;

    open spec fn view(&self) -> PortView {
        match self {
            Port::Number(n) => PortView::Number(*n),
            Port::Name(s) => PortView::Name(s@),
        }
    }
}

impl View for ServiceRef {
    type V = Service;

    open spec fn view(&self) -> Service {
        Service { name: self.name@, port: self.port@, path: self.path@ }
    }
}

pub open spec fn spec_ends_path(c: char) -> bool {
    c == '?' || c == '#' || c == '\r' || c == '\n'
}

pub open spec fn path_part_valid(s: Seq<char>) -> bool {
    text::byte_len(s) <= 1024 && !(exists|i: int|
        0 <= i < s.len() && spec_ends_path(#[trigger] s[i]))
}

fn is_path_part(s: &str) -> (r: bool)
    ensures
        r == path_part_valid(s@),
{
    if text::len(s) > 1024 {
        return false;
    }
    let v = text::chars(s);
    let mut i: usize = 0;
    while i < v.len()
        invariant
            i <= v.len(),
            v@ == s@,
            forall|j: int| 0 <= j < i ==> !spec_ends_path(#[trigger] s@[j]),
        decreases v.len() - i,
    {
        let c = v[i];
        if c == '?' || c == '#' || c == '\r' || c == '\n' {
            assert(spec_ends_path(s@[i as int]));
            return false;
        }
        i += 1;
    }
    true
}

pub open spec fn port_of(s: Seq<char>) -> Option<PortView> {
    match text::decimal_upto(s, u16::MAX as nat) {
        Some(n) => if n > 0 {
            Some(PortView::Number(n as u16))
        } else {
            None
        },
        None => if name_valid(s) {
            Some(PortView::Name(s))
        } else {
            None
        },
    }
}

/// A service and a path, as in `name:port/path`.
pub open spec fn service_of(value: Seq<char>) -> Option<Service> {
    match text::split_once_spec(value, '/') {
        None => None,
        Some((authority, path)) => match text::split_once_spec(authority, ':') {
            None => None,
            Some((name, port)) => if !name_valid(name) || port.len() == 0 || !path_part_valid(path) {
                None
            } else {
                match port_of(port) {
                    None => None,
                    Some(p) => Some(Service { name, port: p, path: "/"@ + path }),
                }
            },
        },
    }
}

/// A service and a path, as in `name:port/path`.
pub fn auth_service(value: &str) -> (r: Option<ServiceRef>)
    ensures
        match r {
            Some(s) => service_of(value@) == Some(s@),
            None => service_of(value@) is None,
        },
{
    let (authority, path) = match text::split_once(value, '/') {
        Some(p) => p,
        None => return None,
    };
    let (name, port) = match text::split_once(authority.as_str(), ':') {
        Some(p) => p,
        None => return None,
    };
    if !valid_name(name.as_str()) || port.as_str().is_empty() || !is_path_part(path.as_str()) {
        return None;
    }
    let port = match text::parse_u16(port.as_str()) {
        Some(n) => {
            if n == 0 {
                return None;
            }
            Port::Number(n)
        },
        None => {
            if !valid_name(port.as_str()) {
                return None;
            }
            Port::Name(port)
        },
    };
    Some(ServiceRef { name, port, path: text::concat("/", path.as_str()) })
}

/// Whether each service is one that can be named.
pub open spec fn services_valid(v: Seq<Seq<char>>) -> bool {
    forall|i: int| 0 <= i < v.len() ==> service_of((#[trigger] v[i]).push('/')) is Some
}

fn are_services(v: &Vec<String>) -> (r: bool)
    ensures
        r == services_valid(text::texts(v@)),
{
    let ghost all = text::texts(v@);
    let mut i: usize = 0;
    while i < v.len()
        invariant
            i <= v.len(),
            all == text::texts(v@),
            forall|j: int| 0 <= j < i ==> service_of((#[trigger] all[j]).push('/')) is Some,
        decreases v.len() - i,
    {
        let mut s = v[i].clone();
        s.push('/');
        assert(s@ == all[i as int].push('/'));
        if auth_service(s.as_str()).is_none() {
            return false;
        }
        i += 1;
    }
    true
}

/// The pieces between commas, trimmed.
pub open spec fn listed(value: Seq<char>) -> Seq<Seq<char>> {
    let pieces = text::split_spec(value, ',');
    Seq::new(pieces.len(), |i: int| text::trim_spec(pieces[i]))
}

pub fn list(value: &str) -> (out: Vec<String>)
    ensures
        text::texts(out@) == listed(value@),
{
    let pieces = text::split(value, ',');
    let mut out: Vec<String> = Vec::new();
    let mut i: usize = 0;
    while i < pieces.len()
        invariant
            i <= pieces.len(),
            text::texts(pieces@) == text::split_spec(value@, ','),
            text::texts(out@) == listed(value@).take(i as int),
        decreases pieces.len() - i,
    {
        let ghost before = text::texts(out@);
        assert(text::texts(pieces@)[i as int] == pieces@[i as int]@);
        let e = text::trim(pieces[i].as_str()).to_owned();
        let ghost x = e@;
        assert(listed(value@).take(i + 1) =~= listed(value@).take(i as int).push(x));
        out.push(e);
        assert(text::texts(out@) =~= before.push(x));
        i += 1;
    }
    assert(listed(value@).take(i as int) =~= listed(value@));
    out
}

/// `s` without `p` at its start, however often it stands there.
pub open spec fn without_prefix(s: Seq<char>, p: Seq<char>) -> Seq<char>
    decreases s.len(),
{
    if p.len() > 0 && text::starts(s, p) {
        without_prefix(s.skip(p.len() as int), p)
    } else {
        s
    }
}

fn strip_all<'a>(s: &'a str, p: &str) -> (out: &'a str)
    ensures
        out@ == without_prefix(s@, p@),
    decreases s@.len(),
{
    if p.is_empty() {
        return s;
    }
    match text::strip_prefix(s, p) {
        Some(rest) => strip_all(rest, p),
        None => s,
    }
}

pub open spec fn balance_of(value: Seq<char>, keys: Seq<Seq<char>>) -> Result<Spread, PolicyError> {
    if value == "round_robin"@ {
        Ok(Spread::RoundRobin)
    } else if value == "least_conn"@ {
        Ok(Spread::LeastConnections)
    } else if text::starts(value, "sticky "@) {
        let cookie = without_prefix(value, "sticky "@);
        if header::valid_name(cookie) && text::byte_len(cookie) <= 64 {
            Ok(Spread::Sticky(cookie))
        } else {
            Err(PolicyError::CookieName)
        }
    } else if text::starts(value, "hash "@) {
        let k = value.skip("hash "@.len() as int);
        if keys.contains(k) {
            Ok(Spread::Hash(k))
        } else {
            Err(PolicyError::Key)
        }
    } else {
        Err(PolicyError::Balance)
    }
}

fn read_balance(value: &str, keys: &Vec<String>) -> (r: Result<Balance, PolicyError>)
    ensures
        match r {
            Ok(b) => balance_of(value@, text::texts(keys@)) == Ok::<Spread, PolicyError>(b@),
            Err(e) => balance_of(value@, text::texts(keys@)) == Err::<Spread, PolicyError>(e),
        },
{
    if text::same(value, "round_robin") {
        Ok(Balance::RoundRobin)
    } else if text::same(value, "least_conn") {
        Ok(Balance::LeastConnections)
    } else if text::starts_with(value, "sticky ") {
        let cookie = strip_all(value, "sticky ");
        if header::name(cookie).is_some() && text::len(cookie) <= 64 {
            Ok(Balance::Sticky(cookie.to_owned()))
        } else {
            Err(PolicyError::CookieName)
        }
    } else {
        match text::strip_prefix(value, "hash ") {
            Some(k) => if text::contains(keys, k) {
                Ok(Balance::Hash(k.to_owned()))
            } else {
                Err(PolicyError::Key)
            },
            None => Err(PolicyError::Balance),
        }
    }
}

/// The options behind the number of a limit.
pub open spec fn limit_options(words: Seq<Seq<char>>, start: Cap, rate: bool, keys: Seq<Seq<char>>) -> Result<
    Cap,
    PolicyError,
>
    decreases words.len(),
{
    if words.len() == 0 {
        Ok(start)
    } else {
        match limit_options(words.drop_last(), start, rate, keys) {
            Err(e) => Err(e),
            Ok(c) => {
                let w = words.last();
                if text::starts(w, "key="@) {
                    let k = w.skip("key="@.len() as int);
                    if keys.contains(k) {
                        Ok(Cap { key: k, ..c })
                    } else {
                        Err(PolicyError::Key)
                    }
                } else if text::starts(w, "burst="@) {
                    if !rate {
                        Err(PolicyError::BurstWithoutRate)
                    } else {
                        match text::decimal_upto(w.skip("burst="@.len() as int), u32::MAX as nat) {
                            None => Err(PolicyError::Number),
                            Some(n) => Ok(Cap { burst: n as u32, ..c }),
                        }
                    }
                } else {
                    Err(PolicyError::LimitOption)
                }
            },
        }
    }
}

proof fn lemma_limit_error(words: Seq<Seq<char>>, start: Cap, rate: bool, keys: Seq<Seq<char>>, i: int)
    requires
        0 <= i <= words.len(),
        limit_options(words.take(i), start, rate, keys) is Err,
    ensures
        limit_options(words, start, rate, keys) == limit_options(words.take(i), start, rate, keys),
    decreases words.len(),
{
    if i < words.len() {
        assert(words.drop_last().take(i) =~= words.take(i));
        lemma_limit_error(words.drop_last(), start, rate, keys, i);
    } else {
        assert(words.take(i) =~= words);
    }
}

/// A limit, as in `10 burst=20 key=ip`; nothing for `off`.
pub open spec fn limit_of(value: Seq<char>, rate: bool, keys: Seq<Seq<char>>) -> Result<Option<Cap>, PolicyError> {
    let words = text::words_of(value);
    if words.len() == 0 {
        Err(PolicyError::EmptyLimit)
    } else if value == "off"@ {
        Ok(None)
    } else {
        match text::decimal_upto(words[0], u32::MAX as nat) {
            None => Err(PolicyError::Number),
            Some(n) => match limit_options(
                words.skip(1),
                Cap { limit: n as u32, burst: n as u32, key: "ip"@ },
                rate,
                keys,
            ) {
                Err(e) => Err(e),
                Ok(c) => Ok(Some(c)),
            },
        }
    }
}

fn read_limit(value: &str, rate: bool, keys: &Vec<String>) -> (r: Result<Option<Limit>, PolicyError>)
    ensures
        match r {
            Ok(l) => limit_of(value@, rate, text::texts(keys@)) == Ok::<Option<Cap>, PolicyError>(cap(l)),
            Err(e) => limit_of(value@, rate, text::texts(keys@)) == Err::<Option<Cap>, PolicyError>(e),
        },
{
    let words = text::split_whitespace(value);
    let ghost all = text::texts(words@);
    if words.len() == 0 {
        return Err(PolicyError::EmptyLimit);
    }
    if text::same(value, "off") {
        return Ok(None);
    }
    assert(all[0] == words@[0]@);
    let n = match text::parse_u32(words[0].as_str()) {
        Some(n) => n,
        None => return Err(PolicyError::Number),
    };
    let mut l = Limit { limit: n, burst: n, key: "ip".to_owned() };
    let ghost start = l@;
    let ghost rest = all.skip(1);
    let mut i: usize = 1;
    assert(rest.take(0) =~= Seq::empty());
    while i < words.len()
        invariant
            1 <= i <= words.len(),
            all == text::texts(words@),
            rest == all.skip(1),
            limit_options(rest.take(i - 1), start, rate, text::texts(keys@)) == Ok::<Cap, PolicyError>(l@),
            limit_of(value@, rate, text::texts(keys@)) == match limit_options(rest, start, rate, text::texts(keys@)) {
                Err(e) => Err(e),
                Ok(c) => Ok::<Option<Cap>, PolicyError>(Some(c)),
            },
        decreases words.len() - i,
    {
        let w = words[i].as_str();
        proof {
            assert(rest.take(i as int).drop_last() =~= rest.take(i - 1));
            assert(rest.take(i as int).last() == w@);
        }
        if let Some(k) = text::strip_prefix(w, "key=") {
            if !text::contains(keys, k) {
                proof {
                    lemma_limit_error(rest, start, rate, text::texts(keys@), i as int);
                }
                return Err(PolicyError::Key);
            }
            l.key = k.to_owned();
        } else if let Some(b) = text::strip_prefix(w, "burst=") {
            if !rate {
                proof {
                    lemma_limit_error(rest, start, rate, text::texts(keys@), i as int);
                }
                return Err(PolicyError::BurstWithoutRate);
            }
            match text::parse_u32(b) {
                Some(n) => {
                    l.burst = n;
                },
                None => {
                    proof {
                        lemma_limit_error(rest, start, rate, text::texts(keys@), i as int);
                    }
                    return Err(PolicyError::Number);
                },
            }
        } else {
            proof {
                lemma_limit_error(rest, start, rate, text::texts(keys@), i as int);
            }
            return Err(PolicyError::LimitOption);
        }
        i += 1;
    }
    assert(rest.take(i - 1) =~= rest);
    Ok(Some(l))
}

/// The networks of a list.
pub open spec fn networks_of(v: Seq<Seq<char>>) -> Option<Seq<AccessRule>>
    decreases v.len(),
{
    if v.len() == 0 {
        Some(Seq::empty())
    } else {
        match (networks_of(v.drop_last()), network_of(v.last())) {
            (Some(w), Some(n)) => Some(w.push(AccessRule { network: Some(n), allow: true })),
            _ => None,
        }
    }
}

proof fn lemma_networks_none(v: Seq<Seq<char>>, i: int)
    requires
        0 <= i <= v.len(),
        networks_of(v.take(i)) is None,
    ensures
        networks_of(v) is None,
    decreases v.len(),
{
    if i < v.len() {
        assert(v.drop_last().take(i) =~= v.take(i));
        lemma_networks_none(v.drop_last(), i);
    } else {
        assert(v.take(i) =~= v);
    }
}

pub open spec fn rules_valid(v: Seq<AccessRule>) -> bool {
    forall|i: int|
        0 <= i < v.len() && (#[trigger] v[i]).network is Some ==> v[i].network->0.valid()
}

/// The rules that let only the networks of a list in.
fn read_networks(value: &str, access: &mut Vec<AccessRule>) -> (r: bool)
    requires
        rules_valid(old(access)@),
    ensures
        rules_valid(final(access)@),
        r == networks_of(listed(value@)) is Some,
        r ==> final(access)@ == old(access)@ + networks_of(listed(value@))->0.push(
            AccessRule { network: None, allow: false },
        ),
{
    let items = list(value);
    let ghost all = listed(value@);
    let ghost start = access@;
    let mut i: usize = 0;
    assert(start + Seq::<AccessRule>::empty() =~= start);
    while i < items.len()
        invariant
            i <= items.len(),
            text::texts(items@) == all,
            all == listed(value@),
            networks_of(all.take(i as int)) is Some,
            access@ == start + networks_of(all.take(i as int))->0,
            rules_valid(access@),
        decreases items.len() - i,
    {
        proof {
            assert(all.take(i + 1).drop_last() =~= all.take(i as int));
            assert(all.take(i + 1).last() == items@[i as int]@);
        }
        match net::network(items[i].as_str()) {
            None => {
                proof {
                    lemma_networks_none(all, i + 1);
                }
                return false;
            },
            Some(n) => {
                let rule = AccessRule { network: Some(n), allow: true };
                let ghost before = networks_of(all.take(i as int))->0;
                access.push(rule);
                assert(access@ =~= start + before.push(rule));
            },
        }
        i += 1;
    }
    assert(all.take(i as int) =~= all);
    let ghost w = networks_of(all)->0;
    access.push(AccessRule { network: None, allow: false });
    assert(access@ =~= start + w.push(AccessRule { network: None, allow: false }));
    true
}

// ---------------------------------------------------------------------------
// Annotations
// ---------------------------------------------------------------------------

/// An annotation that sets nothing here.
pub open spec fn silent_key(key: Seq<char>) -> bool {
    key == "script"@ || key == "request-body"@ || key == "request-body-timeout"@ || key
        == "rolled-back-revision"@ || key == "https-port"@
}

pub open spec fn time_key(key: Seq<char>) -> bool {
    key == "proxy-connect-timeout"@ || key == "proxy-read-timeout"@ || key == "proxy-send-timeout"@
        || key == "keepalive-timeout"@
}

pub open spec fn log_key(key: Seq<char>) -> bool {
    key == "log-format"@ || key == "log-query"@ || key == "log-client"@ || key == "log-referer"@
        || key == "log-redact"@ || key == "log-fields"@ || key == "access-log"@
}

pub open spec fn transport_key(key: Seq<char>) -> bool {
    key == "ssl-redirect"@ || key == "backend-protocol"@ || key == "upstream-http-version"@ || key
        == "upstream-server-name"@
}

pub open spec fn trust_key(key: Seq<char>) -> bool {
    key == "traffic-policy"@ || key == "upstream-ca-secret"@ || key == "jwt-secret"@ || key
        == "client-ca-secret"@ || key == "upstream-client-secret"@ || key == "jwt-issuer"@ || key
        == "jwt-audience"@ || key == "jwt-algorithm"@ || key == "verify-client"@ || key
        == "auth-service"@ || key == "auth-timeout"@ || key == "auth-response-headers"@
}

/// What an annotation on times sets.
pub open spec fn time_set(v: Values, key: Seq<char>, value: Seq<char>) -> Result<
    Values,
    PolicyError,
> {
    match duration_of(value) {
        Err(e) => Err(PolicyError::Value(e)),
        Ok(t) => if t > MAX_TIMEOUT || (key != "keepalive-timeout"@ && t == 0) {
            Err(PolicyError::Timeout)
        } else if key == "proxy-connect-timeout"@ {
            Ok(Values { connect_timeout: t, ..v })
        } else if key == "proxy-read-timeout"@ {
            Ok(Values { read_timeout: t, ..v })
        } else if key == "proxy-send-timeout"@ {
            Ok(Values { write_timeout: t, ..v })
        } else {
            Ok(Values { keepalive: t, ..v })
        },
    }
}

fn set_time(s: &mut Settings, key: &str, value: &str) -> (r: Result<(), PolicyError>)
    requires
        old(s).wf(),
    ensures
        final(s).wf(),
        match r {
            Ok(_) => time_set(old(s)@, key@, value@) == Ok::<Values, PolicyError>(final(s)@),
            Err(e) => time_set(old(s)@, key@, value@) == Err::<Values, PolicyError>(e),
        },
{
    let t = match value::duration(value) {
        Ok(t) => t,
        Err(e) => return Err(PolicyError::Value(e)),
    };
    if t > MAX_TIMEOUT || (!text::same(key, "keepalive-timeout") && t == 0) {
        return Err(PolicyError::Timeout);
    }
    if text::same(key, "proxy-connect-timeout") {
        s.connect_timeout = t;
    } else if text::same(key, "proxy-read-timeout") {
        s.read_timeout = t;
    } else if text::same(key, "proxy-send-timeout") {
        s.write_timeout = t;
    } else {
        s.keepalive = t;
    }
    Ok(())
}

pub open spec fn switch_set(value: Seq<char>) -> Result<bool, PolicyError> {
    if value == "on"@ {
        Ok(true)
    } else if value == "off"@ {
        Ok(false)
    } else {
        Err(PolicyError::Switch)
    }
}

fn read_switch(value: &str) -> (r: Result<bool, PolicyError>)
    ensures
        r == switch_set(value@),
{
    if text::same(value, "on") {
        Ok(true)
    } else if text::same(value, "off") {
        Ok(false)
    } else {
        Err(PolicyError::Switch)
    }
}

pub open spec fn logged(v: Values) -> Result<Values, PolicyError> {
    match fields_checked(v.log.fields, v.log.redact) {
        Ok(_) => Ok(v),
        Err(e) => Err(PolicyError::LogFields(e)),
    }
}

/// What an annotation on logs sets.
pub open spec fn log_set(v: Values, key: Seq<char>, value: Seq<char>) -> Result<
    Values,
    PolicyError,
> {
    if key == "log-format"@ {
        if value == "combined"@ {
            Ok(Values { log: crate::config::settings::LogValues { json: false, ..v.log }, ..v })
        } else if value == "json"@ {
            Ok(Values { log: crate::config::settings::LogValues { json: true, ..v.log }, ..v })
        } else {
            Err(PolicyError::LogFormat)
        }
    } else if key == "log-redact"@ {
        logged(
            Values {
                log: crate::config::settings::LogValues { redact: listed(value), ..v.log },
                ..v
            },
        )
    } else if key == "log-fields"@ {
        logged(
            Values {
                log: crate::config::settings::LogValues { fields: listed(value), ..v.log },
                ..v
            },
        )
    } else if key == "access-log"@ {
        if value == "on"@ {
            Ok(Values { access_log: Some("/dev/stdout"@), ..v })
        } else if value == "off"@ {
            Ok(Values { access_log: None, ..v })
        } else {
            Err(PolicyError::AccessLog)
        }
    } else {
        match switch_set(value) {
            Err(e) => Err(e),
            Ok(on) => if key == "log-query"@ {
                Ok(Values { log: crate::config::settings::LogValues { query: on, ..v.log }, ..v })
            } else if key == "log-client"@ {
                Ok(Values { log: crate::config::settings::LogValues { client: on, ..v.log }, ..v })
            } else {
                Ok(Values { log: crate::config::settings::LogValues { referer: on, ..v.log }, ..v })
            },
        }
    }
}

fn set_log(s: &mut Settings, key: &str, value: &str) -> (r: Result<(), PolicyError>)
    requires
        old(s).wf(),
    ensures
        final(s).wf(),
        match r {
            Ok(_) => log_set(old(s)@, key@, value@) == Ok::<Values, PolicyError>(final(s)@),
            Err(e) => log_set(old(s)@, key@, value@) == Err::<Values, PolicyError>(e),
        },
{
    if text::same(key, "log-format") {
        if text::same(value, "combined") {
            s.log_policy.json = false;
        } else if text::same(value, "json") {
            s.log_policy.json = true;
        } else {
            return Err(PolicyError::LogFormat);
        }
        Ok(())
    } else if text::same(key, "log-redact") {
        s.log_policy.redact = list(value);
        match s.log_policy.validate_fields() {
            Ok(_) => Ok(()),
            Err(e) => Err(PolicyError::LogFields(e)),
        }
    } else if text::same(key, "log-fields") {
        s.log_policy.fields = list(value);
        match s.log_policy.validate_fields() {
            Ok(_) => Ok(()),
            Err(e) => Err(PolicyError::LogFields(e)),
        }
    } else if text::same(key, "access-log") {
        if text::same(value, "on") {
            s.access_log = Some("/dev/stdout".to_owned());
        } else if text::same(value, "off") {
            s.access_log = None;
        } else {
            return Err(PolicyError::AccessLog);
        }
        Ok(())
    } else {
        let on = match read_switch(value) {
            Ok(b) => b,
            Err(e) => return Err(e),
        };
        if text::same(key, "log-query") {
            s.log_policy.query = on;
        } else if text::same(key, "log-client") {
            s.log_policy.client = on;
        } else {
            s.log_policy.referer = on;
        }
        Ok(())
    }
}

pub open spec fn spec_unnamed(c: char) -> bool {
    c == '/' || c == ':' || c == '$' || c == ' '
}

pub open spec fn server_name_valid(s: Seq<char>) -> bool {
    s.len() > 0 && text::byte_len(s) <= 253 && !(exists|i: int|
        0 <= i < s.len() && spec_unnamed(#[trigger] s[i]))
}

fn is_server_name(s: &str) -> (r: bool)
    ensures
        r == server_name_valid(s@),
{
    if s.is_empty() || text::len(s) > 253 {
        return false;
    }
    let v = text::chars(s);
    let mut i: usize = 0;
    while i < v.len()
        invariant
            i <= v.len(),
            v@ == s@,
            forall|j: int| 0 <= j < i ==> !spec_unnamed(#[trigger] s@[j]),
        decreases v.len() - i,
    {
        let c = v[i];
        if c == '/' || c == ':' || c == '$' || c == ' ' {
            assert(spec_unnamed(s@[i as int]));
            return false;
        }
        i += 1;
    }
    true
}

/// What an annotation on the connections sets.
pub open spec fn transport_set(
    d: Draft,
    key: Seq<char>,
    value: Seq<char>,
    http2: Option<bool>,
) -> Result<Draft, PolicyError> {
    if key == "ssl-redirect"@ {
        if value == "true"@ || value == "on"@ {
            Ok(Draft { settings: Values { https_redirect_port: Some(443), ..d.settings }, ..d })
        } else if value == "false"@ || value == "off"@ {
            Ok(Draft { settings: Values { https_redirect_port: None, ..d.settings }, ..d })
        } else {
            Err(PolicyError::SslRedirect)
        }
    } else if key == "backend-protocol"@ {
        if value == "HTTP"@ {
            Ok(Draft { tls: false, ..d })
        } else if value == "GRPC"@ {
            Ok(Draft { tls: false, http2: true, ..d })
        } else if value == "HTTPS"@ {
            Ok(Draft { tls: true, ..d })
        } else if value == "GRPCS"@ {
            Ok(Draft { tls: true, http2: true, ..d })
        } else {
            Err(PolicyError::BackendProtocol)
        }
    } else if key == "upstream-http-version"@ {
        match http2 {
            Some(b) => Ok(Draft { http2: b, ..d }),
            None => Err(PolicyError::HttpVersion),
        }
    } else if server_name_valid(value) {
        Ok(Draft { server_name: Some(value), ..d })
    } else {
        Err(PolicyError::ServerName)
    }
}

fn set_transport(a: &mut Annotated, key: &str, value: &str, http2: Option<bool>) -> (r: Result<
    (),
    PolicyError,
>)
    requires
        old(a).settings.wf(),
    ensures
        final(a).settings.wf(),
        match r {
            Ok(_) => transport_set(old(a)@, key@, value@, http2) == Ok::<Draft, PolicyError>(
                final(a)@,
            ),
            Err(e) => transport_set(old(a)@, key@, value@, http2) == Err::<Draft, PolicyError>(e),
        },
{
    if text::same(key, "ssl-redirect") {
        if text::same(value, "true") || text::same(value, "on") {
            a.settings.https_redirect_port = Some(443);
        } else if text::same(value, "false") || text::same(value, "off") {
            a.settings.https_redirect_port = None;
        } else {
            return Err(PolicyError::SslRedirect);
        }
    } else if text::same(key, "backend-protocol") {
        if text::same(value, "HTTP") {
            a.tls = false;
        } else if text::same(value, "GRPC") {
            a.tls = false;
            a.http2 = true;
        } else if text::same(value, "HTTPS") {
            a.tls = true;
        } else if text::same(value, "GRPCS") {
            a.tls = true;
            a.http2 = true;
        } else {
            return Err(PolicyError::BackendProtocol);
        }
    } else if text::same(key, "upstream-http-version") {
        match http2 {
            Some(b) => {
                a.http2 = b;
            },
            None => return Err(PolicyError::HttpVersion),
        }
    } else if is_server_name(value) {
        a.server_name = Some(value.to_owned());
    } else {
        return Err(PolicyError::ServerName);
    }
    Ok(())
}

/// What an annotation on trust sets, or how it is checked.
pub open spec fn trust_set(
    verify: Verify,
    key: Seq<char>,
    value: Seq<char>,
    r: Verdicts,
) -> Result<Verify, PolicyError> {
    if key == "traffic-policy"@ {
        match r.services {
            None => Err(PolicyError::TrafficPolicy),
            Some(v) => if services_valid(v) {
                Ok(verify)
            } else {
                Err(PolicyError::AuthService)
            },
        }
    } else if key == "jwt-issuer"@ || key == "jwt-audience"@ {
        if value.len() > 0 && text::byte_len(value) <= 1024 {
            Ok(verify)
        } else {
            Err(PolicyError::TokenParty)
        }
    } else if key == "jwt-algorithm"@ {
        if value == "RS256"@ || value == "ES256"@ {
            Ok(verify)
        } else {
            Err(PolicyError::TokenAlgorithm)
        }
    } else if key == "verify-client"@ {
        if value == "on"@ {
            Ok(Verify::Required)
        } else if value == "optional"@ {
            Ok(Verify::Optional)
        } else {
            Err(PolicyError::VerifyClient)
        }
    } else if key == "auth-service"@ {
        if service_of(value) is Some {
            Ok(verify)
        } else {
            Err(PolicyError::AuthService)
        }
    } else if key == "auth-timeout"@ {
        match duration_of(value) {
            Err(e) => Err(PolicyError::Value(e)),
            Ok(t) => if 0 < t <= MAX_AUTH_TIMEOUT {
                Ok(verify)
            } else {
                Err(PolicyError::AuthTimeout)
            },
        }
    } else if key == "auth-response-headers"@ {
        if r.headers {
            Ok(verify)
        } else {
            Err(PolicyError::AuthHeaders)
        }
    } else if name_valid(value) {
        Ok(verify)
    } else {
        Err(PolicyError::SecretName)
    }
}

fn set_trust(verify: Verify, key: &str, value: &str, readings: &Readings) -> (r: Result<
    Verify,
    PolicyError,
>)
    ensures
        r == trust_set(verify, key@, value@, readings@),
{
    if text::same(key, "traffic-policy") {
        match &readings.services {
            None => Err(PolicyError::TrafficPolicy),
            Some(v) => if are_services(v) {
                Ok(verify)
            } else {
                Err(PolicyError::AuthService)
            },
        }
    } else if text::same(key, "jwt-issuer") || text::same(key, "jwt-audience") {
        if !value.is_empty() && text::len(value) <= 1024 {
            Ok(verify)
        } else {
            Err(PolicyError::TokenParty)
        }
    } else if text::same(key, "jwt-algorithm") {
        if text::same(value, "RS256") || text::same(value, "ES256") {
            Ok(verify)
        } else {
            Err(PolicyError::TokenAlgorithm)
        }
    } else if text::same(key, "verify-client") {
        if text::same(value, "on") {
            Ok(Verify::Required)
        } else if text::same(value, "optional") {
            Ok(Verify::Optional)
        } else {
            Err(PolicyError::VerifyClient)
        }
    } else if text::same(key, "auth-service") {
        if auth_service(value).is_some() {
            Ok(verify)
        } else {
            Err(PolicyError::AuthService)
        }
    } else if text::same(key, "auth-timeout") {
        match value::duration(value) {
            Err(e) => Err(PolicyError::Value(e)),
            Ok(t) => if 0 < t && t <= MAX_AUTH_TIMEOUT {
                Ok(verify)
            } else {
                Err(PolicyError::AuthTimeout)
            },
        }
    } else if text::same(key, "auth-response-headers") {
        if readings.headers {
            Ok(verify)
        } else {
            Err(PolicyError::AuthHeaders)
        }
    } else if valid_name(value) {
        Ok(verify)
    } else {
        Err(PolicyError::SecretName)
    }
}

/// The health check at a path.
pub open spec fn check_at(path: Seq<char>) -> Check {
    Check { path, interval: 10000, timeout: 1000, status: 200 }
}

/// What any other annotation sets.
pub open spec fn other_set(d: Draft, key: Seq<char>, value: Seq<char>, keys: Seq<Seq<char>>) -> Result<
    Draft,
    PolicyError,
> {
    if key == "client-max-body-size"@ {
        match size_of(value) {
            Err(e) => Err(PolicyError::Value(e)),
            Ok(n) => if n > MAX_BODY {
                Err(PolicyError::BodyLimit)
            } else {
                Ok(Draft { settings: Values { max_body: n, ..d.settings }, ..d })
            },
        }
    } else if key == "balance"@ {
        match balance_of(value, keys) {
            Err(e) => Err(e),
            Ok(b) => Ok(Draft { upstream: Rules { balance: b, ..d.upstream }, ..d }),
        }
    } else if key == "backend-max-inflight"@ {
        match text::decimal_upto(value, usize::MAX as nat) {
            None => Err(PolicyError::Number),
            Some(n) => Ok(
                Draft { upstream: Rules { max_inflight: n as usize, ..d.upstream }, ..d },
            ),
        }
    } else if key == "health-path"@ {
        Ok(Draft { upstream: Rules { health: Some(check_at(value)), ..d.upstream }, ..d })
    } else if key == "limit-rate"@ {
        match limit_of(value, true, keys) {
            Err(e) => Err(e),
            Ok(None) => Ok(d),
            Ok(Some(c)) => Ok(Draft { rate: Some(c), ..d }),
        }
    } else if key == "limit-conn"@ {
        match limit_of(value, false, keys) {
            Err(e) => Err(e),
            Ok(None) => Ok(d),
            Ok(Some(c)) => Ok(Draft { concurrency: Some(c), ..d }),
        }
    } else if key == "allow-cidrs"@ {
        match networks_of(listed(value)) {
            None => Err(PolicyError::Network),
            Some(v) => Ok(
                Draft {
                    settings: Values {
                        access: d.settings.access + v.push(
                            AccessRule { network: None, allow: false },
                        ),
                        ..d.settings
                    },
                    ..d
                },
            ),
        }
    } else if key == "compression"@ {
        if value == "off"@ {
            Ok(d)
        } else if value == "gzip"@ {
            Ok(
                Draft {
                    settings: Values {
                        compression: crate::config::settings::CompressionValues {
                            gzip: 1,
                            ..d.settings.compression
                        },
                        ..d.settings
                    },
                    ..d
                },
            )
        } else if value == "br"@ {
            Ok(
                Draft {
                    settings: Values {
                        compression: crate::config::settings::CompressionValues {
                            brotli: 4,
                            ..d.settings.compression
                        },
                        ..d.settings
                    },
                    ..d
                },
            )
        } else if value == "gzip br"@ || value == "br gzip"@ {
            Ok(
                Draft {
                    settings: Values {
                        compression: crate::config::settings::CompressionValues {
                            gzip: 1,
                            brotli: 4,
                            ..d.settings.compression
                        },
                        ..d.settings
                    },
                    ..d
                },
            )
        } else {
            Err(PolicyError::Compression)
        }
    } else {
        Err(PolicyError::Unsupported)
    }
}

fn set_upstream(a: &mut Annotated, key: &str, value: &str, keys: &Vec<String>) -> (r: Result<bool, PolicyError>)
    requires
        old(a).settings.wf(),
    ensures
        final(a).settings.wf(),
        match r {
            Ok(true) => other_set(old(a)@, key@, value@, text::texts(keys@)) == Ok::<Draft, PolicyError>(final(a)@),
            Ok(false) => *final(a) == *old(a) && key@ != "balance"@ && key@
                != "backend-max-inflight"@ && key@ != "health-path"@ && key@ != "limit-rate"@
                && key@ != "limit-conn"@ && key@ != "client-max-body-size"@,
            Err(e) => other_set(old(a)@, key@, value@, text::texts(keys@)) == Err::<Draft, PolicyError>(e),
        },
{
    if text::same(key, "client-max-body-size") {
        match value::size(value) {
            Err(e) => return Err(PolicyError::Value(e)),
            Ok(n) => {
                if n > MAX_BODY {
                    return Err(PolicyError::BodyLimit);
                }
                a.settings.max_body = n;
            },
        }
    } else if text::same(key, "balance") {
        match read_balance(value, keys) {
            Err(e) => return Err(e),
            Ok(b) => {
                a.upstream.balance = b;
            },
        }
    } else if text::same(key, "backend-max-inflight") {
        match text::parse_usize(value) {
            None => return Err(PolicyError::Number),
            Some(n) => {
                a.upstream.max_inflight = n;
            },
        }
    } else if text::same(key, "health-path") {
        a.upstream.health = Some(
            HealthCheck { path: value.to_owned(), interval: 10000, timeout: 1000, status: 200 },
        );
    } else if text::same(key, "limit-rate") {
        match read_limit(value, true, keys) {
            Err(e) => return Err(e),
            Ok(None) => {},
            Ok(Some(l)) => {
                a.rate = Some(l);
            },
        }
    } else if text::same(key, "limit-conn") {
        match read_limit(value, false, keys) {
            Err(e) => return Err(e),
            Ok(None) => {},
            Ok(Some(l)) => {
                a.concurrency = Some(l);
            },
        }
    } else {
        return Ok(false);
    }
    Ok(true)
}

fn set_other(a: &mut Annotated, key: &str, value: &str, keys: &Vec<String>) -> (r: Result<(), PolicyError>)
    requires
        old(a).settings.wf(),
    ensures
        final(a).settings.wf(),
        match r {
            Ok(_) => other_set(old(a)@, key@, value@, text::texts(keys@)) == Ok::<Draft, PolicyError>(final(a)@),
            Err(e) => other_set(old(a)@, key@, value@, text::texts(keys@)) == Err::<Draft, PolicyError>(e),
        },
{
    match set_upstream(a, key, value, keys) {
        Err(e) => return Err(e),
        Ok(true) => return Ok(()),
        Ok(false) => {},
    }
    if text::same(key, "allow-cidrs") {
        if !read_networks(value, &mut a.settings.identity.access) {
            return Err(PolicyError::Network);
        }
    } else if text::same(key, "compression") {
        if text::same(value, "off") {
        } else if text::same(value, "gzip") {
            a.settings.compression.gzip = 1;
        } else if text::same(value, "br") {
            a.settings.compression.brotli = 4;
        } else if text::same(value, "gzip br") || text::same(value, "br gzip") {
            a.settings.compression.gzip = 1;
            a.settings.compression.brotli = 4;
        } else {
            return Err(PolicyError::Compression);
        }
    } else {
        return Err(PolicyError::Unsupported);
    }
    Ok(())
}

/// What an annotation sets, by its key behind the prefix.
pub open spec fn annotated(
    d: Draft,
    key: Seq<char>,
    value: Seq<char>,
    r: Verdicts,
) -> Result<Draft, PolicyError> {
    if silent_key(key) {
        Ok(d)
    } else if time_key(key) {
        match time_set(d.settings, key, value) {
            Ok(v) => Ok(Draft { settings: v, ..d }),
            Err(e) => Err(e),
        }
    } else if log_key(key) {
        match log_set(d.settings, key, value) {
            Ok(v) => Ok(Draft { settings: v, ..d }),
            Err(e) => Err(e),
        }
    } else if transport_key(key) {
        transport_set(d, key, value, r.http2)
    } else if trust_key(key) {
        match trust_set(d.verify, key, value, r) {
            Ok(v) => Ok(Draft { verify: v, ..d }),
            Err(e) => Err(e),
        }
    } else {
        other_set(d, key, value, r.keys)
    }
}

fn is_silent(key: &str) -> (r: bool)
    ensures
        r == silent_key(key@),
{
    text::same(key, "script") || text::same(key, "request-body") || text::same(
        key,
        "request-body-timeout",
    ) || text::same(key, "rolled-back-revision") || text::same(key, "https-port")
}

fn is_time(key: &str) -> (r: bool)
    ensures
        r == time_key(key@),
{
    text::same(key, "proxy-connect-timeout") || text::same(key, "proxy-read-timeout") || text::same(
        key,
        "proxy-send-timeout",
    ) || text::same(key, "keepalive-timeout")
}

fn is_log(key: &str) -> (r: bool)
    ensures
        r == log_key(key@),
{
    text::same(key, "log-format") || text::same(key, "log-query") || text::same(key, "log-client")
        || text::same(key, "log-referer") || text::same(key, "log-redact") || text::same(
        key,
        "log-fields",
    ) || text::same(key, "access-log")
}

fn is_transport(key: &str) -> (r: bool)
    ensures
        r == transport_key(key@),
{
    text::same(key, "ssl-redirect") || text::same(key, "backend-protocol") || text::same(
        key,
        "upstream-http-version",
    ) || text::same(key, "upstream-server-name")
}

fn is_trust(key: &str) -> (r: bool)
    ensures
        r == trust_key(key@),
{
    text::same(key, "traffic-policy") || text::same(key, "upstream-ca-secret") || text::same(
        key,
        "jwt-secret",
    ) || text::same(key, "client-ca-secret") || text::same(key, "upstream-client-secret")
        || text::same(key, "jwt-issuer") || text::same(key, "jwt-audience") || text::same(
        key,
        "jwt-algorithm",
    ) || text::same(key, "verify-client") || text::same(key, "auth-service") || text::same(
        key,
        "auth-timeout",
    ) || text::same(key, "auth-response-headers")
}

fn annotate(a: &mut Annotated, key: &str, value: &str, readings: &Readings) -> (r: Result<
    (),
    PolicyError,
>)
    requires
        old(a).settings.wf(),
    ensures
        final(a).settings.wf(),
        match r {
            Ok(_) => annotated(
                old(a)@,
                key@,
                value@,
                readings@,
            ) == Ok::<Draft, PolicyError>(final(a)@),
            Err(e) => annotated(
                old(a)@,
                key@,
                value@,
                readings@,
            ) == Err::<Draft, PolicyError>(e),
        },
{
    if is_silent(key) {
        Ok(())
    } else if is_time(key) {
        set_time(&mut a.settings, key, value)
    } else if is_log(key) {
        set_log(&mut a.settings, key, value)
    } else if is_transport(key) {
        set_transport(a, key, value, readings.http2)
    } else if is_trust(key) {
        match set_trust(a.verify, key, value, readings) {
            Ok(v) => {
                a.verify = v;
                Ok(())
            },
            Err(e) => Err(e),
        }
    } else {
        set_other(a, key, value, &readings.keys)
    }
}

/// What annotations set one after the other; those of others are passed over.
pub open spec fn all_annotated(
    d: Draft,
    v: Seq<(Seq<char>, Seq<char>)>,
    r: Verdicts,
) -> Result<Draft, PolicyError>
    decreases v.len(),
{
    if v.len() == 0 {
        Ok(d)
    } else {
        match all_annotated(d, v.drop_last(), r) {
            Err(e) => Err(e),
            Ok(x) => {
                let (key, value) = v.last();
                if text::byte_len(value) > MAX_ANNOTATION {
                    Err(PolicyError::TooLong)
                } else if text::starts(key, "rgnix.io/"@) {
                    annotated(x, key.skip("rgnix.io/"@.len() as int), value, r)
                } else {
                    Ok(x)
                }
            },
        }
    }
}

proof fn lemma_annotated_error(
    d: Draft,
    v: Seq<(Seq<char>, Seq<char>)>,
    r: Verdicts,
    i: int,
)
    requires
        0 <= i <= v.len(),
        all_annotated(d, v.take(i), r) is Err,
    ensures
        all_annotated(d, v, r) == all_annotated(d, v.take(i), r),
    decreases v.len(),
{
    if i < v.len() {
        assert(v.drop_last().take(i) =~= v.take(i));
        lemma_annotated_error(d, v.drop_last(), r, i);
    } else {
        assert(v.take(i) =~= v);
    }
}

/// The port of the redirect, where an annotation gives one.
pub open spec fn port_set(d: Draft, value: Option<Seq<char>>) -> Result<Draft, PolicyError> {
    match value {
        None => Ok(d),
        Some(s) => match text::decimal_upto(s, u16::MAX as nat) {
            None => Err(PolicyError::Number),
            Some(n) => if n > 0 && d.settings.https_redirect_port is Some {
                Ok(
                    Draft {
                        settings: Values { https_redirect_port: Some(n as u16), ..d.settings },
                        ..d
                    },
                )
            } else {
                Err(PolicyError::HttpsPort)
            },
        },
    }
}

pub open spec fn given(v: Seq<(Seq<char>, Seq<char>)>, key: Seq<char>) -> bool {
    text::lookup(v, key) is Some
}

/// What the annotations ask for together.
pub open spec fn together(d: Draft, v: Seq<(Seq<char>, Seq<char>)>) -> Result<Draft, PolicyError> {
    let verify = if given(v, "rgnix.io/client-ca-secret"@) && !given(v, "rgnix.io/verify-client"@) {
        Verify::Required
    } else {
        d.verify
    };
    if given(v, "rgnix.io/jwt-secret"@) && !(given(v, "rgnix.io/jwt-issuer"@) && given(
        v,
        "rgnix.io/jwt-audience"@,
    )) {
        Err(PolicyError::TokenIncomplete)
    } else if verify != Verify::Off && !given(v, "rgnix.io/client-ca-secret"@) {
        Err(PolicyError::VerifyWithoutAuthority)
    } else if given(v, "rgnix.io/backend-protocol"@) && text::starts(
        text::lookup(v, "rgnix.io/backend-protocol"@)->0,
        "GRPC"@,
    ) && !d.http2 {
        Err(PolicyError::GrpcVersion)
    } else {
        Ok(Draft { verify, ..d })
    }
}

pub open spec fn access_checked(v: Values) -> Result<(), IdentityError> {
    if v.trusted.len() > crate::identity::MAX_RULES || v.access.len() > crate::identity::MAX_RULES {
        Err(IdentityError::TooManyRules)
    } else if !header::valid_name(v.real_ip_header) {
        Err(IdentityError::InvalidHeaderName)
    } else {
        Ok(())
    }
}

pub open spec fn empty_draft(body: BodyPolicy) -> Draft {
    Draft {
        settings: Values { body_policy: body, ..default_values() },
        upstream: Rules { balance: Spread::RoundRobin, max_inflight: 0, health: None },
        tls: false,
        http2: false,
        server_name: None,
        rate: None,
        concurrency: None,
        verify: Verify::Off,
    }
}

/// What the annotations of an Ingress, in the order of their keys, set.
pub open spec fn parsed(
    v: Seq<(Seq<char>, Seq<char>)>,
    r: Verdicts,
) -> Result<Draft, PolicyError> {
    match BodyPolicy::annotated(v) {
        Err(e) => Err(PolicyError::Body(e)),
        Ok(body) => match all_annotated(empty_draft(body), v, r) {
            Err(e) => Err(e),
            Ok(d) => match port_set(d, text::lookup(v, "rgnix.io/https-port"@)) {
                Err(e) => Err(e),
                Ok(d) => if !r.limits {
                    Err(PolicyError::Limits)
                } else {
                    match access_checked(d.settings) {
                        Err(e) => Err(PolicyError::Identity(e)),
                        Ok(_) => match rules_checked(d.upstream) {
                            Err(e) => Err(PolicyError::Options(e)),
                            Ok(_) => together(d, v),
                        },
                    }
                },
            },
        },
    }
}

fn check_together(a: &mut Annotated, values: &Vec<(String, String)>) -> (r: Result<(), PolicyError>)
    requires
        old(a).settings.wf(),
    ensures
        final(a).settings.wf(),
        match r {
            Ok(_) => together(old(a)@, text::pairs(values@)) == Ok::<Draft, PolicyError>(final(a)@),
            Err(e) => together(old(a)@, text::pairs(values@)) == Err::<Draft, PolicyError>(e),
        },
{
    if text::find(values, "rgnix.io/jwt-secret").is_some() {
        if text::find(values, "rgnix.io/jwt-issuer").is_none() || text::find(
            values,
            "rgnix.io/jwt-audience",
        ).is_none() {
            return Err(PolicyError::TokenIncomplete);
        }
    }
    let authority = text::find(values, "rgnix.io/client-ca-secret").is_some();
    if authority && text::find(values, "rgnix.io/verify-client").is_none() {
        a.verify = Verify::Required;
    }
    if a.verify != Verify::Off && !authority {
        return Err(PolicyError::VerifyWithoutAuthority);
    }
    if let Some(p) = text::find(values, "rgnix.io/backend-protocol") {
        if text::starts_with(p, "GRPC") && !a.http2 {
            return Err(PolicyError::GrpcVersion);
        }
    }
    Ok(())
}

/// What the annotations of an Ingress, in the order of their keys, set.
pub fn parse(values: &Vec<(String, String)>, readings: &Readings) -> (r: Result<
    Annotated,
    PolicyError,
>)
    ensures
        match r {
            Ok(a) => a.settings.wf() && parsed(
                text::pairs(values@),
                readings@,
            ) == Ok::<Draft, PolicyError>(a@),
            Err(e) => parsed(
                text::pairs(values@),
                readings@,
            ) == Err::<Draft, PolicyError>(e),
        },
{
    let ghost all = text::pairs(values@);
    let body = match BodyPolicy::from_annotations(values) {
        Ok(b) => b,
        Err(e) => return Err(PolicyError::Body(e)),
    };
    let mut settings = Settings::default();
    settings.body_policy = body;
    let mut a = Annotated {
        settings,
        upstream: Options::default(),
        tls: false,
        http2: false,
        server_name: None,
        rate: None,
        concurrency: None,
        verify: Verify::Off,
    };
    let ghost start = empty_draft(body);
    assert(a@ =~= start);
    let mut i: usize = 0;
    while i < values.len()
        invariant
            i <= values.len(),
            all == text::pairs(values@),
            a.settings.wf(),
            start == empty_draft(body),
            BodyPolicy::annotated(all) == Ok::<BodyPolicy, BodyError>(body),
            all_annotated(start, all.take(i as int), readings@) == Ok::<
                Draft,
                PolicyError,
            >(a@),
        decreases values.len() - i,
    {
        proof {
            assert(all.take(i + 1).drop_last() =~= all.take(i as int));
            assert(all.take(i + 1).last() == (values@[i as int].0@, values@[i as int].1@));
        }
        let value = values[i].1.as_str();
        if text::len(value) > MAX_ANNOTATION {
            proof {
                lemma_annotated_error(start, all, readings@, i + 1);
            }
            return Err(PolicyError::TooLong);
        }
        if let Some(key) = text::strip_prefix(values[i].0.as_str(), "rgnix.io/") {
            match annotate(&mut a, key, value, readings) {
                Ok(_) => {},
                Err(e) => {
                    proof {
                        lemma_annotated_error(start, all, readings@, i + 1);
                    }
                    return Err(e);
                },
            }
        }
        i += 1;
    }
    assert(all.take(i as int) =~= all);
    if let Some(s) = text::find(values, "rgnix.io/https-port") {
        let port = match text::parse_u16(s) {
            Some(n) => n,
            None => return Err(PolicyError::Number),
        };
        if port == 0 || a.settings.https_redirect_port.is_none() {
            return Err(PolicyError::HttpsPort);
        }
        a.settings.https_redirect_port = Some(port);
    }
    if !readings.limits {
        return Err(PolicyError::Limits);
    }
    match a.settings.identity.validate() {
        Err(e) => return Err(PolicyError::Identity(e)),
        Ok(_) => {},
    }
    match a.upstream.validate() {
        Err(e) => return Err(PolicyError::Options(e)),
        Ok(_) => {},
    }
    match check_together(&mut a, values) {
        Err(e) => Err(e),
        Ok(_) => Ok(a),
    }
}

// ---------------------------------------------------------------------------
// Laws
// ---------------------------------------------------------------------------

/// Where client certificates are verified, an authority to verify them by is named.
pub proof fn law_verification_has_an_authority(v: Seq<(Seq<char>, Seq<char>)>, r: Verdicts)
    requires
        parsed(v, r) is Ok,
    ensures
        parsed(v, r)->Ok_0.verify != Verify::Off ==> given(v, "rgnix.io/client-ca-secret"@),
        given(v, "rgnix.io/client-ca-secret"@) && !given(v, "rgnix.io/verify-client"@) ==> parsed(
            v,
            r,
        )->Ok_0.verify == Verify::Required,
{
}

proof fn lemma_is_proxy_connect_timeout()
    ensures
        !silent_key("proxy-connect-timeout"@),
        time_key("proxy-connect-timeout"@),
        "proxy-connect-timeout"@ != "proxy-read-timeout"@,
        "proxy-connect-timeout"@ != "proxy-send-timeout"@,
        "proxy-connect-timeout"@ != "keepalive-timeout"@,
{
    reveal_strlit("proxy-connect-timeout");
    reveal_strlit("script");
    assert("proxy-connect-timeout"@.len() != "script"@.len());
    reveal_strlit("request-body");
    assert("proxy-connect-timeout"@.len() != "request-body"@.len());
    reveal_strlit("request-body-timeout");
    assert("proxy-connect-timeout"@.len() != "request-body-timeout"@.len());
    reveal_strlit("rolled-back-revision");
    assert("proxy-connect-timeout"@.len() != "rolled-back-revision"@.len());
    reveal_strlit("https-port");
    assert("proxy-connect-timeout"@.len() != "https-port"@.len());
    reveal_strlit("proxy-read-timeout");
    assert("proxy-connect-timeout"@.len() != "proxy-read-timeout"@.len());
    reveal_strlit("proxy-send-timeout");
    assert("proxy-connect-timeout"@.len() != "proxy-send-timeout"@.len());
    reveal_strlit("keepalive-timeout");
    assert("proxy-connect-timeout"@.len() != "keepalive-timeout"@.len());
}

proof fn lemma_is_proxy_read_timeout()
    ensures
        !silent_key("proxy-read-timeout"@),
        time_key("proxy-read-timeout"@),
        "proxy-read-timeout"@ != "proxy-connect-timeout"@,
        "proxy-read-timeout"@ != "proxy-send-timeout"@,
        "proxy-read-timeout"@ != "keepalive-timeout"@,
{
    reveal_strlit("proxy-read-timeout");
    reveal_strlit("script");
    assert("proxy-read-timeout"@.len() != "script"@.len());
    reveal_strlit("request-body");
    assert("proxy-read-timeout"@.len() != "request-body"@.len());
    reveal_strlit("request-body-timeout");
    assert("proxy-read-timeout"@.len() != "request-body-timeout"@.len());
    reveal_strlit("rolled-back-revision");
    assert("proxy-read-timeout"@.len() != "rolled-back-revision"@.len());
    reveal_strlit("https-port");
    assert("proxy-read-timeout"@.len() != "https-port"@.len());
    reveal_strlit("proxy-connect-timeout");
    assert("proxy-read-timeout"@.len() != "proxy-connect-timeout"@.len());
    reveal_strlit("proxy-send-timeout");
    assert("proxy-read-timeout"@[6] != "proxy-send-timeout"@[6]);
    reveal_strlit("keepalive-timeout");
    assert("proxy-read-timeout"@.len() != "keepalive-timeout"@.len());
}

proof fn lemma_is_proxy_send_timeout()
    ensures
        !silent_key("proxy-send-timeout"@),
        time_key("proxy-send-timeout"@),
        "proxy-send-timeout"@ != "proxy-connect-timeout"@,
        "proxy-send-timeout"@ != "proxy-read-timeout"@,
        "proxy-send-timeout"@ != "keepalive-timeout"@,
{
    reveal_strlit("proxy-send-timeout");
    reveal_strlit("script");
    assert("proxy-send-timeout"@.len() != "script"@.len());
    reveal_strlit("request-body");
    assert("proxy-send-timeout"@.len() != "request-body"@.len());
    reveal_strlit("request-body-timeout");
    assert("proxy-send-timeout"@.len() != "request-body-timeout"@.len());
    reveal_strlit("rolled-back-revision");
    assert("proxy-send-timeout"@.len() != "rolled-back-revision"@.len());
    reveal_strlit("https-port");
    assert("proxy-send-timeout"@.len() != "https-port"@.len());
    reveal_strlit("proxy-connect-timeout");
    assert("proxy-send-timeout"@.len() != "proxy-connect-timeout"@.len());
    reveal_strlit("proxy-read-timeout");
    assert("proxy-send-timeout"@[6] != "proxy-read-timeout"@[6]);
    reveal_strlit("keepalive-timeout");
    assert("proxy-send-timeout"@.len() != "keepalive-timeout"@.len());
}

proof fn lemma_is_keepalive_timeout()
    ensures
        !silent_key("keepalive-timeout"@),
        time_key("keepalive-timeout"@),
        "keepalive-timeout"@ != "proxy-connect-timeout"@,
        "keepalive-timeout"@ != "proxy-read-timeout"@,
        "keepalive-timeout"@ != "proxy-send-timeout"@,
{
    reveal_strlit("keepalive-timeout");
    reveal_strlit("script");
    assert("keepalive-timeout"@.len() != "script"@.len());
    reveal_strlit("request-body");
    assert("keepalive-timeout"@.len() != "request-body"@.len());
    reveal_strlit("request-body-timeout");
    assert("keepalive-timeout"@.len() != "request-body-timeout"@.len());
    reveal_strlit("rolled-back-revision");
    assert("keepalive-timeout"@.len() != "rolled-back-revision"@.len());
    reveal_strlit("https-port");
    assert("keepalive-timeout"@.len() != "https-port"@.len());
    reveal_strlit("proxy-connect-timeout");
    assert("keepalive-timeout"@.len() != "proxy-connect-timeout"@.len());
    reveal_strlit("proxy-read-timeout");
    assert("keepalive-timeout"@.len() != "proxy-read-timeout"@.len());
    reveal_strlit("proxy-send-timeout");
    assert("keepalive-timeout"@.len() != "proxy-send-timeout"@.len());
}

proof fn lemma_is_log_format()
    ensures
        !silent_key("log-format"@),
        !time_key("log-format"@),
        log_key("log-format"@),
        "log-format"@ != "log-redact"@,
        "log-format"@ != "log-fields"@,
        "log-format"@ != "access-log"@,
        "log-format"@ != "log-query"@,
        "log-format"@ != "log-client"@,
        "log-format"@ != "log-referer"@,
{
    reveal_strlit("log-format");
    reveal_strlit("script");
    assert("log-format"@.len() != "script"@.len());
    reveal_strlit("request-body");
    assert("log-format"@.len() != "request-body"@.len());
    reveal_strlit("request-body-timeout");
    assert("log-format"@.len() != "request-body-timeout"@.len());
    reveal_strlit("rolled-back-revision");
    assert("log-format"@.len() != "rolled-back-revision"@.len());
    reveal_strlit("https-port");
    assert("log-format"@[0] != "https-port"@[0]);
    reveal_strlit("proxy-connect-timeout");
    assert("log-format"@.len() != "proxy-connect-timeout"@.len());
    reveal_strlit("proxy-read-timeout");
    assert("log-format"@.len() != "proxy-read-timeout"@.len());
    reveal_strlit("proxy-send-timeout");
    assert("log-format"@.len() != "proxy-send-timeout"@.len());
    reveal_strlit("keepalive-timeout");
    assert("log-format"@.len() != "keepalive-timeout"@.len());
    reveal_strlit("log-redact");
    assert("log-format"@[4] != "log-redact"@[4]);
    reveal_strlit("log-fields");
    assert("log-format"@[5] != "log-fields"@[5]);
    reveal_strlit("access-log");
    assert("log-format"@[0] != "access-log"@[0]);
    reveal_strlit("log-query");
    assert("log-format"@.len() != "log-query"@.len());
    reveal_strlit("log-client");
    assert("log-format"@[4] != "log-client"@[4]);
    reveal_strlit("log-referer");
    assert("log-format"@.len() != "log-referer"@.len());
}

proof fn lemma_is_log_redact()
    ensures
        !silent_key("log-redact"@),
        !time_key("log-redact"@),
        log_key("log-redact"@),
        "log-redact"@ != "log-format"@,
        "log-redact"@ != "log-fields"@,
        "log-redact"@ != "access-log"@,
        "log-redact"@ != "log-query"@,
        "log-redact"@ != "log-client"@,
        "log-redact"@ != "log-referer"@,
{
    reveal_strlit("log-redact");
    reveal_strlit("script");
    assert("log-redact"@.len() != "script"@.len());
    reveal_strlit("request-body");
    assert("log-redact"@.len() != "request-body"@.len());
    reveal_strlit("request-body-timeout");
    assert("log-redact"@.len() != "request-body-timeout"@.len());
    reveal_strlit("rolled-back-revision");
    assert("log-redact"@.len() != "rolled-back-revision"@.len());
    reveal_strlit("https-port");
    assert("log-redact"@[0] != "https-port"@[0]);
    reveal_strlit("proxy-connect-timeout");
    assert("log-redact"@.len() != "proxy-connect-timeout"@.len());
    reveal_strlit("proxy-read-timeout");
    assert("log-redact"@.len() != "proxy-read-timeout"@.len());
    reveal_strlit("proxy-send-timeout");
    assert("log-redact"@.len() != "proxy-send-timeout"@.len());
    reveal_strlit("keepalive-timeout");
    assert("log-redact"@.len() != "keepalive-timeout"@.len());
    reveal_strlit("log-format");
    assert("log-redact"@[4] != "log-format"@[4]);
    reveal_strlit("log-fields");
    assert("log-redact"@[4] != "log-fields"@[4]);
    reveal_strlit("access-log");
    assert("log-redact"@[0] != "access-log"@[0]);
    reveal_strlit("log-query");
    assert("log-redact"@.len() != "log-query"@.len());
    reveal_strlit("log-client");
    assert("log-redact"@[4] != "log-client"@[4]);
    reveal_strlit("log-referer");
    assert("log-redact"@.len() != "log-referer"@.len());
}

proof fn lemma_is_log_fields()
    ensures
        !silent_key("log-fields"@),
        !time_key("log-fields"@),
        log_key("log-fields"@),
        "log-fields"@ != "log-format"@,
        "log-fields"@ != "log-redact"@,
        "log-fields"@ != "access-log"@,
        "log-fields"@ != "log-query"@,
        "log-fields"@ != "log-client"@,
        "log-fields"@ != "log-referer"@,
{
    reveal_strlit("log-fields");
    reveal_strlit("script");
    assert("log-fields"@.len() != "script"@.len());
    reveal_strlit("request-body");
    assert("log-fields"@.len() != "request-body"@.len());
    reveal_strlit("request-body-timeout");
    assert("log-fields"@.len() != "request-body-timeout"@.len());
    reveal_strlit("rolled-back-revision");
    assert("log-fields"@.len() != "rolled-back-revision"@.len());
    reveal_strlit("https-port");
    assert("log-fields"@[0] != "https-port"@[0]);
    reveal_strlit("proxy-connect-timeout");
    assert("log-fields"@.len() != "proxy-connect-timeout"@.len());
    reveal_strlit("proxy-read-timeout");
    assert("log-fields"@.len() != "proxy-read-timeout"@.len());
    reveal_strlit("proxy-send-timeout");
    assert("log-fields"@.len() != "proxy-send-timeout"@.len());
    reveal_strlit("keepalive-timeout");
    assert("log-fields"@.len() != "keepalive-timeout"@.len());
    reveal_strlit("log-format");
    assert("log-fields"@[5] != "log-format"@[5]);
    reveal_strlit("log-redact");
    assert("log-fields"@[4] != "log-redact"@[4]);
    reveal_strlit("access-log");
    assert("log-fields"@[0] != "access-log"@[0]);
    reveal_strlit("log-query");
    assert("log-fields"@.len() != "log-query"@.len());
    reveal_strlit("log-client");
    assert("log-fields"@[4] != "log-client"@[4]);
    reveal_strlit("log-referer");
    assert("log-fields"@.len() != "log-referer"@.len());
}

proof fn lemma_is_access_log()
    ensures
        !silent_key("access-log"@),
        !time_key("access-log"@),
        log_key("access-log"@),
        "access-log"@ != "log-format"@,
        "access-log"@ != "log-redact"@,
        "access-log"@ != "log-fields"@,
        "access-log"@ != "log-query"@,
        "access-log"@ != "log-client"@,
        "access-log"@ != "log-referer"@,
{
    reveal_strlit("access-log");
    reveal_strlit("script");
    assert("access-log"@.len() != "script"@.len());
    reveal_strlit("request-body");
    assert("access-log"@.len() != "request-body"@.len());
    reveal_strlit("request-body-timeout");
    assert("access-log"@.len() != "request-body-timeout"@.len());
    reveal_strlit("rolled-back-revision");
    assert("access-log"@.len() != "rolled-back-revision"@.len());
    reveal_strlit("https-port");
    assert("access-log"@[0] != "https-port"@[0]);
    reveal_strlit("proxy-connect-timeout");
    assert("access-log"@.len() != "proxy-connect-timeout"@.len());
    reveal_strlit("proxy-read-timeout");
    assert("access-log"@.len() != "proxy-read-timeout"@.len());
    reveal_strlit("proxy-send-timeout");
    assert("access-log"@.len() != "proxy-send-timeout"@.len());
    reveal_strlit("keepalive-timeout");
    assert("access-log"@.len() != "keepalive-timeout"@.len());
    reveal_strlit("log-format");
    assert("access-log"@[0] != "log-format"@[0]);
    reveal_strlit("log-redact");
    assert("access-log"@[0] != "log-redact"@[0]);
    reveal_strlit("log-fields");
    assert("access-log"@[0] != "log-fields"@[0]);
    reveal_strlit("log-query");
    assert("access-log"@.len() != "log-query"@.len());
    reveal_strlit("log-client");
    assert("access-log"@[0] != "log-client"@[0]);
    reveal_strlit("log-referer");
    assert("access-log"@.len() != "log-referer"@.len());
}

proof fn lemma_is_log_query()
    ensures
        !silent_key("log-query"@),
        !time_key("log-query"@),
        log_key("log-query"@),
        "log-query"@ != "log-format"@,
        "log-query"@ != "log-redact"@,
        "log-query"@ != "log-fields"@,
        "log-query"@ != "access-log"@,
        "log-query"@ != "log-client"@,
        "log-query"@ != "log-referer"@,
{
    reveal_strlit("log-query");
    reveal_strlit("script");
    assert("log-query"@.len() != "script"@.len());
    reveal_strlit("request-body");
    assert("log-query"@.len() != "request-body"@.len());
    reveal_strlit("request-body-timeout");
    assert("log-query"@.len() != "request-body-timeout"@.len());
    reveal_strlit("rolled-back-revision");
    assert("log-query"@.len() != "rolled-back-revision"@.len());
    reveal_strlit("https-port");
    assert("log-query"@.len() != "https-port"@.len());
    reveal_strlit("proxy-connect-timeout");
    assert("log-query"@.len() != "proxy-connect-timeout"@.len());
    reveal_strlit("proxy-read-timeout");
    assert("log-query"@.len() != "proxy-read-timeout"@.len());
    reveal_strlit("proxy-send-timeout");
    assert("log-query"@.len() != "proxy-send-timeout"@.len());
    reveal_strlit("keepalive-timeout");
    assert("log-query"@.len() != "keepalive-timeout"@.len());
    reveal_strlit("log-format");
    assert("log-query"@.len() != "log-format"@.len());
    reveal_strlit("log-redact");
    assert("log-query"@.len() != "log-redact"@.len());
    reveal_strlit("log-fields");
    assert("log-query"@.len() != "log-fields"@.len());
    reveal_strlit("access-log");
    assert("log-query"@.len() != "access-log"@.len());
    reveal_strlit("log-client");
    assert("log-query"@.len() != "log-client"@.len());
    reveal_strlit("log-referer");
    assert("log-query"@.len() != "log-referer"@.len());
}

proof fn lemma_is_log_client()
    ensures
        !silent_key("log-client"@),
        !time_key("log-client"@),
        log_key("log-client"@),
        "log-client"@ != "log-format"@,
        "log-client"@ != "log-redact"@,
        "log-client"@ != "log-fields"@,
        "log-client"@ != "access-log"@,
        "log-client"@ != "log-query"@,
        "log-client"@ != "log-referer"@,
{
    reveal_strlit("log-client");
    reveal_strlit("script");
    assert("log-client"@.len() != "script"@.len());
    reveal_strlit("request-body");
    assert("log-client"@.len() != "request-body"@.len());
    reveal_strlit("request-body-timeout");
    assert("log-client"@.len() != "request-body-timeout"@.len());
    reveal_strlit("rolled-back-revision");
    assert("log-client"@.len() != "rolled-back-revision"@.len());
    reveal_strlit("https-port");
    assert("log-client"@[0] != "https-port"@[0]);
    reveal_strlit("proxy-connect-timeout");
    assert("log-client"@.len() != "proxy-connect-timeout"@.len());
    reveal_strlit("proxy-read-timeout");
    assert("log-client"@.len() != "proxy-read-timeout"@.len());
    reveal_strlit("proxy-send-timeout");
    assert("log-client"@.len() != "proxy-send-timeout"@.len());
    reveal_strlit("keepalive-timeout");
    assert("log-client"@.len() != "keepalive-timeout"@.len());
    reveal_strlit("log-format");
    assert("log-client"@[4] != "log-format"@[4]);
    reveal_strlit("log-redact");
    assert("log-client"@[4] != "log-redact"@[4]);
    reveal_strlit("log-fields");
    assert("log-client"@[4] != "log-fields"@[4]);
    reveal_strlit("access-log");
    assert("log-client"@[0] != "access-log"@[0]);
    reveal_strlit("log-query");
    assert("log-client"@.len() != "log-query"@.len());
    reveal_strlit("log-referer");
    assert("log-client"@.len() != "log-referer"@.len());
}

proof fn lemma_is_log_referer()
    ensures
        !silent_key("log-referer"@),
        !time_key("log-referer"@),
        log_key("log-referer"@),
        "log-referer"@ != "log-format"@,
        "log-referer"@ != "log-redact"@,
        "log-referer"@ != "log-fields"@,
        "log-referer"@ != "access-log"@,
        "log-referer"@ != "log-query"@,
        "log-referer"@ != "log-client"@,
{
    reveal_strlit("log-referer");
    reveal_strlit("script");
    assert("log-referer"@.len() != "script"@.len());
    reveal_strlit("request-body");
    assert("log-referer"@.len() != "request-body"@.len());
    reveal_strlit("request-body-timeout");
    assert("log-referer"@.len() != "request-body-timeout"@.len());
    reveal_strlit("rolled-back-revision");
    assert("log-referer"@.len() != "rolled-back-revision"@.len());
    reveal_strlit("https-port");
    assert("log-referer"@.len() != "https-port"@.len());
    reveal_strlit("proxy-connect-timeout");
    assert("log-referer"@.len() != "proxy-connect-timeout"@.len());
    reveal_strlit("proxy-read-timeout");
    assert("log-referer"@.len() != "proxy-read-timeout"@.len());
    reveal_strlit("proxy-send-timeout");
    assert("log-referer"@.len() != "proxy-send-timeout"@.len());
    reveal_strlit("keepalive-timeout");
    assert("log-referer"@.len() != "keepalive-timeout"@.len());
    reveal_strlit("log-format");
    assert("log-referer"@.len() != "log-format"@.len());
    reveal_strlit("log-redact");
    assert("log-referer"@.len() != "log-redact"@.len());
    reveal_strlit("log-fields");
    assert("log-referer"@.len() != "log-fields"@.len());
    reveal_strlit("access-log");
    assert("log-referer"@.len() != "access-log"@.len());
    reveal_strlit("log-query");
    assert("log-referer"@.len() != "log-query"@.len());
    reveal_strlit("log-client");
    assert("log-referer"@.len() != "log-client"@.len());
}

proof fn lemma_is_ssl_redirect()
    ensures
        !silent_key("ssl-redirect"@),
        !time_key("ssl-redirect"@),
        !log_key("ssl-redirect"@),
        transport_key("ssl-redirect"@),
        "ssl-redirect"@ != "backend-protocol"@,
        "ssl-redirect"@ != "upstream-http-version"@,
        "ssl-redirect"@ != "upstream-server-name"@,
{
    reveal_strlit("ssl-redirect");
    reveal_strlit("script");
    assert("ssl-redirect"@.len() != "script"@.len());
    reveal_strlit("request-body");
    assert("ssl-redirect"@[0] != "request-body"@[0]);
    reveal_strlit("request-body-timeout");
    assert("ssl-redirect"@.len() != "request-body-timeout"@.len());
    reveal_strlit("rolled-back-revision");
    assert("ssl-redirect"@.len() != "rolled-back-revision"@.len());
    reveal_strlit("https-port");
    assert("ssl-redirect"@.len() != "https-port"@.len());
    reveal_strlit("proxy-connect-timeout");
    assert("ssl-redirect"@.len() != "proxy-connect-timeout"@.len());
    reveal_strlit("proxy-read-timeout");
    assert("ssl-redirect"@.len() != "proxy-read-timeout"@.len());
    reveal_strlit("proxy-send-timeout");
    assert("ssl-redirect"@.len() != "proxy-send-timeout"@.len());
    reveal_strlit("keepalive-timeout");
    assert("ssl-redirect"@.len() != "keepalive-timeout"@.len());
    reveal_strlit("log-format");
    assert("ssl-redirect"@.len() != "log-format"@.len());
    reveal_strlit("log-redact");
    assert("ssl-redirect"@.len() != "log-redact"@.len());
    reveal_strlit("log-fields");
    assert("ssl-redirect"@.len() != "log-fields"@.len());
    reveal_strlit("access-log");
    assert("ssl-redirect"@.len() != "access-log"@.len());
    reveal_strlit("log-query");
    assert("ssl-redirect"@.len() != "log-query"@.len());
    reveal_strlit("log-client");
    assert("ssl-redirect"@.len() != "log-client"@.len());
    reveal_strlit("log-referer");
    assert("ssl-redirect"@.len() != "log-referer"@.len());
    reveal_strlit("backend-protocol");
    assert("ssl-redirect"@.len() != "backend-protocol"@.len());
    reveal_strlit("upstream-http-version");
    assert("ssl-redirect"@.len() != "upstream-http-version"@.len());
    reveal_strlit("upstream-server-name");
    assert("ssl-redirect"@.len() != "upstream-server-name"@.len());
}

proof fn lemma_is_backend_protocol()
    ensures
        !silent_key("backend-protocol"@),
        !time_key("backend-protocol"@),
        !log_key("backend-protocol"@),
        transport_key("backend-protocol"@),
        "backend-protocol"@ != "ssl-redirect"@,
        "backend-protocol"@ != "upstream-http-version"@,
        "backend-protocol"@ != "upstream-server-name"@,
{
    reveal_strlit("backend-protocol");
    reveal_strlit("script");
    assert("backend-protocol"@.len() != "script"@.len());
    reveal_strlit("request-body");
    assert("backend-protocol"@.len() != "request-body"@.len());
    reveal_strlit("request-body-timeout");
    assert("backend-protocol"@.len() != "request-body-timeout"@.len());
    reveal_strlit("rolled-back-revision");
    assert("backend-protocol"@.len() != "rolled-back-revision"@.len());
    reveal_strlit("https-port");
    assert("backend-protocol"@.len() != "https-port"@.len());
    reveal_strlit("proxy-connect-timeout");
    assert("backend-protocol"@.len() != "proxy-connect-timeout"@.len());
    reveal_strlit("proxy-read-timeout");
    assert("backend-protocol"@.len() != "proxy-read-timeout"@.len());
    reveal_strlit("proxy-send-timeout");
    assert("backend-protocol"@.len() != "proxy-send-timeout"@.len());
    reveal_strlit("keepalive-timeout");
    assert("backend-protocol"@.len() != "keepalive-timeout"@.len());
    reveal_strlit("log-format");
    assert("backend-protocol"@.len() != "log-format"@.len());
    reveal_strlit("log-redact");
    assert("backend-protocol"@.len() != "log-redact"@.len());
    reveal_strlit("log-fields");
    assert("backend-protocol"@.len() != "log-fields"@.len());
    reveal_strlit("access-log");
    assert("backend-protocol"@.len() != "access-log"@.len());
    reveal_strlit("log-query");
    assert("backend-protocol"@.len() != "log-query"@.len());
    reveal_strlit("log-client");
    assert("backend-protocol"@.len() != "log-client"@.len());
    reveal_strlit("log-referer");
    assert("backend-protocol"@.len() != "log-referer"@.len());
    reveal_strlit("ssl-redirect");
    assert("backend-protocol"@.len() != "ssl-redirect"@.len());
    reveal_strlit("upstream-http-version");
    assert("backend-protocol"@.len() != "upstream-http-version"@.len());
    reveal_strlit("upstream-server-name");
    assert("backend-protocol"@.len() != "upstream-server-name"@.len());
}

proof fn lemma_is_upstream_http_version()
    ensures
        !silent_key("upstream-http-version"@),
        !time_key("upstream-http-version"@),
        !log_key("upstream-http-version"@),
        transport_key("upstream-http-version"@),
        "upstream-http-version"@ != "ssl-redirect"@,
        "upstream-http-version"@ != "backend-protocol"@,
        "upstream-http-version"@ != "upstream-server-name"@,
{
    reveal_strlit("upstream-http-version");
    reveal_strlit("script");
    assert("upstream-http-version"@.len() != "script"@.len());
    reveal_strlit("request-body");
    assert("upstream-http-version"@.len() != "request-body"@.len());
    reveal_strlit("request-body-timeout");
    assert("upstream-http-version"@.len() != "request-body-timeout"@.len());
    reveal_strlit("rolled-back-revision");
    assert("upstream-http-version"@.len() != "rolled-back-revision"@.len());
    reveal_strlit("https-port");
    assert("upstream-http-version"@.len() != "https-port"@.len());
    reveal_strlit("proxy-connect-timeout");
    assert("upstream-http-version"@[0] != "proxy-connect-timeout"@[0]);
    reveal_strlit("proxy-read-timeout");
    assert("upstream-http-version"@.len() != "proxy-read-timeout"@.len());
    reveal_strlit("proxy-send-timeout");
    assert("upstream-http-version"@.len() != "proxy-send-timeout"@.len());
    reveal_strlit("keepalive-timeout");
    assert("upstream-http-version"@.len() != "keepalive-timeout"@.len());
    reveal_strlit("log-format");
    assert("upstream-http-version"@.len() != "log-format"@.len());
    reveal_strlit("log-redact");
    assert("upstream-http-version"@.len() != "log-redact"@.len());
    reveal_strlit("log-fields");
    assert("upstream-http-version"@.len() != "log-fields"@.len());
    reveal_strlit("access-log");
    assert("upstream-http-version"@.len() != "access-log"@.len());
    reveal_strlit("log-query");
    assert("upstream-http-version"@.len() != "log-query"@.len());
    reveal_strlit("log-client");
    assert("upstream-http-version"@.len() != "log-client"@.len());
    reveal_strlit("log-referer");
    assert("upstream-http-version"@.len() != "log-referer"@.len());
    reveal_strlit("ssl-redirect");
    assert("upstream-http-version"@.len() != "ssl-redirect"@.len());
    reveal_strlit("backend-protocol");
    assert("upstream-http-version"@.len() != "backend-protocol"@.len());
    reveal_strlit("upstream-server-name");
    assert("upstream-http-version"@.len() != "upstream-server-name"@.len());
}

proof fn lemma_is_upstream_server_name()
    ensures
        !silent_key("upstream-server-name"@),
        !time_key("upstream-server-name"@),
        !log_key("upstream-server-name"@),
        transport_key("upstream-server-name"@),
        "upstream-server-name"@ != "ssl-redirect"@,
        "upstream-server-name"@ != "backend-protocol"@,
        "upstream-server-name"@ != "upstream-http-version"@,
{
    reveal_strlit("upstream-server-name");
    reveal_strlit("script");
    assert("upstream-server-name"@.len() != "script"@.len());
    reveal_strlit("request-body");
    assert("upstream-server-name"@.len() != "request-body"@.len());
    reveal_strlit("request-body-timeout");
    assert("upstream-server-name"@[0] != "request-body-timeout"@[0]);
    reveal_strlit("rolled-back-revision");
    assert("upstream-server-name"@[0] != "rolled-back-revision"@[0]);
    reveal_strlit("https-port");
    assert("upstream-server-name"@.len() != "https-port"@.len());
    reveal_strlit("proxy-connect-timeout");
    assert("upstream-server-name"@.len() != "proxy-connect-timeout"@.len());
    reveal_strlit("proxy-read-timeout");
    assert("upstream-server-name"@.len() != "proxy-read-timeout"@.len());
    reveal_strlit("proxy-send-timeout");
    assert("upstream-server-name"@.len() != "proxy-send-timeout"@.len());
    reveal_strlit("keepalive-timeout");
    assert("upstream-server-name"@.len() != "keepalive-timeout"@.len());
    reveal_strlit("log-format");
    assert("upstream-server-name"@.len() != "log-format"@.len());
    reveal_strlit("log-redact");
    assert("upstream-server-name"@.len() != "log-redact"@.len());
    reveal_strlit("log-fields");
    assert("upstream-server-name"@.len() != "log-fields"@.len());
    reveal_strlit("access-log");
    assert("upstream-server-name"@.len() != "access-log"@.len());
    reveal_strlit("log-query");
    assert("upstream-server-name"@.len() != "log-query"@.len());
    reveal_strlit("log-client");
    assert("upstream-server-name"@.len() != "log-client"@.len());
    reveal_strlit("log-referer");
    assert("upstream-server-name"@.len() != "log-referer"@.len());
    reveal_strlit("ssl-redirect");
    assert("upstream-server-name"@.len() != "ssl-redirect"@.len());
    reveal_strlit("backend-protocol");
    assert("upstream-server-name"@.len() != "backend-protocol"@.len());
    reveal_strlit("upstream-http-version");
    assert("upstream-server-name"@.len() != "upstream-http-version"@.len());
}

proof fn lemma_is_jwt_algorithm()
    ensures
        !silent_key("jwt-algorithm"@),
        !time_key("jwt-algorithm"@),
        !log_key("jwt-algorithm"@),
        !transport_key("jwt-algorithm"@),
        trust_key("jwt-algorithm"@),
        "jwt-algorithm"@ != "traffic-policy"@,
        "jwt-algorithm"@ != "jwt-issuer"@,
        "jwt-algorithm"@ != "jwt-audience"@,
        "jwt-algorithm"@ != "verify-client"@,
        "jwt-algorithm"@ != "auth-service"@,
        "jwt-algorithm"@ != "auth-timeout"@,
        "jwt-algorithm"@ != "auth-response-headers"@,
        "jwt-algorithm"@ != "upstream-ca-secret"@,
        "jwt-algorithm"@ != "jwt-secret"@,
        "jwt-algorithm"@ != "client-ca-secret"@,
        "jwt-algorithm"@ != "upstream-client-secret"@,
{
    reveal_strlit("jwt-algorithm");
    reveal_strlit("script");
    assert("jwt-algorithm"@.len() != "script"@.len());
    reveal_strlit("request-body");
    assert("jwt-algorithm"@.len() != "request-body"@.len());
    reveal_strlit("request-body-timeout");
    assert("jwt-algorithm"@.len() != "request-body-timeout"@.len());
    reveal_strlit("rolled-back-revision");
    assert("jwt-algorithm"@.len() != "rolled-back-revision"@.len());
    reveal_strlit("https-port");
    assert("jwt-algorithm"@.len() != "https-port"@.len());
    reveal_strlit("proxy-connect-timeout");
    assert("jwt-algorithm"@.len() != "proxy-connect-timeout"@.len());
    reveal_strlit("proxy-read-timeout");
    assert("jwt-algorithm"@.len() != "proxy-read-timeout"@.len());
    reveal_strlit("proxy-send-timeout");
    assert("jwt-algorithm"@.len() != "proxy-send-timeout"@.len());
    reveal_strlit("keepalive-timeout");
    assert("jwt-algorithm"@.len() != "keepalive-timeout"@.len());
    reveal_strlit("log-format");
    assert("jwt-algorithm"@.len() != "log-format"@.len());
    reveal_strlit("log-redact");
    assert("jwt-algorithm"@.len() != "log-redact"@.len());
    reveal_strlit("log-fields");
    assert("jwt-algorithm"@.len() != "log-fields"@.len());
    reveal_strlit("access-log");
    assert("jwt-algorithm"@.len() != "access-log"@.len());
    reveal_strlit("log-query");
    assert("jwt-algorithm"@.len() != "log-query"@.len());
    reveal_strlit("log-client");
    assert("jwt-algorithm"@.len() != "log-client"@.len());
    reveal_strlit("log-referer");
    assert("jwt-algorithm"@.len() != "log-referer"@.len());
    reveal_strlit("ssl-redirect");
    assert("jwt-algorithm"@.len() != "ssl-redirect"@.len());
    reveal_strlit("backend-protocol");
    assert("jwt-algorithm"@.len() != "backend-protocol"@.len());
    reveal_strlit("upstream-http-version");
    assert("jwt-algorithm"@.len() != "upstream-http-version"@.len());
    reveal_strlit("upstream-server-name");
    assert("jwt-algorithm"@.len() != "upstream-server-name"@.len());
    reveal_strlit("traffic-policy");
    assert("jwt-algorithm"@.len() != "traffic-policy"@.len());
    reveal_strlit("jwt-issuer");
    assert("jwt-algorithm"@.len() != "jwt-issuer"@.len());
    reveal_strlit("jwt-audience");
    assert("jwt-algorithm"@.len() != "jwt-audience"@.len());
    reveal_strlit("verify-client");
    assert("jwt-algorithm"@[0] != "verify-client"@[0]);
    reveal_strlit("auth-service");
    assert("jwt-algorithm"@.len() != "auth-service"@.len());
    reveal_strlit("auth-timeout");
    assert("jwt-algorithm"@.len() != "auth-timeout"@.len());
    reveal_strlit("auth-response-headers");
    assert("jwt-algorithm"@.len() != "auth-response-headers"@.len());
    reveal_strlit("upstream-ca-secret");
    assert("jwt-algorithm"@.len() != "upstream-ca-secret"@.len());
    reveal_strlit("jwt-secret");
    assert("jwt-algorithm"@.len() != "jwt-secret"@.len());
    reveal_strlit("client-ca-secret");
    assert("jwt-algorithm"@.len() != "client-ca-secret"@.len());
    reveal_strlit("upstream-client-secret");
    assert("jwt-algorithm"@.len() != "upstream-client-secret"@.len());
}

proof fn lemma_is_verify_client()
    ensures
        !silent_key("verify-client"@),
        !time_key("verify-client"@),
        !log_key("verify-client"@),
        !transport_key("verify-client"@),
        trust_key("verify-client"@),
        "verify-client"@ != "traffic-policy"@,
        "verify-client"@ != "jwt-issuer"@,
        "verify-client"@ != "jwt-audience"@,
        "verify-client"@ != "jwt-algorithm"@,
        "verify-client"@ != "auth-service"@,
        "verify-client"@ != "auth-timeout"@,
        "verify-client"@ != "auth-response-headers"@,
        "verify-client"@ != "upstream-ca-secret"@,
        "verify-client"@ != "jwt-secret"@,
        "verify-client"@ != "client-ca-secret"@,
        "verify-client"@ != "upstream-client-secret"@,
{
    reveal_strlit("verify-client");
    reveal_strlit("script");
    assert("verify-client"@.len() != "script"@.len());
    reveal_strlit("request-body");
    assert("verify-client"@.len() != "request-body"@.len());
    reveal_strlit("request-body-timeout");
    assert("verify-client"@.len() != "request-body-timeout"@.len());
    reveal_strlit("rolled-back-revision");
    assert("verify-client"@.len() != "rolled-back-revision"@.len());
    reveal_strlit("https-port");
    assert("verify-client"@.len() != "https-port"@.len());
    reveal_strlit("proxy-connect-timeout");
    assert("verify-client"@.len() != "proxy-connect-timeout"@.len());
    reveal_strlit("proxy-read-timeout");
    assert("verify-client"@.len() != "proxy-read-timeout"@.len());
    reveal_strlit("proxy-send-timeout");
    assert("verify-client"@.len() != "proxy-send-timeout"@.len());
    reveal_strlit("keepalive-timeout");
    assert("verify-client"@.len() != "keepalive-timeout"@.len());
    reveal_strlit("log-format");
    assert("verify-client"@.len() != "log-format"@.len());
    reveal_strlit("log-redact");
    assert("verify-client"@.len() != "log-redact"@.len());
    reveal_strlit("log-fields");
    assert("verify-client"@.len() != "log-fields"@.len());
    reveal_strlit("access-log");
    assert("verify-client"@.len() != "access-log"@.len());
    reveal_strlit("log-query");
    assert("verify-client"@.len() != "log-query"@.len());
    reveal_strlit("log-client");
    assert("verify-client"@.len() != "log-client"@.len());
    reveal_strlit("log-referer");
    assert("verify-client"@.len() != "log-referer"@.len());
    reveal_strlit("ssl-redirect");
    assert("verify-client"@.len() != "ssl-redirect"@.len());
    reveal_strlit("backend-protocol");
    assert("verify-client"@.len() != "backend-protocol"@.len());
    reveal_strlit("upstream-http-version");
    assert("verify-client"@.len() != "upstream-http-version"@.len());
    reveal_strlit("upstream-server-name");
    assert("verify-client"@.len() != "upstream-server-name"@.len());
    reveal_strlit("traffic-policy");
    assert("verify-client"@.len() != "traffic-policy"@.len());
    reveal_strlit("jwt-issuer");
    assert("verify-client"@.len() != "jwt-issuer"@.len());
    reveal_strlit("jwt-audience");
    assert("verify-client"@.len() != "jwt-audience"@.len());
    reveal_strlit("jwt-algorithm");
    assert("verify-client"@[0] != "jwt-algorithm"@[0]);
    reveal_strlit("auth-service");
    assert("verify-client"@.len() != "auth-service"@.len());
    reveal_strlit("auth-timeout");
    assert("verify-client"@.len() != "auth-timeout"@.len());
    reveal_strlit("auth-response-headers");
    assert("verify-client"@.len() != "auth-response-headers"@.len());
    reveal_strlit("upstream-ca-secret");
    assert("verify-client"@.len() != "upstream-ca-secret"@.len());
    reveal_strlit("jwt-secret");
    assert("verify-client"@.len() != "jwt-secret"@.len());
    reveal_strlit("client-ca-secret");
    assert("verify-client"@.len() != "client-ca-secret"@.len());
    reveal_strlit("upstream-client-secret");
    assert("verify-client"@.len() != "upstream-client-secret"@.len());
}

proof fn lemma_is_client_max_body_size()
    ensures
        !silent_key("client-max-body-size"@),
        !time_key("client-max-body-size"@),
        !log_key("client-max-body-size"@),
        !transport_key("client-max-body-size"@),
        !trust_key("client-max-body-size"@),
        "client-max-body-size"@ != "balance"@,
        "client-max-body-size"@ != "backend-max-inflight"@,
        "client-max-body-size"@ != "health-path"@,
        "client-max-body-size"@ != "limit-rate"@,
        "client-max-body-size"@ != "limit-conn"@,
        "client-max-body-size"@ != "allow-cidrs"@,
        "client-max-body-size"@ != "compression"@,
{
    reveal_strlit("client-max-body-size");
    reveal_strlit("script");
    assert("client-max-body-size"@.len() != "script"@.len());
    reveal_strlit("request-body");
    assert("client-max-body-size"@.len() != "request-body"@.len());
    reveal_strlit("request-body-timeout");
    assert("client-max-body-size"@[0] != "request-body-timeout"@[0]);
    reveal_strlit("rolled-back-revision");
    assert("client-max-body-size"@[0] != "rolled-back-revision"@[0]);
    reveal_strlit("https-port");
    assert("client-max-body-size"@.len() != "https-port"@.len());
    reveal_strlit("proxy-connect-timeout");
    assert("client-max-body-size"@.len() != "proxy-connect-timeout"@.len());
    reveal_strlit("proxy-read-timeout");
    assert("client-max-body-size"@.len() != "proxy-read-timeout"@.len());
    reveal_strlit("proxy-send-timeout");
    assert("client-max-body-size"@.len() != "proxy-send-timeout"@.len());
    reveal_strlit("keepalive-timeout");
    assert("client-max-body-size"@.len() != "keepalive-timeout"@.len());
    reveal_strlit("log-format");
    assert("client-max-body-size"@.len() != "log-format"@.len());
    reveal_strlit("log-redact");
    assert("client-max-body-size"@.len() != "log-redact"@.len());
    reveal_strlit("log-fields");
    assert("client-max-body-size"@.len() != "log-fields"@.len());
    reveal_strlit("access-log");
    assert("client-max-body-size"@.len() != "access-log"@.len());
    reveal_strlit("log-query");
    assert("client-max-body-size"@.len() != "log-query"@.len());
    reveal_strlit("log-client");
    assert("client-max-body-size"@.len() != "log-client"@.len());
    reveal_strlit("log-referer");
    assert("client-max-body-size"@.len() != "log-referer"@.len());
    reveal_strlit("ssl-redirect");
    assert("client-max-body-size"@.len() != "ssl-redirect"@.len());
    reveal_strlit("backend-protocol");
    assert("client-max-body-size"@.len() != "backend-protocol"@.len());
    reveal_strlit("upstream-http-version");
    assert("client-max-body-size"@.len() != "upstream-http-version"@.len());
    reveal_strlit("upstream-server-name");
    assert("client-max-body-size"@[0] != "upstream-server-name"@[0]);
    reveal_strlit("traffic-policy");
    assert("client-max-body-size"@.len() != "traffic-policy"@.len());
    reveal_strlit("jwt-issuer");
    assert("client-max-body-size"@.len() != "jwt-issuer"@.len());
    reveal_strlit("jwt-audience");
    assert("client-max-body-size"@.len() != "jwt-audience"@.len());
    reveal_strlit("jwt-algorithm");
    assert("client-max-body-size"@.len() != "jwt-algorithm"@.len());
    reveal_strlit("verify-client");
    assert("client-max-body-size"@.len() != "verify-client"@.len());
    reveal_strlit("auth-service");
    assert("client-max-body-size"@.len() != "auth-service"@.len());
    reveal_strlit("auth-timeout");
    assert("client-max-body-size"@.len() != "auth-timeout"@.len());
    reveal_strlit("auth-response-headers");
    assert("client-max-body-size"@.len() != "auth-response-headers"@.len());
    reveal_strlit("upstream-ca-secret");
    assert("client-max-body-size"@.len() != "upstream-ca-secret"@.len());
    reveal_strlit("jwt-secret");
    assert("client-max-body-size"@.len() != "jwt-secret"@.len());
    reveal_strlit("client-ca-secret");
    assert("client-max-body-size"@.len() != "client-ca-secret"@.len());
    reveal_strlit("upstream-client-secret");
    assert("client-max-body-size"@.len() != "upstream-client-secret"@.len());
    reveal_strlit("balance");
    assert("client-max-body-size"@.len() != "balance"@.len());
    reveal_strlit("backend-max-inflight");
    assert("client-max-body-size"@[0] != "backend-max-inflight"@[0]);
    reveal_strlit("health-path");
    assert("client-max-body-size"@.len() != "health-path"@.len());
    reveal_strlit("limit-rate");
    assert("client-max-body-size"@.len() != "limit-rate"@.len());
    reveal_strlit("limit-conn");
    assert("client-max-body-size"@.len() != "limit-conn"@.len());
    reveal_strlit("allow-cidrs");
    assert("client-max-body-size"@.len() != "allow-cidrs"@.len());
    reveal_strlit("compression");
    assert("client-max-body-size"@.len() != "compression"@.len());
}

proof fn lemma_is_balance()
    ensures
        !silent_key("balance"@),
        !time_key("balance"@),
        !log_key("balance"@),
        !transport_key("balance"@),
        !trust_key("balance"@),
        "balance"@ != "client-max-body-size"@,
        "balance"@ != "backend-max-inflight"@,
        "balance"@ != "health-path"@,
        "balance"@ != "limit-rate"@,
        "balance"@ != "limit-conn"@,
        "balance"@ != "allow-cidrs"@,
        "balance"@ != "compression"@,
{
    reveal_strlit("balance");
    reveal_strlit("script");
    assert("balance"@.len() != "script"@.len());
    reveal_strlit("request-body");
    assert("balance"@.len() != "request-body"@.len());
    reveal_strlit("request-body-timeout");
    assert("balance"@.len() != "request-body-timeout"@.len());
    reveal_strlit("rolled-back-revision");
    assert("balance"@.len() != "rolled-back-revision"@.len());
    reveal_strlit("https-port");
    assert("balance"@.len() != "https-port"@.len());
    reveal_strlit("proxy-connect-timeout");
    assert("balance"@.len() != "proxy-connect-timeout"@.len());
    reveal_strlit("proxy-read-timeout");
    assert("balance"@.len() != "proxy-read-timeout"@.len());
    reveal_strlit("proxy-send-timeout");
    assert("balance"@.len() != "proxy-send-timeout"@.len());
    reveal_strlit("keepalive-timeout");
    assert("balance"@.len() != "keepalive-timeout"@.len());
    reveal_strlit("log-format");
    assert("balance"@.len() != "log-format"@.len());
    reveal_strlit("log-redact");
    assert("balance"@.len() != "log-redact"@.len());
    reveal_strlit("log-fields");
    assert("balance"@.len() != "log-fields"@.len());
    reveal_strlit("access-log");
    assert("balance"@.len() != "access-log"@.len());
    reveal_strlit("log-query");
    assert("balance"@.len() != "log-query"@.len());
    reveal_strlit("log-client");
    assert("balance"@.len() != "log-client"@.len());
    reveal_strlit("log-referer");
    assert("balance"@.len() != "log-referer"@.len());
    reveal_strlit("ssl-redirect");
    assert("balance"@.len() != "ssl-redirect"@.len());
    reveal_strlit("backend-protocol");
    assert("balance"@.len() != "backend-protocol"@.len());
    reveal_strlit("upstream-http-version");
    assert("balance"@.len() != "upstream-http-version"@.len());
    reveal_strlit("upstream-server-name");
    assert("balance"@.len() != "upstream-server-name"@.len());
    reveal_strlit("traffic-policy");
    assert("balance"@.len() != "traffic-policy"@.len());
    reveal_strlit("jwt-issuer");
    assert("balance"@.len() != "jwt-issuer"@.len());
    reveal_strlit("jwt-audience");
    assert("balance"@.len() != "jwt-audience"@.len());
    reveal_strlit("jwt-algorithm");
    assert("balance"@.len() != "jwt-algorithm"@.len());
    reveal_strlit("verify-client");
    assert("balance"@.len() != "verify-client"@.len());
    reveal_strlit("auth-service");
    assert("balance"@.len() != "auth-service"@.len());
    reveal_strlit("auth-timeout");
    assert("balance"@.len() != "auth-timeout"@.len());
    reveal_strlit("auth-response-headers");
    assert("balance"@.len() != "auth-response-headers"@.len());
    reveal_strlit("upstream-ca-secret");
    assert("balance"@.len() != "upstream-ca-secret"@.len());
    reveal_strlit("jwt-secret");
    assert("balance"@.len() != "jwt-secret"@.len());
    reveal_strlit("client-ca-secret");
    assert("balance"@.len() != "client-ca-secret"@.len());
    reveal_strlit("upstream-client-secret");
    assert("balance"@.len() != "upstream-client-secret"@.len());
    reveal_strlit("client-max-body-size");
    assert("balance"@.len() != "client-max-body-size"@.len());
    reveal_strlit("backend-max-inflight");
    assert("balance"@.len() != "backend-max-inflight"@.len());
    reveal_strlit("health-path");
    assert("balance"@.len() != "health-path"@.len());
    reveal_strlit("limit-rate");
    assert("balance"@.len() != "limit-rate"@.len());
    reveal_strlit("limit-conn");
    assert("balance"@.len() != "limit-conn"@.len());
    reveal_strlit("allow-cidrs");
    assert("balance"@.len() != "allow-cidrs"@.len());
    reveal_strlit("compression");
    assert("balance"@.len() != "compression"@.len());
}

proof fn lemma_is_backend_max_inflight()
    ensures
        !silent_key("backend-max-inflight"@),
        !time_key("backend-max-inflight"@),
        !log_key("backend-max-inflight"@),
        !transport_key("backend-max-inflight"@),
        !trust_key("backend-max-inflight"@),
        "backend-max-inflight"@ != "client-max-body-size"@,
        "backend-max-inflight"@ != "balance"@,
        "backend-max-inflight"@ != "health-path"@,
        "backend-max-inflight"@ != "limit-rate"@,
        "backend-max-inflight"@ != "limit-conn"@,
        "backend-max-inflight"@ != "allow-cidrs"@,
        "backend-max-inflight"@ != "compression"@,
{
    reveal_strlit("backend-max-inflight");
    reveal_strlit("script");
    assert("backend-max-inflight"@.len() != "script"@.len());
    reveal_strlit("request-body");
    assert("backend-max-inflight"@.len() != "request-body"@.len());
    reveal_strlit("request-body-timeout");
    assert("backend-max-inflight"@[0] != "request-body-timeout"@[0]);
    reveal_strlit("rolled-back-revision");
    assert("backend-max-inflight"@[0] != "rolled-back-revision"@[0]);
    reveal_strlit("https-port");
    assert("backend-max-inflight"@.len() != "https-port"@.len());
    reveal_strlit("proxy-connect-timeout");
    assert("backend-max-inflight"@.len() != "proxy-connect-timeout"@.len());
    reveal_strlit("proxy-read-timeout");
    assert("backend-max-inflight"@.len() != "proxy-read-timeout"@.len());
    reveal_strlit("proxy-send-timeout");
    assert("backend-max-inflight"@.len() != "proxy-send-timeout"@.len());
    reveal_strlit("keepalive-timeout");
    assert("backend-max-inflight"@.len() != "keepalive-timeout"@.len());
    reveal_strlit("log-format");
    assert("backend-max-inflight"@.len() != "log-format"@.len());
    reveal_strlit("log-redact");
    assert("backend-max-inflight"@.len() != "log-redact"@.len());
    reveal_strlit("log-fields");
    assert("backend-max-inflight"@.len() != "log-fields"@.len());
    reveal_strlit("access-log");
    assert("backend-max-inflight"@.len() != "access-log"@.len());
    reveal_strlit("log-query");
    assert("backend-max-inflight"@.len() != "log-query"@.len());
    reveal_strlit("log-client");
    assert("backend-max-inflight"@.len() != "log-client"@.len());
    reveal_strlit("log-referer");
    assert("backend-max-inflight"@.len() != "log-referer"@.len());
    reveal_strlit("ssl-redirect");
    assert("backend-max-inflight"@.len() != "ssl-redirect"@.len());
    reveal_strlit("backend-protocol");
    assert("backend-max-inflight"@.len() != "backend-protocol"@.len());
    reveal_strlit("upstream-http-version");
    assert("backend-max-inflight"@.len() != "upstream-http-version"@.len());
    reveal_strlit("upstream-server-name");
    assert("backend-max-inflight"@[0] != "upstream-server-name"@[0]);
    reveal_strlit("traffic-policy");
    assert("backend-max-inflight"@.len() != "traffic-policy"@.len());
    reveal_strlit("jwt-issuer");
    assert("backend-max-inflight"@.len() != "jwt-issuer"@.len());
    reveal_strlit("jwt-audience");
    assert("backend-max-inflight"@.len() != "jwt-audience"@.len());
    reveal_strlit("jwt-algorithm");
    assert("backend-max-inflight"@.len() != "jwt-algorithm"@.len());
    reveal_strlit("verify-client");
    assert("backend-max-inflight"@.len() != "verify-client"@.len());
    reveal_strlit("auth-service");
    assert("backend-max-inflight"@.len() != "auth-service"@.len());
    reveal_strlit("auth-timeout");
    assert("backend-max-inflight"@.len() != "auth-timeout"@.len());
    reveal_strlit("auth-response-headers");
    assert("backend-max-inflight"@.len() != "auth-response-headers"@.len());
    reveal_strlit("upstream-ca-secret");
    assert("backend-max-inflight"@.len() != "upstream-ca-secret"@.len());
    reveal_strlit("jwt-secret");
    assert("backend-max-inflight"@.len() != "jwt-secret"@.len());
    reveal_strlit("client-ca-secret");
    assert("backend-max-inflight"@.len() != "client-ca-secret"@.len());
    reveal_strlit("upstream-client-secret");
    assert("backend-max-inflight"@.len() != "upstream-client-secret"@.len());
    reveal_strlit("client-max-body-size");
    assert("backend-max-inflight"@[0] != "client-max-body-size"@[0]);
    reveal_strlit("balance");
    assert("backend-max-inflight"@.len() != "balance"@.len());
    reveal_strlit("health-path");
    assert("backend-max-inflight"@.len() != "health-path"@.len());
    reveal_strlit("limit-rate");
    assert("backend-max-inflight"@.len() != "limit-rate"@.len());
    reveal_strlit("limit-conn");
    assert("backend-max-inflight"@.len() != "limit-conn"@.len());
    reveal_strlit("allow-cidrs");
    assert("backend-max-inflight"@.len() != "allow-cidrs"@.len());
    reveal_strlit("compression");
    assert("backend-max-inflight"@.len() != "compression"@.len());
}

proof fn lemma_is_health_path()
    ensures
        !silent_key("health-path"@),
        !time_key("health-path"@),
        !log_key("health-path"@),
        !transport_key("health-path"@),
        !trust_key("health-path"@),
        "health-path"@ != "client-max-body-size"@,
        "health-path"@ != "balance"@,
        "health-path"@ != "backend-max-inflight"@,
        "health-path"@ != "limit-rate"@,
        "health-path"@ != "limit-conn"@,
        "health-path"@ != "allow-cidrs"@,
        "health-path"@ != "compression"@,
{
    reveal_strlit("health-path");
    reveal_strlit("script");
    assert("health-path"@.len() != "script"@.len());
    reveal_strlit("request-body");
    assert("health-path"@.len() != "request-body"@.len());
    reveal_strlit("request-body-timeout");
    assert("health-path"@.len() != "request-body-timeout"@.len());
    reveal_strlit("rolled-back-revision");
    assert("health-path"@.len() != "rolled-back-revision"@.len());
    reveal_strlit("https-port");
    assert("health-path"@.len() != "https-port"@.len());
    reveal_strlit("proxy-connect-timeout");
    assert("health-path"@.len() != "proxy-connect-timeout"@.len());
    reveal_strlit("proxy-read-timeout");
    assert("health-path"@.len() != "proxy-read-timeout"@.len());
    reveal_strlit("proxy-send-timeout");
    assert("health-path"@.len() != "proxy-send-timeout"@.len());
    reveal_strlit("keepalive-timeout");
    assert("health-path"@.len() != "keepalive-timeout"@.len());
    reveal_strlit("log-format");
    assert("health-path"@.len() != "log-format"@.len());
    reveal_strlit("log-redact");
    assert("health-path"@.len() != "log-redact"@.len());
    reveal_strlit("log-fields");
    assert("health-path"@.len() != "log-fields"@.len());
    reveal_strlit("access-log");
    assert("health-path"@.len() != "access-log"@.len());
    reveal_strlit("log-query");
    assert("health-path"@.len() != "log-query"@.len());
    reveal_strlit("log-client");
    assert("health-path"@.len() != "log-client"@.len());
    reveal_strlit("log-referer");
    assert("health-path"@[0] != "log-referer"@[0]);
    reveal_strlit("ssl-redirect");
    assert("health-path"@.len() != "ssl-redirect"@.len());
    reveal_strlit("backend-protocol");
    assert("health-path"@.len() != "backend-protocol"@.len());
    reveal_strlit("upstream-http-version");
    assert("health-path"@.len() != "upstream-http-version"@.len());
    reveal_strlit("upstream-server-name");
    assert("health-path"@.len() != "upstream-server-name"@.len());
    reveal_strlit("traffic-policy");
    assert("health-path"@.len() != "traffic-policy"@.len());
    reveal_strlit("jwt-issuer");
    assert("health-path"@.len() != "jwt-issuer"@.len());
    reveal_strlit("jwt-audience");
    assert("health-path"@.len() != "jwt-audience"@.len());
    reveal_strlit("jwt-algorithm");
    assert("health-path"@.len() != "jwt-algorithm"@.len());
    reveal_strlit("verify-client");
    assert("health-path"@.len() != "verify-client"@.len());
    reveal_strlit("auth-service");
    assert("health-path"@.len() != "auth-service"@.len());
    reveal_strlit("auth-timeout");
    assert("health-path"@.len() != "auth-timeout"@.len());
    reveal_strlit("auth-response-headers");
    assert("health-path"@.len() != "auth-response-headers"@.len());
    reveal_strlit("upstream-ca-secret");
    assert("health-path"@.len() != "upstream-ca-secret"@.len());
    reveal_strlit("jwt-secret");
    assert("health-path"@.len() != "jwt-secret"@.len());
    reveal_strlit("client-ca-secret");
    assert("health-path"@.len() != "client-ca-secret"@.len());
    reveal_strlit("upstream-client-secret");
    assert("health-path"@.len() != "upstream-client-secret"@.len());
    reveal_strlit("client-max-body-size");
    assert("health-path"@.len() != "client-max-body-size"@.len());
    reveal_strlit("balance");
    assert("health-path"@.len() != "balance"@.len());
    reveal_strlit("backend-max-inflight");
    assert("health-path"@.len() != "backend-max-inflight"@.len());
    reveal_strlit("limit-rate");
    assert("health-path"@.len() != "limit-rate"@.len());
    reveal_strlit("limit-conn");
    assert("health-path"@.len() != "limit-conn"@.len());
    reveal_strlit("allow-cidrs");
    assert("health-path"@[0] != "allow-cidrs"@[0]);
    reveal_strlit("compression");
    assert("health-path"@[0] != "compression"@[0]);
}

proof fn lemma_is_limit_rate()
    ensures
        !silent_key("limit-rate"@),
        !time_key("limit-rate"@),
        !log_key("limit-rate"@),
        !transport_key("limit-rate"@),
        !trust_key("limit-rate"@),
        "limit-rate"@ != "client-max-body-size"@,
        "limit-rate"@ != "balance"@,
        "limit-rate"@ != "backend-max-inflight"@,
        "limit-rate"@ != "health-path"@,
        "limit-rate"@ != "limit-conn"@,
        "limit-rate"@ != "allow-cidrs"@,
        "limit-rate"@ != "compression"@,
{
    reveal_strlit("limit-rate");
    reveal_strlit("script");
    assert("limit-rate"@.len() != "script"@.len());
    reveal_strlit("request-body");
    assert("limit-rate"@.len() != "request-body"@.len());
    reveal_strlit("request-body-timeout");
    assert("limit-rate"@.len() != "request-body-timeout"@.len());
    reveal_strlit("rolled-back-revision");
    assert("limit-rate"@.len() != "rolled-back-revision"@.len());
    reveal_strlit("https-port");
    assert("limit-rate"@[0] != "https-port"@[0]);
    reveal_strlit("proxy-connect-timeout");
    assert("limit-rate"@.len() != "proxy-connect-timeout"@.len());
    reveal_strlit("proxy-read-timeout");
    assert("limit-rate"@.len() != "proxy-read-timeout"@.len());
    reveal_strlit("proxy-send-timeout");
    assert("limit-rate"@.len() != "proxy-send-timeout"@.len());
    reveal_strlit("keepalive-timeout");
    assert("limit-rate"@.len() != "keepalive-timeout"@.len());
    reveal_strlit("log-format");
    assert("limit-rate"@[1] != "log-format"@[1]);
    reveal_strlit("log-redact");
    assert("limit-rate"@[1] != "log-redact"@[1]);
    reveal_strlit("log-fields");
    assert("limit-rate"@[1] != "log-fields"@[1]);
    reveal_strlit("access-log");
    assert("limit-rate"@[0] != "access-log"@[0]);
    reveal_strlit("log-query");
    assert("limit-rate"@.len() != "log-query"@.len());
    reveal_strlit("log-client");
    assert("limit-rate"@[1] != "log-client"@[1]);
    reveal_strlit("log-referer");
    assert("limit-rate"@.len() != "log-referer"@.len());
    reveal_strlit("ssl-redirect");
    assert("limit-rate"@.len() != "ssl-redirect"@.len());
    reveal_strlit("backend-protocol");
    assert("limit-rate"@.len() != "backend-protocol"@.len());
    reveal_strlit("upstream-http-version");
    assert("limit-rate"@.len() != "upstream-http-version"@.len());
    reveal_strlit("upstream-server-name");
    assert("limit-rate"@.len() != "upstream-server-name"@.len());
    reveal_strlit("traffic-policy");
    assert("limit-rate"@.len() != "traffic-policy"@.len());
    reveal_strlit("jwt-issuer");
    assert("limit-rate"@[0] != "jwt-issuer"@[0]);
    reveal_strlit("jwt-audience");
    assert("limit-rate"@.len() != "jwt-audience"@.len());
    reveal_strlit("jwt-algorithm");
    assert("limit-rate"@.len() != "jwt-algorithm"@.len());
    reveal_strlit("verify-client");
    assert("limit-rate"@.len() != "verify-client"@.len());
    reveal_strlit("auth-service");
    assert("limit-rate"@.len() != "auth-service"@.len());
    reveal_strlit("auth-timeout");
    assert("limit-rate"@.len() != "auth-timeout"@.len());
    reveal_strlit("auth-response-headers");
    assert("limit-rate"@.len() != "auth-response-headers"@.len());
    reveal_strlit("upstream-ca-secret");
    assert("limit-rate"@.len() != "upstream-ca-secret"@.len());
    reveal_strlit("jwt-secret");
    assert("limit-rate"@[0] != "jwt-secret"@[0]);
    reveal_strlit("client-ca-secret");
    assert("limit-rate"@.len() != "client-ca-secret"@.len());
    reveal_strlit("upstream-client-secret");
    assert("limit-rate"@.len() != "upstream-client-secret"@.len());
    reveal_strlit("client-max-body-size");
    assert("limit-rate"@.len() != "client-max-body-size"@.len());
    reveal_strlit("balance");
    assert("limit-rate"@.len() != "balance"@.len());
    reveal_strlit("backend-max-inflight");
    assert("limit-rate"@.len() != "backend-max-inflight"@.len());
    reveal_strlit("health-path");
    assert("limit-rate"@.len() != "health-path"@.len());
    reveal_strlit("limit-conn");
    assert("limit-rate"@[6] != "limit-conn"@[6]);
    reveal_strlit("allow-cidrs");
    assert("limit-rate"@.len() != "allow-cidrs"@.len());
    reveal_strlit("compression");
    assert("limit-rate"@.len() != "compression"@.len());
}

proof fn lemma_is_limit_conn()
    ensures
        !silent_key("limit-conn"@),
        !time_key("limit-conn"@),
        !log_key("limit-conn"@),
        !transport_key("limit-conn"@),
        !trust_key("limit-conn"@),
        "limit-conn"@ != "client-max-body-size"@,
        "limit-conn"@ != "balance"@,
        "limit-conn"@ != "backend-max-inflight"@,
        "limit-conn"@ != "health-path"@,
        "limit-conn"@ != "limit-rate"@,
        "limit-conn"@ != "allow-cidrs"@,
        "limit-conn"@ != "compression"@,
{
    reveal_strlit("limit-conn");
    reveal_strlit("script");
    assert("limit-conn"@.len() != "script"@.len());
    reveal_strlit("request-body");
    assert("limit-conn"@.len() != "request-body"@.len());
    reveal_strlit("request-body-timeout");
    assert("limit-conn"@.len() != "request-body-timeout"@.len());
    reveal_strlit("rolled-back-revision");
    assert("limit-conn"@.len() != "rolled-back-revision"@.len());
    reveal_strlit("https-port");
    assert("limit-conn"@[0] != "https-port"@[0]);
    reveal_strlit("proxy-connect-timeout");
    assert("limit-conn"@.len() != "proxy-connect-timeout"@.len());
    reveal_strlit("proxy-read-timeout");
    assert("limit-conn"@.len() != "proxy-read-timeout"@.len());
    reveal_strlit("proxy-send-timeout");
    assert("limit-conn"@.len() != "proxy-send-timeout"@.len());
    reveal_strlit("keepalive-timeout");
    assert("limit-conn"@.len() != "keepalive-timeout"@.len());
    reveal_strlit("log-format");
    assert("limit-conn"@[1] != "log-format"@[1]);
    reveal_strlit("log-redact");
    assert("limit-conn"@[1] != "log-redact"@[1]);
    reveal_strlit("log-fields");
    assert("limit-conn"@[1] != "log-fields"@[1]);
    reveal_strlit("access-log");
    assert("limit-conn"@[0] != "access-log"@[0]);
    reveal_strlit("log-query");
    assert("limit-conn"@.len() != "log-query"@.len());
    reveal_strlit("log-client");
    assert("limit-conn"@[1] != "log-client"@[1]);
    reveal_strlit("log-referer");
    assert("limit-conn"@.len() != "log-referer"@.len());
    reveal_strlit("ssl-redirect");
    assert("limit-conn"@.len() != "ssl-redirect"@.len());
    reveal_strlit("backend-protocol");
    assert("limit-conn"@.len() != "backend-protocol"@.len());
    reveal_strlit("upstream-http-version");
    assert("limit-conn"@.len() != "upstream-http-version"@.len());
    reveal_strlit("upstream-server-name");
    assert("limit-conn"@.len() != "upstream-server-name"@.len());
    reveal_strlit("traffic-policy");
    assert("limit-conn"@.len() != "traffic-policy"@.len());
    reveal_strlit("jwt-issuer");
    assert("limit-conn"@[0] != "jwt-issuer"@[0]);
    reveal_strlit("jwt-audience");
    assert("limit-conn"@.len() != "jwt-audience"@.len());
    reveal_strlit("jwt-algorithm");
    assert("limit-conn"@.len() != "jwt-algorithm"@.len());
    reveal_strlit("verify-client");
    assert("limit-conn"@.len() != "verify-client"@.len());
    reveal_strlit("auth-service");
    assert("limit-conn"@.len() != "auth-service"@.len());
    reveal_strlit("auth-timeout");
    assert("limit-conn"@.len() != "auth-timeout"@.len());
    reveal_strlit("auth-response-headers");
    assert("limit-conn"@.len() != "auth-response-headers"@.len());
    reveal_strlit("upstream-ca-secret");
    assert("limit-conn"@.len() != "upstream-ca-secret"@.len());
    reveal_strlit("jwt-secret");
    assert("limit-conn"@[0] != "jwt-secret"@[0]);
    reveal_strlit("client-ca-secret");
    assert("limit-conn"@.len() != "client-ca-secret"@.len());
    reveal_strlit("upstream-client-secret");
    assert("limit-conn"@.len() != "upstream-client-secret"@.len());
    reveal_strlit("client-max-body-size");
    assert("limit-conn"@.len() != "client-max-body-size"@.len());
    reveal_strlit("balance");
    assert("limit-conn"@.len() != "balance"@.len());
    reveal_strlit("backend-max-inflight");
    assert("limit-conn"@.len() != "backend-max-inflight"@.len());
    reveal_strlit("health-path");
    assert("limit-conn"@.len() != "health-path"@.len());
    reveal_strlit("limit-rate");
    assert("limit-conn"@[6] != "limit-rate"@[6]);
    reveal_strlit("allow-cidrs");
    assert("limit-conn"@.len() != "allow-cidrs"@.len());
    reveal_strlit("compression");
    assert("limit-conn"@.len() != "compression"@.len());
}

proof fn lemma_is_allow_cidrs()
    ensures
        !silent_key("allow-cidrs"@),
        !time_key("allow-cidrs"@),
        !log_key("allow-cidrs"@),
        !transport_key("allow-cidrs"@),
        !trust_key("allow-cidrs"@),
        "allow-cidrs"@ != "client-max-body-size"@,
        "allow-cidrs"@ != "balance"@,
        "allow-cidrs"@ != "backend-max-inflight"@,
        "allow-cidrs"@ != "health-path"@,
        "allow-cidrs"@ != "limit-rate"@,
        "allow-cidrs"@ != "limit-conn"@,
        "allow-cidrs"@ != "compression"@,
{
    reveal_strlit("allow-cidrs");
    reveal_strlit("script");
    assert("allow-cidrs"@.len() != "script"@.len());
    reveal_strlit("request-body");
    assert("allow-cidrs"@.len() != "request-body"@.len());
    reveal_strlit("request-body-timeout");
    assert("allow-cidrs"@.len() != "request-body-timeout"@.len());
    reveal_strlit("rolled-back-revision");
    assert("allow-cidrs"@.len() != "rolled-back-revision"@.len());
    reveal_strlit("https-port");
    assert("allow-cidrs"@.len() != "https-port"@.len());
    reveal_strlit("proxy-connect-timeout");
    assert("allow-cidrs"@.len() != "proxy-connect-timeout"@.len());
    reveal_strlit("proxy-read-timeout");
    assert("allow-cidrs"@.len() != "proxy-read-timeout"@.len());
    reveal_strlit("proxy-send-timeout");
    assert("allow-cidrs"@.len() != "proxy-send-timeout"@.len());
    reveal_strlit("keepalive-timeout");
    assert("allow-cidrs"@.len() != "keepalive-timeout"@.len());
    reveal_strlit("log-format");
    assert("allow-cidrs"@.len() != "log-format"@.len());
    reveal_strlit("log-redact");
    assert("allow-cidrs"@.len() != "log-redact"@.len());
    reveal_strlit("log-fields");
    assert("allow-cidrs"@.len() != "log-fields"@.len());
    reveal_strlit("access-log");
    assert("allow-cidrs"@.len() != "access-log"@.len());
    reveal_strlit("log-query");
    assert("allow-cidrs"@.len() != "log-query"@.len());
    reveal_strlit("log-client");
    assert("allow-cidrs"@.len() != "log-client"@.len());
    reveal_strlit("log-referer");
    assert("allow-cidrs"@[0] != "log-referer"@[0]);
    reveal_strlit("ssl-redirect");
    assert("allow-cidrs"@.len() != "ssl-redirect"@.len());
    reveal_strlit("backend-protocol");
    assert("allow-cidrs"@.len() != "backend-protocol"@.len());
    reveal_strlit("upstream-http-version");
    assert("allow-cidrs"@.len() != "upstream-http-version"@.len());
    reveal_strlit("upstream-server-name");
    assert("allow-cidrs"@.len() != "upstream-server-name"@.len());
    reveal_strlit("traffic-policy");
    assert("allow-cidrs"@.len() != "traffic-policy"@.len());
    reveal_strlit("jwt-issuer");
    assert("allow-cidrs"@.len() != "jwt-issuer"@.len());
    reveal_strlit("jwt-audience");
    assert("allow-cidrs"@.len() != "jwt-audience"@.len());
    reveal_strlit("jwt-algorithm");
    assert("allow-cidrs"@.len() != "jwt-algorithm"@.len());
    reveal_strlit("verify-client");
    assert("allow-cidrs"@.len() != "verify-client"@.len());
    reveal_strlit("auth-service");
    assert("allow-cidrs"@.len() != "auth-service"@.len());
    reveal_strlit("auth-timeout");
    assert("allow-cidrs"@.len() != "auth-timeout"@.len());
    reveal_strlit("auth-response-headers");
    assert("allow-cidrs"@.len() != "auth-response-headers"@.len());
    reveal_strlit("upstream-ca-secret");
    assert("allow-cidrs"@.len() != "upstream-ca-secret"@.len());
    reveal_strlit("jwt-secret");
    assert("allow-cidrs"@.len() != "jwt-secret"@.len());
    reveal_strlit("client-ca-secret");
    assert("allow-cidrs"@.len() != "client-ca-secret"@.len());
    reveal_strlit("upstream-client-secret");
    assert("allow-cidrs"@.len() != "upstream-client-secret"@.len());
    reveal_strlit("client-max-body-size");
    assert("allow-cidrs"@.len() != "client-max-body-size"@.len());
    reveal_strlit("balance");
    assert("allow-cidrs"@.len() != "balance"@.len());
    reveal_strlit("backend-max-inflight");
    assert("allow-cidrs"@.len() != "backend-max-inflight"@.len());
    reveal_strlit("health-path");
    assert("allow-cidrs"@[0] != "health-path"@[0]);
    reveal_strlit("limit-rate");
    assert("allow-cidrs"@.len() != "limit-rate"@.len());
    reveal_strlit("limit-conn");
    assert("allow-cidrs"@.len() != "limit-conn"@.len());
    reveal_strlit("compression");
    assert("allow-cidrs"@[0] != "compression"@[0]);
}

proof fn lemma_is_compression()
    ensures
        !silent_key("compression"@),
        !time_key("compression"@),
        !log_key("compression"@),
        !transport_key("compression"@),
        !trust_key("compression"@),
        "compression"@ != "client-max-body-size"@,
        "compression"@ != "balance"@,
        "compression"@ != "backend-max-inflight"@,
        "compression"@ != "health-path"@,
        "compression"@ != "limit-rate"@,
        "compression"@ != "limit-conn"@,
        "compression"@ != "allow-cidrs"@,
{
    reveal_strlit("compression");
    reveal_strlit("script");
    assert("compression"@.len() != "script"@.len());
    reveal_strlit("request-body");
    assert("compression"@.len() != "request-body"@.len());
    reveal_strlit("request-body-timeout");
    assert("compression"@.len() != "request-body-timeout"@.len());
    reveal_strlit("rolled-back-revision");
    assert("compression"@.len() != "rolled-back-revision"@.len());
    reveal_strlit("https-port");
    assert("compression"@.len() != "https-port"@.len());
    reveal_strlit("proxy-connect-timeout");
    assert("compression"@.len() != "proxy-connect-timeout"@.len());
    reveal_strlit("proxy-read-timeout");
    assert("compression"@.len() != "proxy-read-timeout"@.len());
    reveal_strlit("proxy-send-timeout");
    assert("compression"@.len() != "proxy-send-timeout"@.len());
    reveal_strlit("keepalive-timeout");
    assert("compression"@.len() != "keepalive-timeout"@.len());
    reveal_strlit("log-format");
    assert("compression"@.len() != "log-format"@.len());
    reveal_strlit("log-redact");
    assert("compression"@.len() != "log-redact"@.len());
    reveal_strlit("log-fields");
    assert("compression"@.len() != "log-fields"@.len());
    reveal_strlit("access-log");
    assert("compression"@.len() != "access-log"@.len());
    reveal_strlit("log-query");
    assert("compression"@.len() != "log-query"@.len());
    reveal_strlit("log-client");
    assert("compression"@.len() != "log-client"@.len());
    reveal_strlit("log-referer");
    assert("compression"@[0] != "log-referer"@[0]);
    reveal_strlit("ssl-redirect");
    assert("compression"@.len() != "ssl-redirect"@.len());
    reveal_strlit("backend-protocol");
    assert("compression"@.len() != "backend-protocol"@.len());
    reveal_strlit("upstream-http-version");
    assert("compression"@.len() != "upstream-http-version"@.len());
    reveal_strlit("upstream-server-name");
    assert("compression"@.len() != "upstream-server-name"@.len());
    reveal_strlit("traffic-policy");
    assert("compression"@.len() != "traffic-policy"@.len());
    reveal_strlit("jwt-issuer");
    assert("compression"@.len() != "jwt-issuer"@.len());
    reveal_strlit("jwt-audience");
    assert("compression"@.len() != "jwt-audience"@.len());
    reveal_strlit("jwt-algorithm");
    assert("compression"@.len() != "jwt-algorithm"@.len());
    reveal_strlit("verify-client");
    assert("compression"@.len() != "verify-client"@.len());
    reveal_strlit("auth-service");
    assert("compression"@.len() != "auth-service"@.len());
    reveal_strlit("auth-timeout");
    assert("compression"@.len() != "auth-timeout"@.len());
    reveal_strlit("auth-response-headers");
    assert("compression"@.len() != "auth-response-headers"@.len());
    reveal_strlit("upstream-ca-secret");
    assert("compression"@.len() != "upstream-ca-secret"@.len());
    reveal_strlit("jwt-secret");
    assert("compression"@.len() != "jwt-secret"@.len());
    reveal_strlit("client-ca-secret");
    assert("compression"@.len() != "client-ca-secret"@.len());
    reveal_strlit("upstream-client-secret");
    assert("compression"@.len() != "upstream-client-secret"@.len());
    reveal_strlit("client-max-body-size");
    assert("compression"@.len() != "client-max-body-size"@.len());
    reveal_strlit("balance");
    assert("compression"@.len() != "balance"@.len());
    reveal_strlit("backend-max-inflight");
    assert("compression"@.len() != "backend-max-inflight"@.len());
    reveal_strlit("health-path");
    assert("compression"@[0] != "health-path"@[0]);
    reveal_strlit("limit-rate");
    assert("compression"@.len() != "limit-rate"@.len());
    reveal_strlit("limit-conn");
    assert("compression"@.len() != "limit-conn"@.len());
    reveal_strlit("allow-cidrs");
    assert("compression"@[0] != "allow-cidrs"@[0]);
}

/// `proxy-connect-timeout` sets that time, of more than none and at most a day.
pub proof fn law_annotation_proxy_connect_timeout_sets_its_time(d: Draft, value: Seq<char>, r: Verdicts, t: u64)
    requires
        duration_of(value) == Ok::<u64, ValueError>(t),
    ensures
        0 < t <= 86400000 ==> annotated(d, "proxy-connect-timeout"@, value, r) == Ok::<Draft, PolicyError>(Draft { settings: Values { connect_timeout: t, ..d.settings }, ..d }),
        t == 0 || t > 86400000 ==> annotated(d, "proxy-connect-timeout"@, value, r) == Err::<Draft, PolicyError>(PolicyError::Timeout),
{
    lemma_is_proxy_connect_timeout();
}

/// `proxy-read-timeout` sets that time, of more than none and at most a day.
pub proof fn law_annotation_proxy_read_timeout_sets_its_time(d: Draft, value: Seq<char>, r: Verdicts, t: u64)
    requires
        duration_of(value) == Ok::<u64, ValueError>(t),
    ensures
        0 < t <= 86400000 ==> annotated(d, "proxy-read-timeout"@, value, r) == Ok::<Draft, PolicyError>(Draft { settings: Values { read_timeout: t, ..d.settings }, ..d }),
        t == 0 || t > 86400000 ==> annotated(d, "proxy-read-timeout"@, value, r) == Err::<Draft, PolicyError>(PolicyError::Timeout),
{
    lemma_is_proxy_read_timeout();
}

/// `proxy-send-timeout` sets that time, of more than none and at most a day.
pub proof fn law_annotation_proxy_send_timeout_sets_its_time(d: Draft, value: Seq<char>, r: Verdicts, t: u64)
    requires
        duration_of(value) == Ok::<u64, ValueError>(t),
    ensures
        0 < t <= 86400000 ==> annotated(d, "proxy-send-timeout"@, value, r) == Ok::<Draft, PolicyError>(Draft { settings: Values { write_timeout: t, ..d.settings }, ..d }),
        t == 0 || t > 86400000 ==> annotated(d, "proxy-send-timeout"@, value, r) == Err::<Draft, PolicyError>(PolicyError::Timeout),
{
    lemma_is_proxy_send_timeout();
}

/// `keepalive-timeout` sets that time, of at most a day; none keeps no connection.
pub proof fn law_annotation_keepalive_timeout_sets_its_time(d: Draft, value: Seq<char>, r: Verdicts, t: u64)
    requires
        duration_of(value) == Ok::<u64, ValueError>(t),
    ensures
        t <= 86400000 ==> annotated(d, "keepalive-timeout"@, value, r) == Ok::<Draft, PolicyError>(Draft { settings: Values { keepalive: t, ..d.settings }, ..d }),
        t > 86400000 ==> annotated(d, "keepalive-timeout"@, value, r) == Err::<Draft, PolicyError>(PolicyError::Timeout),
{
    lemma_is_keepalive_timeout();
}

/// `log-format` is `combined` or `json`.
pub proof fn law_annotation_log_format_sets_the_format(d: Draft, value: Seq<char>, r: Verdicts)
    ensures
        annotated(d, "log-format"@, "combined"@, r) == Ok::<Draft, PolicyError>(Draft { settings: Values { log: crate::config::settings::LogValues { json: false, ..d.settings.log }, ..d.settings }, ..d }),
        annotated(d, "log-format"@, "json"@, r) == Ok::<Draft, PolicyError>(Draft { settings: Values { log: crate::config::settings::LogValues { json: true, ..d.settings.log }, ..d.settings }, ..d }),
        value != "combined"@ && value != "json"@ ==> annotated(d, "log-format"@, value, r) == Err::<Draft, PolicyError>(PolicyError::LogFormat),
{
    lemma_is_log_format();
    reveal_strlit("combined");
    reveal_strlit("json");
    assert("combined"@.len() != "json"@.len());
}

/// `log-query` says whether the log shows that.
pub proof fn law_annotation_log_query_is_a_switch(d: Draft, value: Seq<char>, r: Verdicts)
    ensures
        annotated(d, "log-query"@, "on"@, r) == Ok::<Draft, PolicyError>(Draft { settings: Values { log: crate::config::settings::LogValues { query: true, ..d.settings.log }, ..d.settings }, ..d }),
        annotated(d, "log-query"@, "off"@, r) == Ok::<Draft, PolicyError>(Draft { settings: Values { log: crate::config::settings::LogValues { query: false, ..d.settings.log }, ..d.settings }, ..d }),
        value != "on"@ && value != "off"@ ==> annotated(d, "log-query"@, value, r) == Err::<Draft, PolicyError>(PolicyError::Switch),
{
    lemma_is_log_query();
    reveal_strlit("on");
    reveal_strlit("off");
    assert("on"@.len() != "off"@.len());
}

/// `log-client` says whether the log shows that.
pub proof fn law_annotation_log_client_is_a_switch(d: Draft, value: Seq<char>, r: Verdicts)
    ensures
        annotated(d, "log-client"@, "on"@, r) == Ok::<Draft, PolicyError>(Draft { settings: Values { log: crate::config::settings::LogValues { client: true, ..d.settings.log }, ..d.settings }, ..d }),
        annotated(d, "log-client"@, "off"@, r) == Ok::<Draft, PolicyError>(Draft { settings: Values { log: crate::config::settings::LogValues { client: false, ..d.settings.log }, ..d.settings }, ..d }),
        value != "on"@ && value != "off"@ ==> annotated(d, "log-client"@, value, r) == Err::<Draft, PolicyError>(PolicyError::Switch),
{
    lemma_is_log_client();
    reveal_strlit("on");
    reveal_strlit("off");
    assert("on"@.len() != "off"@.len());
}

/// `log-referer` says whether the log shows that.
pub proof fn law_annotation_log_referer_is_a_switch(d: Draft, value: Seq<char>, r: Verdicts)
    ensures
        annotated(d, "log-referer"@, "on"@, r) == Ok::<Draft, PolicyError>(Draft { settings: Values { log: crate::config::settings::LogValues { referer: true, ..d.settings.log }, ..d.settings }, ..d }),
        annotated(d, "log-referer"@, "off"@, r) == Ok::<Draft, PolicyError>(Draft { settings: Values { log: crate::config::settings::LogValues { referer: false, ..d.settings.log }, ..d.settings }, ..d }),
        value != "on"@ && value != "off"@ ==> annotated(d, "log-referer"@, value, r) == Err::<Draft, PolicyError>(PolicyError::Switch),
{
    lemma_is_log_referer();
    reveal_strlit("on");
    reveal_strlit("off");
    assert("on"@.len() != "off"@.len());
}

/// `log-redact` lists names, where the log accepts them.
pub proof fn law_annotation_log_redact_lists_names(d: Draft, value: Seq<char>, r: Verdicts)
    ensures
        annotated(d, "log-redact"@, value, r) matches Ok(x) ==> x == (Draft { settings: Values { log: crate::config::settings::LogValues { redact: listed(value), ..d.settings.log }, ..d.settings }, ..d }) && fields_checked(x.settings.log.fields, x.settings.log.redact) is Ok,
{
    lemma_is_log_redact();
}

/// `log-fields` lists names, where the log accepts them.
pub proof fn law_annotation_log_fields_lists_names(d: Draft, value: Seq<char>, r: Verdicts)
    ensures
        annotated(d, "log-fields"@, value, r) matches Ok(x) ==> x == (Draft { settings: Values { log: crate::config::settings::LogValues { fields: listed(value), ..d.settings.log }, ..d.settings }, ..d }) && fields_checked(x.settings.log.fields, x.settings.log.redact) is Ok,
{
    lemma_is_log_fields();
}

/// `access-log` writes to the standard output, or nowhere.
pub proof fn law_annotation_access_log_is_a_switch(d: Draft, value: Seq<char>, r: Verdicts)
    ensures
        annotated(d, "access-log"@, "on"@, r) == Ok::<Draft, PolicyError>(Draft { settings: Values { access_log: Some("/dev/stdout"@), ..d.settings }, ..d }),
        annotated(d, "access-log"@, "off"@, r) == Ok::<Draft, PolicyError>(Draft { settings: Values { access_log: None, ..d.settings }, ..d }),
        value != "on"@ && value != "off"@ ==> annotated(d, "access-log"@, value, r) == Err::<Draft, PolicyError>(PolicyError::AccessLog),
{
    lemma_is_access_log();
    reveal_strlit("on");
    reveal_strlit("off");
    assert("on"@.len() != "off"@.len());
}

/// `ssl-redirect` sends plain requests to the secure port, or does not.
pub proof fn law_annotation_ssl_redirect_is_a_switch(d: Draft, value: Seq<char>, r: Verdicts)
    ensures
        value == "true"@ || value == "on"@ ==> annotated(d, "ssl-redirect"@, value, r) == Ok::<Draft, PolicyError>(Draft { settings: Values { https_redirect_port: Some(443), ..d.settings }, ..d }),
        value == "false"@ || value == "off"@ ==> annotated(d, "ssl-redirect"@, value, r) == Ok::<Draft, PolicyError>(Draft { settings: Values { https_redirect_port: None, ..d.settings }, ..d }),
        value != "true"@ && value != "on"@ && value != "false"@ && value != "off"@ ==> annotated(d, "ssl-redirect"@, value, r) == Err::<Draft, PolicyError>(PolicyError::SslRedirect),
{
    lemma_is_ssl_redirect();
    reveal_strlit("on");
    reveal_strlit("off");
    assert("on"@.len() != "off"@.len());
    reveal_strlit("false");
    assert("on"@.len() != "false"@.len());
    reveal_strlit("true");
    reveal_strlit("off");
    assert("true"@.len() != "off"@.len());
    reveal_strlit("false");
    assert("true"@.len() != "false"@.len());
}

/// `backend-protocol` says whether backends are asked over a secure connection, and whether over HTTP/2.
pub proof fn law_annotation_backend_protocol_sets_the_protocol(d: Draft, value: Seq<char>, r: Verdicts)
    ensures
        annotated(d, "backend-protocol"@, "HTTP"@, r) == Ok::<Draft, PolicyError>(Draft { tls: false, ..d }),
        annotated(d, "backend-protocol"@, "GRPC"@, r) == Ok::<Draft, PolicyError>(Draft { tls: false, http2: true, ..d }),
        annotated(d, "backend-protocol"@, "HTTPS"@, r) == Ok::<Draft, PolicyError>(Draft { tls: true, ..d }),
        annotated(d, "backend-protocol"@, "GRPCS"@, r) == Ok::<Draft, PolicyError>(Draft { tls: true, http2: true, ..d }),
        value != "HTTP"@ && value != "GRPC"@ && value != "HTTPS"@ && value != "GRPCS"@ ==> annotated(d, "backend-protocol"@, value, r) == Err::<Draft, PolicyError>(PolicyError::BackendProtocol),
{
    lemma_is_backend_protocol();
    reveal_strlit("HTTP");
    reveal_strlit("GRPC");
    assert("HTTP"@[0] != "GRPC"@[0]);
    reveal_strlit("HTTPS");
    assert("HTTP"@.len() != "HTTPS"@.len());
    reveal_strlit("GRPCS");
    assert("HTTP"@.len() != "GRPCS"@.len());
    reveal_strlit("GRPC");
    reveal_strlit("HTTPS");
    assert("GRPC"@.len() != "HTTPS"@.len());
    reveal_strlit("GRPCS");
    assert("GRPC"@.len() != "GRPCS"@.len());
    reveal_strlit("HTTPS");
    reveal_strlit("GRPCS");
    assert("HTTPS"@[0] != "GRPCS"@[0]);
}

/// `upstream-http-version` and `upstream-server-name` set the version and the name that backends are asked with.
pub proof fn law_annotations_of_the_backend_set_version_and_name(d: Draft, value: Seq<char>, r: Verdicts)
    ensures
        r.http2 matches Some(b) ==> annotated(d, "upstream-http-version"@, value, r) == Ok::<Draft, PolicyError>(Draft { http2: b, ..d }),
        r.http2 is None ==> annotated(d, "upstream-http-version"@, value, r) == Err::<Draft, PolicyError>(PolicyError::HttpVersion),
        server_name_valid(value) ==> annotated(d, "upstream-server-name"@, value, r) == Ok::<Draft, PolicyError>(Draft { server_name: Some(value), ..d }),
        value.len() == 0 || value.contains('/') || value.contains('$') || text::byte_len(value) > 253 ==> annotated(d, "upstream-server-name"@, value, r) == Err::<Draft, PolicyError>(PolicyError::ServerName),
{
    lemma_is_upstream_http_version();
    lemma_is_upstream_server_name();
    if value.contains('/') {
        let i = choose|i: int| 0 <= i < value.len() && value[i] == '/';
        assert(spec_unnamed(value[i]));
    }
    if value.contains('$') {
        let i = choose|i: int| 0 <= i < value.len() && value[i] == '$';
        assert(spec_unnamed(value[i]));
    }
}

/// `verify-client` asks clients for a certificate, or lets them show one; tokens are signed in one of two ways.
pub proof fn law_annotation_verify_client_sets_the_mode(d: Draft, value: Seq<char>, r: Verdicts)
    ensures
        annotated(d, "verify-client"@, "on"@, r) == Ok::<Draft, PolicyError>(Draft { verify: Verify::Required, ..d }),
        annotated(d, "verify-client"@, "optional"@, r) == Ok::<Draft, PolicyError>(Draft { verify: Verify::Optional, ..d }),
        value != "on"@ && value != "optional"@ ==> annotated(d, "verify-client"@, value, r) == Err::<Draft, PolicyError>(PolicyError::VerifyClient),
        annotated(d, "jwt-algorithm"@, "RS256"@, r) == Ok::<Draft, PolicyError>(d),
        annotated(d, "jwt-algorithm"@, "ES256"@, r) == Ok::<Draft, PolicyError>(d),
        value != "RS256"@ && value != "ES256"@ ==> annotated(d, "jwt-algorithm"@, value, r) == Err::<Draft, PolicyError>(PolicyError::TokenAlgorithm),
{
    lemma_is_verify_client();
    lemma_is_jwt_algorithm();
    reveal_strlit("on");
    reveal_strlit("optional");
    assert("on"@.len() != "optional"@.len());
}

/// `client-max-body-size` sets the limit of bodies, of at most a terabyte.
pub proof fn law_annotation_client_max_body_size_sets_the_limit(d: Draft, value: Seq<char>, r: Verdicts, n: u64)
    requires
        size_of(value) == Ok::<u64, ValueError>(n),
    ensures
        n <= 1099511627776 ==> annotated(d, "client-max-body-size"@, value, r) == Ok::<Draft, PolicyError>(Draft { settings: Values { max_body: n, ..d.settings }, ..d }),
        n > 1099511627776 ==> annotated(d, "client-max-body-size"@, value, r) == Err::<Draft, PolicyError>(PolicyError::BodyLimit),
{
    lemma_is_client_max_body_size();
}

/// `balance`, `backend-max-inflight` and `health-path` set how backends are chosen and checked.
pub proof fn law_annotations_of_choice_set_the_rules(d: Draft, value: Seq<char>, r: Verdicts, n: usize, k: Seq<char>)
    ensures
        annotated(d, "balance"@, "round_robin"@, r) == Ok::<Draft, PolicyError>(Draft { upstream: Rules { balance: Spread::RoundRobin, ..d.upstream }, ..d }),
        annotated(d, "balance"@, "least_conn"@, r) == Ok::<Draft, PolicyError>(Draft { upstream: Rules { balance: Spread::LeastConnections, ..d.upstream }, ..d }),
        r.keys.contains(k) ==> annotated(d, "balance"@, "hash "@ + k, r) == Ok::<Draft, PolicyError>(Draft { upstream: Rules { balance: Spread::Hash(k), ..d.upstream }, ..d }),
        !r.keys.contains(k) ==> annotated(d, "balance"@, "hash "@ + k, r) == Err::<Draft, PolicyError>(PolicyError::Key),
        annotated(d, "backend-max-inflight"@, text::decimal(n as nat), r) == Ok::<Draft, PolicyError>(Draft { upstream: Rules { max_inflight: n, ..d.upstream }, ..d }),
        annotated(d, "health-path"@, value, r) == Ok::<Draft, PolicyError>(Draft { upstream: Rules { health: Some(Check { path: value, interval: 10000, timeout: 1000, status: 200 }), ..d.upstream }, ..d }),
{
    lemma_is_balance();
    lemma_is_backend_max_inflight();
    lemma_is_health_path();
    text::lemma_decimal_reads_back(n as nat);
    reveal_strlit("round_robin");
    reveal_strlit("least_conn");
    assert("round_robin"@.len() != "least_conn"@.len());
    reveal_strlit("hash ");
    reveal_strlit("sticky ");
    text::lemma_prefixed("hash "@, k);
    assert("sticky "@[0] == 's');
    assert(("hash "@ + k)[0] == 'h');
}

/// `limit-rate` and `limit-conn` set the limit on requests in a second and at a time.
pub proof fn law_annotations_of_limits_set_their_limit(d: Draft, value: Seq<char>, r: Verdicts, c: Cap)
    ensures
        limit_of(value, true, r.keys) == Ok::<Option<Cap>, PolicyError>(Some(c)) ==> annotated(d, "limit-rate"@, value, r) == Ok::<Draft, PolicyError>(Draft { rate: Some(c), ..d }),
        limit_of(value, false, r.keys) == Ok::<Option<Cap>, PolicyError>(Some(c)) ==> annotated(d, "limit-conn"@, value, r) == Ok::<Draft, PolicyError>(Draft { concurrency: Some(c), ..d }),
        limit_of(value, true, r.keys) is Err ==> annotated(d, "limit-rate"@, value, r) is Err,
        limit_of(value, false, r.keys) is Err ==> annotated(d, "limit-conn"@, value, r) is Err,
{
    lemma_is_limit_rate();
    lemma_is_limit_conn();
}

/// `compression` turns on the codings that it names.
pub proof fn law_annotation_compression_turns_codings_on(d: Draft, value: Seq<char>, r: Verdicts)
    ensures
        annotated(d, "compression"@, "off"@, r) == Ok::<Draft, PolicyError>(d),
        annotated(d, "compression"@, "gzip"@, r) == Ok::<Draft, PolicyError>(Draft { settings: Values { compression: crate::config::settings::CompressionValues { gzip: 1, ..d.settings.compression }, ..d.settings }, ..d }),
        annotated(d, "compression"@, "br"@, r) == Ok::<Draft, PolicyError>(Draft { settings: Values { compression: crate::config::settings::CompressionValues { brotli: 4, ..d.settings.compression }, ..d.settings }, ..d }),
        value == "gzip br"@ || value == "br gzip"@ ==> annotated(d, "compression"@, value, r) == Ok::<Draft, PolicyError>(Draft { settings: Values { compression: crate::config::settings::CompressionValues { gzip: 1, brotli: 4, ..d.settings.compression }, ..d.settings }, ..d }),
        value != "off"@ && value != "gzip"@ && value != "br"@ && value != "gzip br"@ && value != "br gzip"@ ==> annotated(d, "compression"@, value, r) == Err::<Draft, PolicyError>(PolicyError::Compression),
{
    lemma_is_compression();
    reveal_strlit("off");
    reveal_strlit("gzip");
    assert("off"@.len() != "gzip"@.len());
    reveal_strlit("br");
    assert("off"@.len() != "br"@.len());
    reveal_strlit("gzip br");
    assert("off"@.len() != "gzip br"@.len());
    reveal_strlit("br gzip");
    assert("off"@.len() != "br gzip"@.len());
    reveal_strlit("gzip");
    reveal_strlit("br");
    assert("gzip"@.len() != "br"@.len());
    reveal_strlit("gzip br");
    assert("gzip"@.len() != "gzip br"@.len());
    reveal_strlit("br gzip");
    assert("gzip"@.len() != "br gzip"@.len());
    reveal_strlit("br");
    reveal_strlit("gzip br");
    assert("br"@.len() != "gzip br"@.len());
    reveal_strlit("br gzip");
    assert("br"@.len() != "br gzip"@.len());
}

/// `allow-cidrs` lets in the networks that it lists, and no other address.
pub proof fn law_annotation_allow_cidrs_lets_only_those_in(d: Draft, value: Seq<char>, r: Verdicts, v: Seq<AccessRule>)
    requires
        networks_of(listed(value)) == Some(v),
    ensures
        annotated(d, "allow-cidrs"@, value, r) matches Ok(x) && x == (Draft { settings: Values { access: x.settings.access, ..d.settings }, ..d }) && x.settings.access == d.settings.access + v + seq![AccessRule { network: None, allow: false }],
        v.len() == listed(value).len(),
        forall|i: int| 0 <= i < v.len() ==> (#[trigger] v[i]).allow && v[i].network is Some && v[i].network == network_of(listed(value)[i]),
{
    lemma_is_allow_cidrs();
    lemma_networks(listed(value));
    assert(d.settings.access + v.push(AccessRule { network: None, allow: false }) =~= d.settings.access + v + seq![AccessRule { network: None, allow: false }]);
}

proof fn lemma_networks(w: Seq<Seq<char>>)
    requires
        networks_of(w) is Some,
    ensures
        networks_of(w)->0.len() == w.len(),
        forall|i: int|
            0 <= i < w.len() ==> (#[trigger] networks_of(w)->0[i]).allow && networks_of(w)->0[i].network is Some
                && networks_of(w)->0[i].network == network_of(w[i]),
    decreases w.len(),
{
    if w.len() > 0 {
        let l = w.drop_last();
        lemma_networks(l);
        let a = networks_of(l)->0;
        let b = networks_of(w)->0;
        assert forall|i: int| 0 <= i < w.len() implies (#[trigger] b[i]).allow && b[i].network is Some
            && b[i].network == network_of(w[i]) by {
            if i < l.len() {
                assert(b[i] == a[i]);
                assert(l[i] == w[i]);
            }
        }
    }
}

/// Annotations count in their order; those of others count for nothing, and one that is too long is refused.
pub proof fn law_annotations_count_in_order(
    d: Draft,
    v: Seq<(Seq<char>, Seq<char>)>,
    key: Seq<char>,
    value: Seq<char>,
    r: Verdicts,
)
    requires
        all_annotated(d, v, r) is Ok,
    ensures
        text::byte_len(value) > 8192 ==> all_annotated(d, v.push((key, value)), r) == Err::<Draft, PolicyError>(
            PolicyError::TooLong,
        ),
        text::byte_len(value) <= 8192 && !text::starts(key, "rgnix.io/"@) ==> all_annotated(
            d,
            v.push((key, value)),
            r,
        ) == all_annotated(d, v, r),
        text::byte_len(value) <= 8192 ==> all_annotated(d, v.push(("rgnix.io/"@ + key, value)), r) == annotated(
            all_annotated(d, v, r)->Ok_0,
            key,
            value,
            r,
        ),
{
    assert(v.push((key, value)).drop_last() =~= v);
    assert(v.push(("rgnix.io/"@ + key, value)).drop_last() =~= v);
    text::lemma_prefixed("rgnix.io/"@, key);
}

/// The secure port can be changed where requests are sent to it, to a port that there is.
pub proof fn law_secure_ports_are_for_redirects(d: Draft, n: u16)
    ensures
        port_set(d, None) == Ok::<Draft, PolicyError>(d),
        n > 0 && d.settings.https_redirect_port is Some ==> port_set(d, Some(text::decimal(n as nat))) == Ok::<
            Draft,
            PolicyError,
        >(Draft { settings: Values { https_redirect_port: Some(n), ..d.settings }, ..d }),
        n == 0 || d.settings.https_redirect_port is None ==> port_set(d, Some(text::decimal(n as nat)))
            == Err::<Draft, PolicyError>(PolicyError::HttpsPort),
{
    text::lemma_decimal_reads_back(n as nat);
}

/// A rule on tokens is whole or refused, and calls need HTTP/2.
pub proof fn law_annotations_fit_together(d: Draft, v: Seq<(Seq<char>, Seq<char>)>)
    ensures
        given(v, "rgnix.io/jwt-secret"@) && !given(v, "rgnix.io/jwt-issuer"@) ==> together(d, v) == Err::<
            Draft,
            PolicyError,
        >(PolicyError::TokenIncomplete),
        given(v, "rgnix.io/jwt-secret"@) && !given(v, "rgnix.io/jwt-audience"@) ==> together(d, v) == Err::<
            Draft,
            PolicyError,
        >(PolicyError::TokenIncomplete),
        !given(v, "rgnix.io/client-ca-secret"@) && d.verify != Verify::Off ==> together(d, v) is Err,
        !d.http2 && text::lookup(v, "rgnix.io/backend-protocol"@) == Some("GRPC"@) ==> together(d, v) is Err,
        together(d, v) matches Ok(x) ==> x == (Draft { verify: x.verify, ..d }),
        !given(v, "rgnix.io/jwt-secret"@) && !given(v, "rgnix.io/client-ca-secret"@) && !given(
            v,
            "rgnix.io/backend-protocol"@,
        ) && d.verify == Verify::Off ==> together(d, v) == Ok::<Draft, PolicyError>(d),
{
    assert("GRPC"@.take("GRPC"@.len() as int) =~= "GRPC"@);
}

/// Without annotations an ingress has the usual settings: no secure connections, no limits, turns among the
/// backends.
pub proof fn law_unannotated_policies_are_the_usual(body: BodyPolicy)
    ensures
        empty_draft(body).settings == (Values { body_policy: body, ..default_values() }),
        empty_draft(body).upstream == (Rules { balance: Spread::RoundRobin, max_inflight: 0, health: None }),
        !empty_draft(body).tls,
        !empty_draft(body).http2,
        empty_draft(body).rate is None,
        empty_draft(body).concurrency is None,
        empty_draft(body).verify == Verify::Off,
{
}

/// A limit is its number, with bursts of that size and by the address of the client, unless its words say
/// otherwise; bursts are for rates.
pub proof fn law_annotated_limits_are_as_they_say(
    value: Seq<char>,
    n: u32,
    b: u32,
    k: Seq<char>,
    rate: bool,
    keys: Seq<Seq<char>>,
)
    requires
        value != "off"@,
    ensures
        text::words_of(value) == seq![text::decimal(n as nat)] ==> limit_of(value, rate, keys) == Ok::<
            Option<Cap>,
            PolicyError,
        >(Some(Cap { limit: n, burst: n, key: "ip"@ })),
        text::words_of(value) == seq![text::decimal(n as nat), "burst="@ + text::decimal(b as nat)] ==> {
            &&& limit_of(value, true, keys) == Ok::<Option<Cap>, PolicyError>(
                Some(Cap { limit: n, burst: b, key: "ip"@ }),
            )
            &&& limit_of(value, false, keys) == Err::<Option<Cap>, PolicyError>(PolicyError::BurstWithoutRate)
        },
        text::words_of(value) == seq![text::decimal(n as nat), "key="@ + k] ==> {
            &&& keys.contains(k) ==> limit_of(value, rate, keys) == Ok::<Option<Cap>, PolicyError>(
                Some(Cap { limit: n, burst: n, key: k }),
            )
            &&& !keys.contains(k) ==> limit_of(value, rate, keys) == Err::<Option<Cap>, PolicyError>(
                PolicyError::Key,
            )
        },
{
    text::lemma_decimal_reads_back(n as nat);
    text::lemma_decimal_reads_back(b as nat);
    reveal_strlit("burst=");
    reveal_strlit("key=");
    text::lemma_prefixed("burst="@, text::decimal(b as nat));
    text::lemma_prefixed("key="@, k);
    assert("key="@[0] == 'k');
    reveal_with_fuel(limit_options, 3);
    let one = seq![text::decimal(n as nat)];
    let two = seq![text::decimal(n as nat), "burst="@ + text::decimal(b as nat)];
    let three = seq![text::decimal(n as nat), "key="@ + k];
    assert(one.skip(1) =~= Seq::empty());
    assert(two.skip(1) =~= seq!["burst="@ + text::decimal(b as nat)]);
    assert(three.skip(1) =~= seq!["key="@ + k]);
    assert(two.skip(1).drop_last() =~= Seq::empty());
    assert(three.skip(1).drop_last() =~= Seq::empty());
    assert(one[0] == text::decimal(n as nat));
    assert(two[0] == text::decimal(n as nat));
    assert(three[0] == text::decimal(n as nat));
}

/// A service of authentication is a name, a port and a path.
pub proof fn law_services_are_name_port_and_path(name: Seq<char>, port: u16, path: Seq<char>)
    requires
        name_valid(name),
        path_part_valid(path),
    ensures
        port > 0 ==> service_of(name + seq![':'] + text::decimal(port as nat) + seq!['/'] + path) == Some(
            Service { name, port: PortView::Number(port), path: "/"@ + path },
        ),
        port == 0 ==> service_of(name + seq![':'] + text::decimal(port as nat) + seq!['/'] + path) is None,
{
    text::lemma_decimal_reads_back(port as nat);
    let p = text::decimal(port as nat);
    let a = name + seq![':'] + p;
    let s = a + seq!['/'] + path;
    assert forall|i: int| 0 <= i < a.len() implies s[i] != '/' by {
        if i < name.len() {
            assert(name_char(name[i]));
        } else if i > name.len() {
            assert(text::spec_digit(p[i - name.len() - 1]));
        }
    }
    assert forall|i: int| 0 <= i < name.len() implies a[i] != ':' by {
        assert(name_char(name[i]));
    }
    text::lemma_position_is(s, '/', a.len() as int);
    text::lemma_position_is(a, ':', name.len() as int);
    assert(s.take(a.len() as int) =~= a);
    assert(s.skip(a.len() as int + 1) =~= path);
    assert(a.take(name.len() as int) =~= name);
    assert(a.skip(name.len() as int + 1) =~= p);
}

} // verus!

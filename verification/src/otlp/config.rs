//! Where records are exported to, by the environment.
use crate::header;
use crate::proxy::paths::{decoded, percent_decode};
use crate::text;
use crate::uri;
use crate::uri::{parsed_url, url_with_path, url_view, Parts};
use vstd::prelude::*;
use vstd::utf8::{decode_utf8, encode_utf8, valid_utf8};

verus! {

/// The longest list of pairs, in bytes, and the most pairs that it may have.
pub const MAX_LIST: usize = 16384;

pub const MAX_PAIRS: usize = 32;

/// The longest key of a pair, in bytes.
pub const MAX_KEY: usize = 128;

/// What is exported.
#[derive(Clone, Copy, Debug, PartialEq, Eq, Structural)]
pub enum Signal {
    Logs,
    Traces,
}

impl Signal {
    pub open spec fn spec_name(self) -> Seq<char> {
        match self {
            Signal::Logs => "logs"@,
            Signal::Traces => "traces"@,
        }
    }

    pub fn name(self) -> (r: &'static str)
        ensures
            r@ == self.spec_name(),
    {
        match self {
            Signal::Logs => "logs",
            Signal::Traces => "traces",
        }
    }

    pub open spec fn spec_upper(self) -> Seq<char> {
        match self {
            Signal::Logs => "LOGS"@,
            Signal::Traces => "TRACES"@,
        }
    }

    fn upper(self) -> (r: &'static str)
        ensures
            r@ == self.spec_upper(),
    {
        match self {
            Signal::Logs => "LOGS",
            Signal::Traces => "TRACES",
        }
    }

    /// What the variables for batches begin with.
    pub open spec fn spec_batch(self) -> Seq<char> {
        match self {
            Signal::Logs => "OTEL_BLRP"@,
            Signal::Traces => "OTEL_BSP"@,
        }
    }

    fn batch(self) -> (r: &'static str)
        ensures
            r@ == self.spec_batch(),
    {
        match self {
            Signal::Logs => "OTEL_BLRP",
            Signal::Traces => "OTEL_BSP",
        }
    }
}

// ---------------------------------------------------------------------------
// Errors
// ---------------------------------------------------------------------------

/// Why nothing can be exported; a text names the variable.
#[derive(Debug)]
pub enum OtlpError {
    NotUtf8(String),
    InvalidEndpoint,
    EndpointParts,
    UnknownExporter,
    UnknownProtocol,
    NotInteger(String),
    OutOfRange(String),
    ListTooLong,
    TooManyPairs,
    NoPair,
    PairNotUtf8,
    PairTooLong,
    HeaderName,
    FramingHeader,
    HeaderValue,
    ServiceName,
    BatchSize,
}

/// What an `OtlpError` holds.
#[verifier::ext_equal]
pub ghost enum Fault {
    NotUtf8(Seq<char>),
    InvalidEndpoint,
    EndpointParts,
    UnknownExporter,
    UnknownProtocol,
    NotInteger(Seq<char>),
    OutOfRange(Seq<char>),
    ListTooLong,
    TooManyPairs,
    NoPair,
    PairNotUtf8,
    PairTooLong,
    HeaderName,
    FramingHeader,
    HeaderValue,
    ServiceName,
    BatchSize,
}

impl View for OtlpError {
    type V = Fault;

    open spec fn view(&self) -> Fault {
        match self {
            OtlpError::NotUtf8(s) => Fault::NotUtf8(s@),
            OtlpError::InvalidEndpoint => Fault::InvalidEndpoint,
            OtlpError::EndpointParts => Fault::EndpointParts,
            OtlpError::UnknownExporter => Fault::UnknownExporter,
            OtlpError::UnknownProtocol => Fault::UnknownProtocol,
            OtlpError::NotInteger(s) => Fault::NotInteger(s@),
            OtlpError::OutOfRange(s) => Fault::OutOfRange(s@),
            OtlpError::ListTooLong => Fault::ListTooLong,
            OtlpError::TooManyPairs => Fault::TooManyPairs,
            OtlpError::NoPair => Fault::NoPair,
            OtlpError::PairNotUtf8 => Fault::PairNotUtf8,
            OtlpError::PairTooLong => Fault::PairTooLong,
            OtlpError::HeaderName => Fault::HeaderName,
            OtlpError::FramingHeader => Fault::FramingHeader,
            OtlpError::HeaderValue => Fault::HeaderValue,
            OtlpError::ServiceName => Fault::ServiceName,
            OtlpError::BatchSize => Fault::BatchSize,
        }
    }
}

// ---------------------------------------------------------------------------
// Variables
// ---------------------------------------------------------------------------

/// The variables of the environment; one that is no text has no value here.
#[derive(Debug)]
pub struct Environment {
    pub entries: Vec<(String, Option<String>)>,
}

pub open spec fn entries_view(v: Seq<(String, Option<String>)>) -> Seq<
    (Seq<char>, Option<Seq<char>>),
> {
    Seq::new(v.len(), |i: int| (v[i].0@, text::opt(v[i].1)))
}

impl View for Environment {
    type V = Seq<(Seq<char>, Option<Seq<char>>)>;

    open spec fn view(&self) -> Seq<(Seq<char>, Option<Seq<char>>)> {
        entries_view(self.entries@)
    }
}

/// A variable; an empty one counts as none.
pub open spec fn variable_of(v: Seq<(Seq<char>, Option<Seq<char>>)>, name: Seq<char>) -> Result<
    Option<Seq<char>>,
    Fault,
>
    decreases v.len(),
{
    if v.len() == 0 {
        Ok(None)
    } else if v[0].0 == name {
        match v[0].1 {
            None => Err(Fault::NotUtf8(name)),
            Some(s) => if s.len() == 0 {
                Ok(None)
            } else {
                Ok(Some(s))
            },
        }
    } else {
        variable_of(v.drop_first(), name)
    }
}

pub open spec fn text_result(r: Result<Option<String>, OtlpError>) -> Result<
    Option<Seq<char>>,
    Fault,
> {
    match r {
        Ok(s) => Ok(text::opt(s)),
        Err(e) => Err(e@),
    }
}

/// The name of a variable of one signal.
pub open spec fn own_name(signal: Signal, suffix: Seq<char>) -> Seq<char> {
    "OTEL_EXPORTER_OTLP_"@ + signal.spec_upper() + "_"@ + suffix
}

/// The variable of one signal, or the one of all signals.
pub open spec fn signal_variable_of(
    v: Seq<(Seq<char>, Option<Seq<char>>)>,
    signal: Signal,
    suffix: Seq<char>,
) -> Result<Option<Seq<char>>, Fault> {
    match variable_of(v, own_name(signal, suffix)) {
        Err(e) => Err(e),
        Ok(Some(s)) => Ok(Some(s)),
        Ok(None) => variable_of(v, "OTEL_EXPORTER_OTLP_"@ + suffix),
    }
}

impl Environment {
    /// A variable; an empty one counts as none.
    pub fn variable(&self, name: &str) -> (r: Result<Option<String>, OtlpError>)
        ensures
            text_result(r) == variable_of(self@, name@),
    {
        let ghost all = self@;
        let mut i: usize = 0;
        assert(all.skip(0) =~= all);
        while i < self.entries.len()
            invariant
                i <= self.entries.len(),
                all == self@,
                variable_of(all.skip(i as int), name@) == variable_of(all, name@),
            decreases self.entries.len() - i,
        {
            assert(all.skip(i as int).drop_first() =~= all.skip(i + 1));
            assert(all.skip(i as int)[0] == (self.entries@[i as int].0@, text::opt(
                self.entries@[i as int].1,
            )));
            if text::same(self.entries[i].0.as_str(), name) {
                return match &self.entries[i].1 {
                    None => Err(OtlpError::NotUtf8(name.to_owned())),
                    Some(s) => if s.as_str().is_empty() {
                        Ok(None)
                    } else {
                        Ok(Some(s.clone()))
                    },
                };
            }
            i += 1;
        }
        Ok(None)
    }

    fn signal_variable(&self, signal: Signal, suffix: &str) -> (r: Result<
        Option<String>,
        OtlpError,
    >)
        ensures
            text_result(r) == signal_variable_of(self@, signal, suffix@),
    {
        let head = text::concat3("OTEL_EXPORTER_OTLP_", signal.upper(), "_");
        match self.variable(text::concat(head.as_str(), suffix).as_str()) {
            Err(e) => Err(e),
            Ok(Some(s)) => Ok(Some(s)),
            Ok(None) => self.variable(text::concat("OTEL_EXPORTER_OTLP_", suffix).as_str()),
        }
    }
}

/// A number within bounds, or the usual one.
pub open spec fn number_of(
    value: Option<Seq<char>>,
    name: Seq<char>,
    usual: nat,
    min: nat,
    max: nat,
) -> Result<nat, Fault> {
    match value {
        None => if min <= usual <= max {
            Ok(usual)
        } else {
            Err(Fault::OutOfRange(name))
        },
        Some(s) => match text::decimal_upto(s, usize::MAX as nat) {
            None => Err(Fault::NotInteger(name)),
            Some(n) => if min <= n <= max {
                Ok(n)
            } else {
                Err(Fault::OutOfRange(name))
            },
        },
    }
}

/// A number within bounds, or the usual one.
pub fn number(value: &Option<String>, name: &str, usual: usize, min: usize, max: usize) -> (r: Result<
    usize,
    OtlpError,
>)
    ensures
        match r {
            Ok(n) => Ok::<nat, Fault>(n as nat),
            Err(e) => Err(e@),
        } == number_of(text::opt(*value), name@, usual as nat, min as nat, max as nat),
{
    let n: usize = match value {
        None => usual,
        Some(s) => match text::parse_usize(s.as_str()) {
            None => return Err(OtlpError::NotInteger(name.to_owned())),
            Some(n) => n,
        },
    };
    if n < min || n > max {
        return Err(OtlpError::OutOfRange(name.to_owned()));
    }
    Ok(n)
}

// ---------------------------------------------------------------------------
// Pairs
// ---------------------------------------------------------------------------

/// A pair of a list: the key and the value, which is percent-decoded.
pub open spec fn pair_of(item: Seq<char>, max: nat) -> Result<(Seq<char>, Seq<char>), Fault> {
    match text::split_once_spec(item, '=') {
        None => Err(Fault::NoPair),
        Some((k, x)) => {
            let key = text::trim_spec(k);
            let bytes = decoded(encode_utf8(text::trim_spec(x)));
            if !valid_utf8(bytes) {
                Err(Fault::PairNotUtf8)
            } else if key.len() == 0 || text::byte_len(key) > MAX_KEY || bytes.len() > max {
                Err(Fault::PairTooLong)
            } else {
                Ok((key, decode_utf8(bytes)))
            }
        },
    }
}

/// The pairs of a list, in the order of their keys; of two of one key the later counts.
pub open spec fn items_pairs(v: Seq<Seq<char>>, max: nat) -> Result<
    Seq<(Seq<char>, Seq<char>)>,
    Fault,
>
    decreases v.len(),
{
    if v.len() == 0 {
        Ok(Seq::empty())
    } else {
        match items_pairs(v.drop_last(), max) {
            Err(e) => Err(e),
            Ok(w) => if v.len() > MAX_PAIRS {
                Err(Fault::TooManyPairs)
            } else {
                match pair_of(v.last(), max) {
                    Err(e) => Err(e),
                    Ok((k, x)) => Ok(text::put(w, k, x)),
                }
            },
        }
    }
}

pub open spec fn pairs_of(value: Option<Seq<char>>, max: nat) -> Result<
    Seq<(Seq<char>, Seq<char>)>,
    Fault,
> {
    match value {
        None => Ok(Seq::empty()),
        Some(s) => if text::byte_len(s) > MAX_LIST {
            Err(Fault::ListTooLong)
        } else {
            items_pairs(text::split_spec(s, ','), max)
        },
    }
}

proof fn lemma_items_error(v: Seq<Seq<char>>, max: nat, i: int)
    requires
        0 <= i <= v.len(),
        items_pairs(v.take(i), max) is Err,
    ensures
        items_pairs(v, max) == items_pairs(v.take(i), max),
    decreases v.len(),
{
    if i < v.len() {
        assert(v.drop_last().take(i) =~= v.take(i));
        lemma_items_error(v.drop_last(), max, i);
    } else {
        assert(v.take(i) =~= v);
    }
}

pub open spec fn pairs_result(r: Result<Vec<(String, String)>, OtlpError>) -> Result<
    Seq<(Seq<char>, Seq<char>)>,
    Fault,
> {
    match r {
        Ok(v) => Ok(text::pairs(v@)),
        Err(e) => Err(e@),
    }
}

fn read_pair(item: &str, max: usize) -> (r: Result<(String, String), OtlpError>)
    ensures
        match r {
            Ok(p) => Ok::<(Seq<char>, Seq<char>), Fault>((p.0@, p.1@)),
            Err(e) => Err(e@),
        } == pair_of(item@, max as nat),
{
    match text::split_once(item, '=') {
        None => Err(OtlpError::NoPair),
        Some((k, x)) => {
            let key = text::trim(k.as_str());
            let bytes = percent_decode(text::trim(x.as_str()));
            match text::decode(&bytes) {
                None => Err(OtlpError::PairNotUtf8),
                Some(value) => if key.is_empty() || text::len(key) > MAX_KEY || bytes.len() > max {
                    Err(OtlpError::PairTooLong)
                } else {
                    Ok((key.to_owned(), value))
                },
            }
        },
    }
}

/// The pairs of a list, in the order of their keys.
pub fn pairs(value: &Option<String>, max: usize) -> (r: Result<Vec<(String, String)>, OtlpError>)
    ensures
        pairs_result(r) == pairs_of(text::opt(*value), max as nat),
{
    let mut out: Vec<(String, String)> = Vec::new();
    assert(text::pairs(out@) =~= Seq::empty());
    let s = match value {
        None => return Ok(out),
        Some(s) => s,
    };
    if text::len(s.as_str()) > MAX_LIST {
        return Err(OtlpError::ListTooLong);
    }
    let items = text::split(s.as_str(), ',');
    let ghost all = text::texts(items@);
    let mut i: usize = 0;
    while i < items.len()
        invariant
            i <= items.len(),
            all == text::texts(items@),
            pairs_of(text::opt(*value), max as nat) == items_pairs(all, max as nat),
            items_pairs(all.take(i as int), max as nat) == Ok::<
                Seq<(Seq<char>, Seq<char>)>,
                Fault,
            >(text::pairs(out@)),
        decreases items.len() - i,
    {
        assert(all.take(i + 1).drop_last() =~= all.take(i as int));
        if i >= MAX_PAIRS {
            proof {
                lemma_items_error(all, max as nat, i + 1);
            }
            return Err(OtlpError::TooManyPairs);
        }
        match read_pair(items[i].as_str(), max) {
            Err(e) => {
                proof {
                    lemma_items_error(all, max as nat, i + 1);
                }
                return Err(e);
            },
            Ok((k, x)) => text::put_pair(&mut out, k, x),
        }
        i += 1;
    }
    assert(all.take(i as int) =~= all);
    Ok(out)
}

// ---------------------------------------------------------------------------
// Fields
// ---------------------------------------------------------------------------

/// Fields that belong to the transport.
pub open spec fn framing(name: Seq<char>) -> bool {
    ||| name == "host"@
    ||| name == "content-type"@
    ||| name == "content-length"@
    ||| name == "transfer-encoding"@
    ||| name == "connection"@
    ||| name == "content-encoding"@
    ||| name == "accept-encoding"@
}

fn is_framing(name: &str) -> (r: bool)
    ensures
        r == framing(name@),
{
    text::same(name, "host") || text::same(name, "content-type") || text::same(
        name,
        "content-length",
    ) || text::same(name, "transfer-encoding") || text::same(name, "connection") || text::same(
        name,
        "content-encoding",
    ) || text::same(name, "accept-encoding")
}

/// The fields that go with every export.
pub open spec fn fields_of(v: Seq<(Seq<char>, Seq<char>)>) -> Result<
    Seq<(Seq<char>, Seq<char>)>,
    Fault,
>
    decreases v.len(),
{
    if v.len() == 0 {
        Ok(Seq::empty())
    } else {
        match fields_of(v.drop_last()) {
            Err(e) => Err(e),
            Ok(w) => {
                let name = text::lowercase(v.last().0);
                if !header::valid_name(v.last().0) {
                    Err(Fault::HeaderName)
                } else if framing(name) {
                    Err(Fault::FramingHeader)
                } else if !header::valid_value(v.last().1) {
                    Err(Fault::HeaderValue)
                } else {
                    Ok(text::put(w, name, v.last().1))
                }
            },
        }
    }
}

proof fn lemma_fields_error(v: Seq<(Seq<char>, Seq<char>)>, i: int)
    requires
        0 <= i <= v.len(),
        fields_of(v.take(i)) is Err,
    ensures
        fields_of(v) == fields_of(v.take(i)),
    decreases v.len(),
{
    if i < v.len() {
        assert(v.drop_last().take(i) =~= v.take(i));
        lemma_fields_error(v.drop_last(), i);
    } else {
        assert(v.take(i) =~= v);
    }
}

fn read_fields(v: &Vec<(String, String)>) -> (r: Result<Vec<(String, String)>, OtlpError>)
    ensures
        pairs_result(r) == fields_of(text::pairs(v@)),
{
    let ghost all = text::pairs(v@);
    let mut out: Vec<(String, String)> = Vec::new();
    let mut i: usize = 0;
    assert(text::pairs(out@) =~= Seq::empty());
    while i < v.len()
        invariant
            i <= v.len(),
            all == text::pairs(v@),
            fields_of(all.take(i as int)) == Ok::<Seq<(Seq<char>, Seq<char>)>, Fault>(
                text::pairs(out@),
            ),
        decreases v.len() - i,
    {
        proof {
            assert(all.take(i + 1).drop_last() =~= all.take(i as int));
            assert(all.take(i + 1).last() == (v@[i as int].0@, v@[i as int].1@));
        }
        let name = match header::name(v[i].0.as_str()) {
            None => {
                proof {
                    lemma_fields_error(all, i + 1);
                }
                return Err(OtlpError::HeaderName);
            },
            Some(n) => n,
        };
        if is_framing(name.as_str()) {
            proof {
                lemma_fields_error(all, i + 1);
            }
            return Err(OtlpError::FramingHeader);
        }
        if !header::value_accepted(v[i].1.as_str()) {
            proof {
                lemma_fields_error(all, i + 1);
            }
            return Err(OtlpError::HeaderValue);
        }
        text::put_pair(&mut out, name, v[i].1.clone());
        i += 1;
    }
    assert(all.take(i as int) =~= all);
    Ok(out)
}

// ---------------------------------------------------------------------------
// The endpoint
// ---------------------------------------------------------------------------

/// The addresses that the command line gives.
#[derive(Debug)]
pub struct Options {
    pub otlp_logs_endpoint: Option<String>,
    pub otlp_traces_endpoint: Option<String>,
}

/// An address that can be exported to.
pub open spec fn endpoint_checked(url: Option<Parts>) -> Result<(), Fault> {
    match url {
        None => Err(Fault::InvalidEndpoint),
        Some(u) => if (u.scheme == "http"@ || u.scheme == "https"@) && u.host_text is Some
            && u.username.len() == 0 && u.password is None && u.fragment is None {
            Ok(())
        } else {
            Err(Fault::EndpointParts)
        },
    }
}

pub open spec fn unit_result(r: Result<(), OtlpError>) -> Result<(), Fault> {
    match r {
        Ok(_) => Ok(()),
        Err(e) => Err(e@),
    }
}

/// Whether an address, by its parts, can be exported to.
pub fn check_endpoint(url: &Option<uri::Url>) -> (r: Result<(), OtlpError>)
    ensures
        unit_result(r) == endpoint_checked(url_view(*url)),
{
    match url {
        None => Err(OtlpError::InvalidEndpoint),
        Some(u) => if (text::same(u.scheme.as_str(), "http") || text::same(
            u.scheme.as_str(),
            "https",
        )) && u.host_text.is_some() && u.username.as_str().is_empty() && u.password.is_none()
            && u.fragment.is_none() {
            Ok(())
        } else {
            Err(OtlpError::EndpointParts)
        },
    }
}

/// The path of a signal below the path of an address.
pub open spec fn signal_path(path: Seq<char>, signal: Signal) -> Seq<char> {
    text::trim_end_char_spec(path, '/') + "/v1/"@ + signal.spec_name()
}

pub open spec fn exporter_name(signal: Signal) -> Seq<char> {
    "OTEL_"@ + signal.spec_upper() + "_EXPORTER"@
}

/// An address with the path of a signal below its own; none where that gets too long to be written.
pub open spec fn below(base: Seq<char>, path: Seq<char>) -> Result<Seq<char>, Fault> {
    if text::byte_len(base) <= uri::MAX_URL && text::byte_len(path) <= uri::MAX_URL && url_with_path(
        base,
        path,
    ) is Some {
        Ok(url_with_path(base, path)->0)
    } else {
        Err(Fault::InvalidEndpoint)
    }
}

fn set_below(base: &str, path: &str) -> (r: Result<String, OtlpError>)
    ensures
        match r {
            Ok(s) => Ok::<Seq<char>, Fault>(s@),
            Err(e) => Err(e@),
        } == below(base@, path@),
{
    if text::len(base) > uri::MAX_URL || text::len(path) > uri::MAX_URL {
        return Err(OtlpError::InvalidEndpoint);
    }
    match uri::set_path(base, path) {
        Some(s) => Ok(s),
        None => Err(OtlpError::InvalidEndpoint),
    }
}

/// The address that the environment or the command line gives.
pub open spec fn address_of(
    explicit: Option<Seq<char>>,
    v: Seq<(Seq<char>, Option<Seq<char>>)>,
    signal: Signal,
) -> Result<Option<Seq<char>>, Fault> {
    if explicit is Some && explicit->0.len() > 0 {
        match endpoint_checked(parsed_url(explicit->0)) {
            Err(e) => Err(e),
            Ok(_) => Ok(Some(parsed_url(explicit->0)->0.whole)),
        }
    } else {
        match variable_of(v, "OTEL_EXPORTER_OTLP_ENDPOINT"@) {
            Err(e) => Err(e),
            Ok(None) => Ok(None),
            Ok(Some(base)) => match endpoint_checked(parsed_url(base)) {
                Err(e) => Err(e),
                Ok(_) => match below(base, signal_path(parsed_url(base)->0.path, signal)) {
                    Err(e) => Err(e),
                    Ok(s) => Ok(Some(s)),
                },
            },
        }
    }
}

/// Whether the exporter is switched on: it is not switched off, and for traces it is asked for.
pub open spec fn switched(
    explicit: Option<Seq<char>>,
    v: Seq<(Seq<char>, Option<Seq<char>>)>,
    signal: Signal,
) -> Result<bool, Fault> {
    match variable_of(v, "OTEL_SDK_DISABLED"@) {
        Err(e) => Err(e),
        Ok(off) => if off == Some("true"@) {
            Ok(false)
        } else {
            match variable_of(v, exporter_name(signal)) {
                Err(e) => Err(e),
                Ok(x) => Ok(
                    x != Some("none"@) && !(signal == Signal::Traces && explicit is None && x
                        != Some("otlp"@)),
                ),
            }
        },
    }
}

fn is_text(s: &Option<String>, t: &str) -> (r: bool)
    ensures
        r == (text::opt(*s) == Some(t@)),
{
    match s {
        Some(s) => text::same(s.as_str(), t),
        None => false,
    }
}

fn exporter(signal: Signal) -> (out: String)
    ensures
        out@ == exporter_name(signal),
{
    text::concat3("OTEL_", signal.upper(), "_EXPORTER")
}

fn is_switched(explicit: &Option<String>, env: &Environment, signal: Signal) -> (r: Result<
    bool,
    OtlpError,
>)
    ensures
        match r {
            Ok(b) => Ok::<bool, Fault>(b),
            Err(e) => Err(e@),
        } == switched(text::opt(*explicit), env@, signal),
{
    let off = match env.variable("OTEL_SDK_DISABLED") {
        Err(e) => return Err(e),
        Ok(s) => s,
    };
    if is_text(&off, "true") {
        return Ok(false);
    }
    let x = match env.variable(exporter(signal).as_str()) {
        Err(e) => return Err(e),
        Ok(s) => s,
    };
    if is_text(&x, "none") {
        return Ok(false);
    }
    Ok(!(signal == Signal::Traces && explicit.is_none() && !is_text(&x, "otlp")))
}

pub open spec fn endpoint_result(r: Result<Option<String>, OtlpError>) -> Result<
    Option<Seq<char>>,
    Fault,
> {
    match r {
        Ok(s) => Ok(text::opt(s)),
        Err(e) => Err(e@),
    }
}

fn address(explicit: &Option<String>, env: &Environment, signal: Signal) -> (r: Result<
    Option<String>,
    OtlpError,
>)
    ensures
        endpoint_result(r) == address_of(text::opt(*explicit), env@, signal),
{
    if let Some(s) = explicit {
        if !s.as_str().is_empty() {
            let url = uri::parse(s.as_str());
            return match check_endpoint(&url) {
                Err(e) => Err(e),
                Ok(_) => match url {
                    None => Err(OtlpError::InvalidEndpoint),
                    Some(u) => Ok(Some(u.whole)),
                },
            };
        }
    }
    match env.variable("OTEL_EXPORTER_OTLP_ENDPOINT") {
        Err(e) => Err(e),
        Ok(None) => Ok(None),
        Ok(Some(base)) => {
            let url = uri::parse(base.as_str());
            match check_endpoint(&url) {
                Err(e) => Err(e),
                Ok(_) => match url {
                    None => Err(OtlpError::InvalidEndpoint),
                    Some(u) => {
                        let head = text::trim_end_char(u.path.as_str(), '/');
                        let path = text::concat3(head, "/v1/", signal.name());
                        match set_below(base.as_str(), path.as_str()) {
                            Err(e) => Err(e),
                            Ok(s) => Ok(Some(s)),
                        }
                    },
                },
            }
        },
    }
}

// ---------------------------------------------------------------------------
// The configuration
// ---------------------------------------------------------------------------

/// How records are exported; times are in milliseconds.
pub struct Config {
    pub signal: Signal,
    /// The address that they are sent to, with its path.
    pub endpoint: String,
    pub headers: Vec<(String, String)>,
    /// The file with the authorities that the receiver's certificate is checked by.
    pub certificate: Option<String>,
    pub resource: Vec<(String, String)>,
    pub capacity: usize,
    pub batch_size: usize,
    pub interval: usize,
    pub timeout: usize,
}

/// What a `Config` holds.
#[verifier::ext_equal]
pub ghost struct Setup {
    pub signal: Signal,
    pub endpoint: Seq<char>,
    pub headers: Seq<(Seq<char>, Seq<char>)>,
    pub certificate: Option<Seq<char>>,
    pub resource: Seq<(Seq<char>, Seq<char>)>,
    pub capacity: nat,
    pub batch_size: nat,
    pub interval: nat,
    pub timeout: nat,
}

impl View for Config {
    type V = Setup;

    open spec fn view(&self) -> Setup {
        Setup {
            signal: self.signal,
            endpoint: self.endpoint@,
            headers: text::pairs(self.headers@),
            certificate: text::opt(self.certificate),
            resource: text::pairs(self.resource@),
            capacity: self.capacity as nat,
            batch_size: self.batch_size as nat,
            interval: self.interval as nat,
            timeout: self.timeout as nat,
        }
    }
}

/// The pairs with one more, unless its key is there.
pub open spec fn put_new(v: Seq<(Seq<char>, Seq<char>)>, key: Seq<char>, value: Seq<char>) -> Seq<
    (Seq<char>, Seq<char>),
> {
    if text::lookup(v, key) is Some {
        v
    } else {
        text::put(v, key, value)
    }
}

fn put_if_new(v: &mut Vec<(String, String)>, key: &str, value: &str)
    ensures
        text::pairs(final(v)@) == put_new(text::pairs(old(v)@), key@, value@),
{
    if text::find(v, key).is_none() {
        text::put_pair(v, key.to_owned(), value.to_owned());
    }
}

/// What the records are said to come from.
pub open spec fn resource_of(v: Seq<(Seq<char>, Option<Seq<char>>)>, version: Seq<char>) -> Result<
    Seq<(Seq<char>, Seq<char>)>,
    Fault,
> {
    match variable_of(v, "OTEL_RESOURCE_ATTRIBUTES"@) {
        Err(e) => Err(e),
        Ok(list) => match pairs_of(list, 1024) {
            Err(e) => Err(e),
            Ok(p) => {
                let q = put_new(
                    put_new(p, "service.name"@, "rgnix"@),
                    "service.version"@,
                    version,
                );
                match variable_of(v, "OTEL_SERVICE_NAME"@) {
                    Err(e) => Err(e),
                    Ok(None) => Ok(q),
                    Ok(Some(name)) => if text::byte_len(name) > 1024 {
                        Err(Fault::ServiceName)
                    } else {
                        Ok(text::put(q, "service.name"@, name))
                    },
                }
            },
        },
    }
}

fn read_resource(env: &Environment, version: &str) -> (r: Result<
    Vec<(String, String)>,
    OtlpError,
>)
    ensures
        pairs_result(r) == resource_of(env@, version@),
{
    let list = match env.variable("OTEL_RESOURCE_ATTRIBUTES") {
        Err(e) => return Err(e),
        Ok(s) => s,
    };
    let mut v = match pairs(&list, 1024) {
        Err(e) => return Err(e),
        Ok(v) => v,
    };
    put_if_new(&mut v, "service.name", "rgnix");
    put_if_new(&mut v, "service.version", version);
    match env.variable("OTEL_SERVICE_NAME") {
        Err(e) => Err(e),
        Ok(None) => Ok(v),
        Ok(Some(name)) => if text::len(name.as_str()) > 1024 {
            Err(OtlpError::ServiceName)
        } else {
            text::put_pair(&mut v, "service.name".to_owned(), name);
            Ok(v)
        },
    }
}

/// A number of the environment.
pub open spec fn env_number(
    v: Seq<(Seq<char>, Option<Seq<char>>)>,
    name: Seq<char>,
    usual: nat,
    max: nat,
) -> Result<nat, Fault> {
    match variable_of(v, name) {
        Err(e) => Err(e),
        Ok(x) => number_of(x, name, usual, 1, max),
    }
}

fn read_number(env: &Environment, name: &str, usual: usize, max: usize) -> (r: Result<
    usize,
    OtlpError,
>)
    ensures
        match r {
            Ok(n) => Ok::<nat, Fault>(n as nat),
            Err(e) => Err(e@),
        } == env_number(env@, name@, usual as nat, max as nat),
{
    match env.variable(name) {
        Err(e) => Err(e),
        Ok(x) => number(&x, name, usual, 1, max),
    }
}

/// The sizes and the interval of batches.
pub open spec fn batches_of(v: Seq<(Seq<char>, Option<Seq<char>>)>, signal: Signal) -> Result<
    (nat, nat, nat),
    Fault,
> {
    let p = signal.spec_batch();
    match env_number(v, p + "_MAX_QUEUE_SIZE"@, 2048, 16384) {
        Err(e) => Err(e),
        Ok(capacity) => match env_number(v, p + "_MAX_EXPORT_BATCH_SIZE"@, 256, 512) {
            Err(e) => Err(e),
            Ok(size) => if size > capacity {
                Err(Fault::BatchSize)
            } else {
                match env_number(v, p + "_SCHEDULE_DELAY"@, 1000, 60000) {
                    Err(e) => Err(e),
                    Ok(interval) => Ok((capacity, size, interval)),
                }
            },
        },
    }
}

fn read_batches(env: &Environment, signal: Signal) -> (r: Result<(usize, usize, usize), OtlpError>)
    ensures
        match r {
            Ok(b) => Ok::<(nat, nat, nat), Fault>((b.0 as nat, b.1 as nat, b.2 as nat)),
            Err(e) => Err(e@),
        } == batches_of(env@, signal),
{
    let p = signal.batch();
    let capacity = match read_number(
        env,
        text::concat(p, "_MAX_QUEUE_SIZE").as_str(),
        2048,
        16384,
    ) {
        Err(e) => return Err(e),
        Ok(n) => n,
    };
    let size = match read_number(
        env,
        text::concat(p, "_MAX_EXPORT_BATCH_SIZE").as_str(),
        256,
        512,
    ) {
        Err(e) => return Err(e),
        Ok(n) => n,
    };
    if size > capacity {
        return Err(OtlpError::BatchSize);
    }
    match read_number(env, text::concat(p, "_SCHEDULE_DELAY").as_str(), 1000, 60000) {
        Err(e) => Err(e),
        Ok(interval) => Ok((capacity, size, interval)),
    }
}

/// The time that an export may take, and the fields that go with it.
pub open spec fn transport_of(v: Seq<(Seq<char>, Option<Seq<char>>)>, signal: Signal) -> Result<
    (nat, Seq<(Seq<char>, Seq<char>)>, Option<Seq<char>>),
    Fault,
> {
    match variable_of(v, exporter_name(signal)) {
        Err(e) => Err(e),
        Ok(x) => if x is Some && x != Some("otlp"@) {
            Err(Fault::UnknownExporter)
        } else {
            match signal_variable_of(v, signal, "PROTOCOL"@) {
                Err(e) => Err(e),
                Ok(p) => if p is Some && p != Some("http/protobuf"@) {
                    Err(Fault::UnknownProtocol)
                } else {
                    match signal_variable_of(v, signal, "TIMEOUT"@) {
                        Err(e) => Err(e),
                        Ok(t) => match number_of(t, own_name(signal, "TIMEOUT"@), 5000, 1, 30000) {
                            Err(e) => Err(e),
                            Ok(timeout) => match signal_variable_of(v, signal, "HEADERS"@) {
                                Err(e) => Err(e),
                                Ok(h) => match pairs_of(h, 8192) {
                                    Err(e) => Err(e),
                                    Ok(list) => match fields_of(list) {
                                        Err(e) => Err(e),
                                        Ok(fields) => match signal_variable_of(
                                            v,
                                            signal,
                                            "CERTIFICATE"@,
                                        ) {
                                            Err(e) => Err(e),
                                            Ok(c) => Ok((timeout, fields, c)),
                                        },
                                    },
                                },
                            },
                        },
                    }
                },
            }
        },
    }
}

spec fn transport_result(
    r: Result<(usize, Vec<(String, String)>, Option<String>), OtlpError>,
) -> Result<(nat, Seq<(Seq<char>, Seq<char>)>, Option<Seq<char>>), Fault> {
    match r {
        Ok(t) => Ok((t.0 as nat, text::pairs(t.1@), text::opt(t.2))),
        Err(e) => Err(e@),
    }
}

fn read_transport(env: &Environment, signal: Signal) -> (r: Result<
    (usize, Vec<(String, String)>, Option<String>),
    OtlpError,
>)
    ensures
        transport_result(r) == transport_of(env@, signal),
{
    let x = match env.variable(exporter(signal).as_str()) {
        Err(e) => return Err(e),
        Ok(s) => s,
    };
    if x.is_some() && !is_text(&x, "otlp") {
        return Err(OtlpError::UnknownExporter);
    }
    let p = match env.signal_variable(signal, "PROTOCOL") {
        Err(e) => return Err(e),
        Ok(s) => s,
    };
    if p.is_some() && !is_text(&p, "http/protobuf") {
        return Err(OtlpError::UnknownProtocol);
    }
    let t = match env.signal_variable(signal, "TIMEOUT") {
        Err(e) => return Err(e),
        Ok(s) => s,
    };
    let head = text::concat3("OTEL_EXPORTER_OTLP_", signal.upper(), "_");
    let name = text::concat(head.as_str(), "TIMEOUT");
    let timeout = match number(&t, name.as_str(), 5000, 1, 30000) {
        Err(e) => return Err(e),
        Ok(n) => n,
    };
    let h = match env.signal_variable(signal, "HEADERS") {
        Err(e) => return Err(e),
        Ok(s) => s,
    };
    let list = match pairs(&h, 8192) {
        Err(e) => return Err(e),
        Ok(v) => v,
    };
    let fields = match read_fields(&list) {
        Err(e) => return Err(e),
        Ok(v) => v,
    };
    match env.signal_variable(signal, "CERTIFICATE") {
        Err(e) => Err(e),
        Ok(c) => Ok((timeout, fields, c)),
    }
}

/// How records are exported; nothing where they are not.
pub open spec fn configured(
    explicit: Option<Seq<char>>,
    v: Seq<(Seq<char>, Option<Seq<char>>)>,
    signal: Signal,
    version: Seq<char>,
) -> Result<Option<Setup>, Fault> {
    match switched(explicit, v, signal) {
        Err(e) => Err(e),
        Ok(false) => Ok(None),
        Ok(true) => match address_of(explicit, v, signal) {
            Err(e) => Err(e),
            Ok(None) => Ok(None),
            Ok(Some(endpoint)) => match transport_of(v, signal) {
                Err(e) => Err(e),
                Ok((timeout, headers, certificate)) => match resource_of(v, version) {
                    Err(e) => Err(e),
                    Ok(resource) => match batches_of(v, signal) {
                        Err(e) => Err(e),
                        Ok((capacity, batch_size, interval)) => Ok(
                            Some(
                                Setup {
                                    signal,
                                    endpoint,
                                    headers,
                                    certificate,
                                    resource,
                                    capacity,
                                    batch_size,
                                    interval,
                                    timeout,
                                },
                            ),
                        ),
                    },
                },
            },
        },
    }
}

pub open spec fn setup_result(r: Result<Option<Config>, OtlpError>) -> Result<Option<Setup>, Fault> {
    match r {
        Ok(Some(c)) => Ok(Some(c@)),
        Ok(None) => Ok(None),
        Err(e) => Err(e@),
    }
}

impl Options {
    pub open spec fn explicit_for(&self, signal: Signal) -> Option<Seq<char>> {
        match signal {
            Signal::Logs => text::opt(self.otlp_logs_endpoint),
            Signal::Traces => text::opt(self.otlp_traces_endpoint),
        }
    }

    /// How records are exported; nothing where they are not. `version` is the one that the records are
    /// said to come from.
    pub fn configure(&self, env: &Environment, signal: Signal, version: &str) -> (r: Result<
        Option<Config>,
        OtlpError,
    >)
        ensures
            setup_result(r) == configured(self.explicit_for(signal), env@, signal, version@),
    {
        let explicit = match signal {
            Signal::Logs => &self.otlp_logs_endpoint,
            Signal::Traces => &self.otlp_traces_endpoint,
        };
        match is_switched(explicit, env, signal) {
            Err(e) => return Err(e),
            Ok(on) => if !on {
                return Ok(None);
            },
        }
        let endpoint = match address(explicit, env, signal) {
            Err(e) => return Err(e),
            Ok(None) => return Ok(None),
            Ok(Some(e)) => e,
        };
        let (timeout, headers, certificate) = match read_transport(env, signal) {
            Err(e) => return Err(e),
            Ok(t) => t,
        };
        let resource = match read_resource(env, version) {
            Err(e) => return Err(e),
            Ok(v) => v,
        };
        let (capacity, batch_size, interval) = match read_batches(env, signal) {
            Err(e) => return Err(e),
            Ok(b) => b,
        };
        Ok(
            Some(
                Config {
                    signal,
                    endpoint,
                    headers,
                    certificate,
                    resource,
                    capacity,
                    batch_size,
                    interval,
                    timeout,
                },
            ),
        )
    }
}

// ---------------------------------------------------------------------------
// Laws
// ---------------------------------------------------------------------------

/// A batch fits in the queue, and every size and time has its bounds.
pub proof fn law_exports_are_bounded(
    explicit: Option<Seq<char>>,
    v: Seq<(Seq<char>, Option<Seq<char>>)>,
    signal: Signal,
    version: Seq<char>,
)
    requires
        configured(explicit, v, signal, version) matches Ok(Some(_)),
    ensures
        ({
            let c = configured(explicit, v, signal, version)->Ok_0->0;
            1 <= c.batch_size <= c.capacity <= 16384 && c.batch_size <= 512 && 1 <= c.interval
                <= 60000 && 1 <= c.timeout <= 30000
        }),
{
}

proof fn lemma_lookup_put(
    v: Seq<(Seq<char>, Seq<char>)>,
    key: Seq<char>,
    value: Seq<char>,
    other: Seq<char>,
)
    ensures
        text::lookup(text::put(v, key, value), other) == Some(value) || other != key,
        text::lookup(v, other) is Some ==> text::lookup(text::put(v, key, value), other) is Some,
    decreases v.len(),
{
    let n = text::put(v, key, value);
    if v.len() == 0 {
        assert(n[0] == (key, value));
    } else if v[0].0 == key {
        assert(n.drop_first() =~= v.drop_first());
    } else if text::before(key, v[0].0) {
        assert(n.drop_first() =~= v);
    } else {
        assert(n.drop_first() =~= text::put(v.drop_first(), key, value));
        lemma_lookup_put(v.drop_first(), key, value, other);
    }
}

/// Records always say which service they come from.
pub proof fn law_records_name_their_service(
    v: Seq<(Seq<char>, Option<Seq<char>>)>,
    version: Seq<char>,
)
    requires
        resource_of(v, version) is Ok,
    ensures
        text::lookup(resource_of(v, version)->Ok_0, "service.name"@) is Some,
        text::lookup(resource_of(v, version)->Ok_0, "service.version"@) is Some,
{
    let list = variable_of(v, "OTEL_RESOURCE_ATTRIBUTES"@)->Ok_0;
    let p = pairs_of(list, 1024)->Ok_0;
    let a = put_new(p, "service.name"@, "rgnix"@);
    lemma_lookup_put(p, "service.name"@, "rgnix"@, "service.name"@);
    let b = put_new(a, "service.version"@, version);
    lemma_lookup_put(a, "service.version"@, version, "service.version"@);
    lemma_lookup_put(a, "service.version"@, version, "service.name"@);
    match variable_of(v, "OTEL_SERVICE_NAME"@) {
        Ok(Some(name)) => {
            lemma_lookup_put(b, "service.name"@, name, "service.name"@);
            lemma_lookup_put(b, "service.name"@, name, "service.version"@);
        },
        _ => {},
    }
}

/// A variable of the signal counts before the common one, and one that is empty does not count.
pub proof fn law_variables_of_signals_count_first(
    v: Seq<(Seq<char>, Option<Seq<char>>)>,
    signal: Signal,
    suffix: Seq<char>,
    s: Seq<char>,
)
    ensures
        variable_of(v, own_name(signal, suffix)) == Ok::<Option<Seq<char>>, Fault>(Some(s)) ==> signal_variable_of(
            v,
            signal,
            suffix,
        ) == Ok::<Option<Seq<char>>, Fault>(Some(s)),
        variable_of(v, own_name(signal, suffix)) == Ok::<Option<Seq<char>>, Fault>(None) ==> signal_variable_of(
            v,
            signal,
            suffix,
        ) == variable_of(v, "OTEL_EXPORTER_OTLP_"@ + suffix),
        variable_of(seq![(suffix, Some(Seq::<char>::empty()))] + v, suffix) == Ok::<Option<Seq<char>>, Fault>(None),
        s.len() > 0 ==> variable_of(seq![(suffix, Some(s))] + v, suffix) == Ok::<Option<Seq<char>>, Fault>(Some(s)),
        variable_of(seq![(suffix, None)] + v, suffix) == Err::<Option<Seq<char>>, Fault>(Fault::NotUtf8(suffix)),
{
}

/// A number is the usual one where none is given, and refused where it is too small or too large.
pub proof fn law_numbers_are_in_range(n: usize, name: Seq<char>, usual: nat, min: nat, max: nat)
    requires
        min <= usual <= max,
    ensures
        number_of(None, name, usual, min, max) == Ok::<nat, Fault>(usual),
        min <= n <= max ==> number_of(Some(text::decimal(n as nat)), name, usual, min, max) == Ok::<nat, Fault>(
            n as nat,
        ),
        n < min || n > max ==> number_of(Some(text::decimal(n as nat)), name, usual, min, max) == Err::<nat, Fault>(
            Fault::OutOfRange(name),
        ),
        number_of(Some(Seq::empty()), name, usual, min, max) == Err::<nat, Fault>(Fault::NotInteger(name)),
{
    text::lemma_decimal_reads_back(n as nat);
}

/// Nothing is sent where it is switched off; traces only where they are asked for.
pub proof fn law_signals_are_switched(v: Seq<(Seq<char>, Option<Seq<char>>)>, explicit: Option<Seq<char>>, signal: Signal)
    requires
        variable_of(v, "OTEL_SDK_DISABLED"@) is Ok,
        variable_of(v, exporter_name(signal)) is Ok,
    ensures
        variable_of(v, "OTEL_SDK_DISABLED"@)->Ok_0 == Some("true"@) ==> switched(explicit, v, signal) == Ok::<
            bool,
            Fault,
        >(false),
        variable_of(v, exporter_name(signal))->Ok_0 == Some("none"@) ==> switched(explicit, v, signal) == Ok::<
            bool,
            Fault,
        >(false),
        variable_of(v, "OTEL_SDK_DISABLED"@)->Ok_0 is None && variable_of(v, exporter_name(signal))->Ok_0 is None ==> {
            &&& signal == Signal::Logs ==> switched(explicit, v, signal) == Ok::<bool, Fault>(true)
            &&& signal == Signal::Traces && explicit is Some ==> switched(explicit, v, signal) == Ok::<bool, Fault>(
                true,
            )
            &&& signal == Signal::Traces && explicit is None ==> switched(explicit, v, signal) == Ok::<bool, Fault>(
                false,
            )
        },
        variable_of(v, "OTEL_SDK_DISABLED"@)->Ok_0 is None && variable_of(v, exporter_name(signal))->Ok_0 == Some(
            "otlp"@,
        ) ==> switched(explicit, v, signal) == Ok::<bool, Fault>(true),
{
    reveal_strlit("none");
    reveal_strlit("otlp");
    assert("none"@[0] != "otlp"@[0]);
    reveal_strlit("none");
}

/// The address of a signal is the one given for it, or lies below the common one.
pub proof fn law_signals_have_their_address(
    v: Seq<(Seq<char>, Option<Seq<char>>)>,
    signal: Signal,
    s: Seq<char>,
    p: Parts,
    base: Seq<char>,
)
    requires
        s.len() > 0,
    ensures
        parsed_url(s) == Some(p) && endpoint_checked(Some(p)) is Ok ==> address_of(Some(s), v, signal) == Ok::<
            Option<Seq<char>>,
            Fault,
        >(Some(p.whole)),
        variable_of(v, "OTEL_EXPORTER_OTLP_ENDPOINT"@) == Ok::<Option<Seq<char>>, Fault>(None) ==> address_of(
            None,
            v,
            signal,
        ) == Ok::<Option<Seq<char>>, Fault>(None),
        base.len() > 0 && base.last() != '/' ==> signal_path(base, Signal::Logs) == base + "/v1/"@ + "logs"@
            && signal_path(base, Signal::Traces) == base + "/v1/"@ + "traces"@,
{
    if base.len() > 0 && base.last() != '/' {
        assert(text::trim_end_char_spec(base, '/') == base);
    }
}

/// An address is one of HTTP with a host, and without credentials.
pub proof fn law_endpoints_are_checked(u: Parts)
    ensures
        endpoint_checked(None) == Err::<(), Fault>(Fault::InvalidEndpoint),
        u.username.len() > 0 || u.password is Some || u.fragment is Some || u.host_text is None ==> endpoint_checked(
            Some(u),
        ) == Err::<(), Fault>(Fault::EndpointParts),
        u.scheme == "ftp"@ ==> endpoint_checked(Some(u)) == Err::<(), Fault>(Fault::EndpointParts),
        (u.scheme == "http"@ || u.scheme == "https"@) && u.host_text is Some && u.username.len() == 0 && u.password
            is None && u.fragment is None ==> endpoint_checked(Some(u)) == Ok::<(), Fault>(()),
{
    reveal_strlit("ftp");
    reveal_strlit("http");
    assert("ftp"@.len() != "http"@.len());
    reveal_strlit("https");
    assert("ftp"@.len() != "https"@.len());
}

/// A header is put in lower case; one of the framing, or that is none, is refused.
pub proof fn law_exported_fields_are_checked(
    v: Seq<(Seq<char>, Seq<char>)>,
    w: Seq<(Seq<char>, Seq<char>)>,
    name: Seq<char>,
    value: Seq<char>,
)
    requires
        fields_of(v) == Ok::<Seq<(Seq<char>, Seq<char>)>, Fault>(w),
    ensures
        !header::valid_name(name) ==> fields_of(v.push((name, value))) == Err::<Seq<(Seq<char>, Seq<char>)>, Fault>(
            Fault::HeaderName,
        ),
        header::valid_name(name) && text::lowercase(name) == "content-length"@ ==> fields_of(v.push((name, value)))
            == Err::<Seq<(Seq<char>, Seq<char>)>, Fault>(Fault::FramingHeader),
        header::valid_name(name) && text::lowercase(name) == "host"@ ==> fields_of(v.push((name, value)))
            == Err::<Seq<(Seq<char>, Seq<char>)>, Fault>(Fault::FramingHeader),
        header::valid_name(name) && !framing(text::lowercase(name)) && !header::valid_value(value) ==> fields_of(
            v.push((name, value)),
        ) == Err::<Seq<(Seq<char>, Seq<char>)>, Fault>(Fault::HeaderValue),
        header::valid_name(name) && !framing(text::lowercase(name)) && header::valid_value(value) ==> fields_of(
            v.push((name, value)),
        ) == Ok::<Seq<(Seq<char>, Seq<char>)>, Fault>(text::put(w, text::lowercase(name), value)),
        !framing("authorization"@),
{
    assert(v.push((name, value)).drop_last() =~= v);
    reveal_strlit("authorization");
    reveal_strlit("host");
    assert("authorization"@.len() != "host"@.len());
    reveal_strlit("content-type");
    assert("authorization"@.len() != "content-type"@.len());
    reveal_strlit("content-length");
    assert("authorization"@.len() != "content-length"@.len());
    reveal_strlit("transfer-encoding");
    assert("authorization"@.len() != "transfer-encoding"@.len());
    reveal_strlit("connection");
    assert("authorization"@.len() != "connection"@.len());
    reveal_strlit("content-encoding");
    assert("authorization"@.len() != "content-encoding"@.len());
    reveal_strlit("accept-encoding");
    assert("authorization"@.len() != "accept-encoding"@.len());
}

/// The service is called by its variable, else by its attribute, else by the usual name.
pub proof fn law_services_are_called(
    v: Seq<(Seq<char>, Option<Seq<char>>)>,
    version: Seq<char>,
    name: Seq<char>,
)
    requires
        variable_of(v, "OTEL_RESOURCE_ATTRIBUTES"@) == Ok::<Option<Seq<char>>, Fault>(None),
    ensures
        variable_of(v, "OTEL_SERVICE_NAME"@) == Ok::<Option<Seq<char>>, Fault>(None) ==> (resource_of(v, version)
            matches Ok(r) && text::lookup(r, "service.name"@) == Some("rgnix"@) && text::lookup(
            r,
            "service.version"@,
        ) == Some(version)),
        variable_of(v, "OTEL_SERVICE_NAME"@) == Ok::<Option<Seq<char>>, Fault>(Some(name)) && text::byte_len(name)
            <= 1024 ==> (resource_of(v, version) matches Ok(r) && text::lookup(r, "service.name"@) == Some(name)),
        variable_of(v, "OTEL_SERVICE_NAME"@) == Ok::<Option<Seq<char>>, Fault>(Some(name)) && text::byte_len(name)
            > 1024 ==> resource_of(v, version) == Err::<Seq<(Seq<char>, Seq<char>)>, Fault>(Fault::ServiceName),
{
    reveal_strlit("service.name");
    reveal_strlit("service.version");
    assert("service.name"@.len() != "service.version"@.len());
    let e = Seq::<(Seq<char>, Seq<char>)>::empty();
    let a = text::put(e, "service.name"@, "rgnix"@);
    let b = text::put(a, "service.version"@, version);
    text::law_values_are_put(e, "service.name"@, "rgnix"@, "service.version"@);
    text::law_values_are_put(a, "service.version"@, version, "service.name"@);
    text::law_values_are_put(b, "service.name"@, name, "service.version"@);
    assert(text::lookup(e, "service.name"@) is None);
    assert(text::lookup(e, "service.version"@) is None);
}

/// What is configured is where it is sent, and with what.
pub proof fn law_exports_are_as_configured(
    explicit: Option<Seq<char>>,
    v: Seq<(Seq<char>, Option<Seq<char>>)>,
    signal: Signal,
    version: Seq<char>,
)
    ensures
        switched(explicit, v, signal) == Ok::<bool, Fault>(false) ==> configured(explicit, v, signal, version)
            == Ok::<Option<Setup>, Fault>(None),
        configured(explicit, v, signal, version) matches Ok(Some(c)) ==> {
            &&& c.signal == signal
            &&& address_of(explicit, v, signal) == Ok::<Option<Seq<char>>, Fault>(Some(c.endpoint))
            &&& transport_of(v, signal) matches Ok(t) && t.0 == c.timeout && t.1 == c.headers && t.2 == c.certificate
            &&& batches_of(v, signal) matches Ok(b) && b.0 == c.capacity && b.1 == c.batch_size && b.2 == c.interval
            &&& resource_of(v, version) == Ok::<Seq<(Seq<char>, Seq<char>)>, Fault>(c.resource)
        },
{
}

/// Each signal has its own endpoint.
pub proof fn law_signals_have_their_own_endpoint(o: Options)
    ensures
        o.explicit_for(Signal::Logs) == text::opt(o.otlp_logs_endpoint),
        o.explicit_for(Signal::Traces) == text::opt(o.otlp_traces_endpoint),
{
}

} // verus!

//! What each directive does to the scope that it stands in.
use crate::config::settings::{added, Scope, State, Values};
use crate::config::syntax::{Directive, Node};
use crate::config::value;
use crate::config::value::{duration_of, size_of, switch_of, variables_checked, ValueError};
use crate::header;
use crate::identity::{AccessRule, IdentityError, MAX_RULES};
use crate::logging::access::{fields_checked, PolicyError};
use crate::model::{Action, Added, AddedHeader, Deed};
use crate::net;
use crate::path;
use crate::text;
use crate::text::{pairs, texts};
use crate::uri;
use crate::uri::{parsed_url, Parts, Url};
use vstd::prelude::*;

verus! {

/// The block that a directive stands in.
#[derive(Clone, Copy, Debug, PartialEq, Eq, Structural)]
pub enum Context {
    Http,
    Server,
    Location,
}

/// Why a directive was refused.
#[derive(Clone, Copy, Debug, PartialEq, Eq, Structural)]
pub enum Problem {
    RequiresBlock,
    TakesNoBlock,
    ExpectsOneArgument,
    TakesNoArguments,
    MimeTypeWithoutExtensions,
    RootVariables,
    IndexNames,
    InvalidHeaderName,
    InvalidHeaderValue,
    OnlyInLocation,
    NotInLocation,
    NotInHttp,
    ProxyVariables,
    ProxyUrl(ProxyError),
    ReturnArguments,
    ReturnStatus,
    HeaderArguments,
    Value(ValueError),
    AccessLogArguments,
    ErrorLogArguments,
    ErrorLogLevel,
    LogPolicy(PolicyError),
    CompressionLevel,
    GzipTypes,
    InvalidNetwork,
    Identity(IdentityError),
    Unsupported,
}

/// Why an address to pass requests to was refused.
#[derive(Clone, Copy, Debug, PartialEq, Eq, Structural)]
pub enum ProxyError {
    NotAbsolute,
    Malformed,
    HasQuery,
    NeedsPlainHost,
}

/// Whether a text, which the `url` crate reads as `parts`, is an address to pass requests to.
pub open spec fn proxy_checked(value: Seq<char>, parts: Option<Parts>) -> Result<(), ProxyError> {
    if !text::starts(value, "http://"@) && !text::starts(value, "https://"@) {
        Err(ProxyError::NotAbsolute)
    } else {
        match parts {
            None => Err(ProxyError::Malformed),
            Some(p) => if p.query is Some {
                Err(ProxyError::HasQuery)
            } else if p.host() is None || p.username.len() > 0 || p.password is Some || p.fragment
                is Some {
                Err(ProxyError::NeedsPlainHost)
            } else {
                Ok(())
            },
        }
    }
}

/// Whether a text that was read as `url` is an address to pass requests to.
pub fn check_proxy_url(value: &str, url: &Option<Url>) -> (r: Result<(), ProxyError>)
    ensures
        r == proxy_checked(value@, uri::url_view(*url)),
{
    if !text::starts_with(value, "http://") && !text::starts_with(value, "https://") {
        return Err(ProxyError::NotAbsolute);
    }
    match url {
        None => Err(ProxyError::Malformed),
        Some(u) => if u.query.is_some() {
            Err(ProxyError::HasQuery)
        } else if u.host_text.is_none() || !u.username.as_str().is_empty() || u.password.is_some()
            || u.fragment.is_some() {
            Err(ProxyError::NeedsPlainHost)
        } else {
            Ok(())
        },
    }
}

/// The parts of an address to pass requests to.
pub fn proxy_url(value: &str) -> (r: Result<Url, ProxyError>)
    ensures
        match r {
            Ok(u) => proxy_checked(value@, parsed_url(value@)) is Ok && parsed_url(value@) == Some(
                u@,
            ),
            Err(e) => proxy_checked(value@, parsed_url(value@)) == Err::<(), ProxyError>(e),
        },
{
    let url = uri::parse(value);
    match check_proxy_url(value, &url) {
        Err(e) => Err(e),
        Ok(()) => match url {
            Some(u) => Ok(u),
            None => Err(ProxyError::Malformed),
        },
    }
}

/// `a` where it is an error, else what `b` says.
pub open spec fn and<T>(a: Result<(), Problem>, b: Result<T, Problem>) -> Result<T, Problem> {
    match a {
        Err(e) => Err(e),
        Ok(()) => b,
    }
}

pub open spec fn guard(ok: bool, e: Problem) -> Result<(), Problem> {
    if ok {
        Ok(())
    } else {
        Err(e)
    }
}

pub open spec fn value_problem<T>(r: Result<T, ValueError>) -> Result<T, Problem> {
    match r {
        Ok(x) => Ok(x),
        Err(e) => Err(Problem::Value(e)),
    }
}

pub open spec fn with(s: State, v: Values) -> State {
    State { settings: v, ..s }
}

pub open spec fn one_arg(n: Node) -> Result<(), Problem> {
    guard(n.args.len() == 1, Problem::ExpectsOneArgument)
}

fn one(n: &Directive) -> (r: Result<(), Problem>)
    ensures
        r == one_arg(n.node()),
        r is Ok ==> n.args@.len() == 1 && n.node().args[0] == n.args@[0]@,
{
    assert(n.node().args.len() == n.args@.len());
    if n.args.len() == 1 {
        assert(n.node().args[0] == n.args@[0]@);
        Ok(())
    } else {
        Err(Problem::ExpectsOneArgument)
    }
}

/// Whether `r` and the scope after it are what `spec` says; a refused directive changes nothing.
pub open spec fn became(
    r: Result<(), Problem>,
    before: State,
    after: State,
    spec: Result<State, Problem>,
) -> bool {
    match r {
        Ok(()) => spec == Ok::<State, Problem>(after),
        Err(e) => spec == Err::<State, Problem>(e) && after == before,
    }
}

// ---------------------------------------------------------------------------
// Files
// ---------------------------------------------------------------------------

pub open spec fn file_directive(name: Seq<char>) -> bool {
    name == "root"@ || name == "index"@ || name == "default_type"@ || name == "access_log"@ || name
        == "error_log"@
}

pub open spec fn log_level(s: Seq<char>) -> bool {
    s == "error"@ || s == "warn"@ || s == "info"@ || s == "debug"@
}

/// Names of files in a directory, none of them `..`.
pub open spec fn plain_names(v: Seq<Seq<char>>) -> bool {
    forall|i: int| 0 <= i < v.len() ==> !(#[trigger] v[i]).contains('/') && v[i] != ".."@
}

pub open spec fn file_applied(s: State, n: Node, base: Seq<char>, context: Context) -> Result<
    State,
    Problem,
> {
    let v = s.settings;
    if n.name == "root"@ {
        and(
            one_arg(n),
            and(
                guard(!n.args[0].contains('$'), Problem::RootVariables),
                Ok(with(s, Values { root: path::joined(base, n.args[0]), ..v })),
            ),
        )
    } else if n.name == "index"@ {
        and(
            guard(n.args.len() > 0 && plain_names(n.args), Problem::IndexNames),
            Ok(with(s, Values { index: n.args, ..v })),
        )
    } else if n.name == "default_type"@ {
        and(
            one_arg(n),
            and(
                guard(header::valid_value(n.args[0]), Problem::InvalidHeaderValue),
                Ok(with(s, Values { default_type: n.args[0], ..v })),
            ),
        )
    } else if n.name == "access_log"@ {
        and(
            guard(
                n.args.len() == 1 || (n.args.len() == 2 && n.args[1] == "combined"@),
                Problem::AccessLogArguments,
            ),
            Ok(
                with(
                    s,
                    Values {
                        access_log: if n.args[0] == "off"@ {
                            None
                        } else {
                            Some(path::joined(base, n.args[0]))
                        },
                        ..v
                    },
                ),
            ),
        )
    } else {
        let level = if n.args.len() == 2 {
            n.args[1]
        } else {
            "error"@
        };
        and(
            guard(
                context == Context::Http && 1 <= n.args.len() <= 2,
                Problem::ErrorLogArguments,
            ),
            and(
                guard(log_level(level), Problem::ErrorLogLevel),
                Ok(
                    State {
                        error_log: Some(
                            (
                                if n.args[0] == "stderr"@ {
                                    "stderr"@
                                } else {
                                    path::joined(base, n.args[0])
                                },
                                level,
                            ),
                        ),
                        ..s
                    },
                ),
            ),
        )
    }
}

fn all_plain(v: &Vec<String>) -> (r: bool)
    ensures
        r == plain_names(texts(v@)),
{
    let ghost all = texts(v@);
    let mut i: usize = 0;
    while i < v.len()
        invariant
            i <= v.len(),
            all == texts(v@),
            forall|j: int| 0 <= j < i ==> !(#[trigger] all[j]).contains('/') && all[j] != ".."@,
        decreases v.len() - i,
    {
        assert(all[i as int] == v@[i as int]@);
        if text::has_char(v[i].as_str(), '/') || text::same(v[i].as_str(), "..") {
            return false;
        }
        i += 1;
    }
    true
}

fn apply_file(s: &mut Scope, n: &Directive, base: &str, context: Context) -> (r: Result<
    (),
    Problem,
>)
    requires
        file_directive(n.name@),
        old(s).wf(),
    ensures
        final(s).wf(),
        became(r, old(s)@, final(s)@, file_applied(old(s)@, n.node(), base@, context)),
{
    let name = n.name.as_str();
    proof {
        assert(n.node().args.len() == n.args@.len());
        assert forall|i: int| 0 <= i < n.args@.len() implies n.node().args[i]
            == #[trigger] n.args@[i]@ by {}
    }
    if text::same(name, "root") {
        if let Err(e) = one(n) {
            return Err(e);
        }
        if text::has_char(n.args[0].as_str(), '$') {
            return Err(Problem::RootVariables);
        }
        s.settings.root = path::join(base, n.args[0].as_str());
        Ok(())
    } else if text::same(name, "index") {
        if n.args.len() == 0 || !all_plain(&n.args) {
            return Err(Problem::IndexNames);
        }
        s.settings.index = text::copy_all(&n.args);
        Ok(())
    } else if text::same(name, "default_type") {
        if let Err(e) = one(n) {
            return Err(e);
        }
        if !header::value_accepted(n.args[0].as_str()) {
            return Err(Problem::InvalidHeaderValue);
        }
        s.settings.default_type = n.args[0].clone();
        Ok(())
    } else if text::same(name, "access_log") {
        if !(n.args.len() == 1 || (n.args.len() == 2 && text::same(
            n.args[1].as_str(),
            "combined",
        ))) {
            return Err(Problem::AccessLogArguments);
        }
        s.settings.access_log = if text::same(n.args[0].as_str(), "off") {
            None
        } else {
            Some(path::join(base, n.args[0].as_str()))
        };
        Ok(())
    } else {
        if context != Context::Http || n.args.len() == 0 || n.args.len() > 2 {
            return Err(Problem::ErrorLogArguments);
        }
        let level = if n.args.len() == 2 {
            n.args[1].clone()
        } else {
            "error".to_owned()
        };
        let l = level.as_str();
        if !(text::same(l, "error") || text::same(l, "warn") || text::same(l, "info")
            || text::same(l, "debug")) {
            return Err(Problem::ErrorLogLevel);
        }
        let p = if text::same(n.args[0].as_str(), "stderr") {
            "stderr".to_owned()
        } else {
            path::join(base, n.args[0].as_str())
        };
        s.error_log = Some(crate::config::settings::ErrorLog { path: p, level });
        Ok(())
    }
}

// ---------------------------------------------------------------------------
// What a route does
// ---------------------------------------------------------------------------

pub open spec fn action_directive(name: Seq<char>) -> bool {
    name == "proxy_pass"@ || name == "return"@ || name == "proxy_set_header"@ || name
        == "add_header"@
}

/// A `return` that was set stays.
pub open spec fn acted(s: State, d: Deed) -> State {
    match s.action {
        Some(Deed::Return { .. }) => s,
        _ => State { action: Some(d), ..s },
    }
}

pub open spec fn returned_text(n: Node) -> Seq<char> {
    if n.args.len() == 2 {
        n.args[1]
    } else {
        Seq::empty()
    }
}

pub open spec fn action_applied(s: State, n: Node, context: Context) -> Result<State, Problem> {
    let v = s.settings;
    if n.name == "proxy_pass"@ {
        and(
            one_arg(n),
            and(
                guard(context == Context::Location, Problem::OnlyInLocation),
                and(
                    guard(!n.args[0].contains('$'), Problem::ProxyVariables),
                    match proxy_checked(n.args[0], parsed_url(n.args[0])) {
                        Err(e) => Err(Problem::ProxyUrl(e)),
                        Ok(()) => Ok(acted(s, Deed::Proxy { backend: n.args[0], uri: None })),
                    },
                ),
            ),
        )
    } else if n.name == "return"@ {
        and(
            guard(context != Context::Http && 1 <= n.args.len() <= 2, Problem::ReturnArguments),
            match text::decimal_upto(n.args[0], u16::MAX as nat) {
                None => Err(Problem::Value(ValueError::NotANumber)),
                Some(status) => and(
                    guard(200 <= status <= 599, Problem::ReturnStatus),
                    and(
                        value_problem(variables_checked(returned_text(n))),
                        Ok(
                            acted(
                                s,
                                Deed::Return { status: status as u16, text: returned_text(n) },
                            ),
                        ),
                    ),
                ),
            },
        )
    } else if n.name == "proxy_set_header"@ {
        and(
            guard(n.args.len() == 2, Problem::HeaderArguments),
            and(
                guard(header::valid_name(n.args[0]), Problem::InvalidHeaderName),
                and(
                    value_problem(variables_checked(n.args[1])),
                    Ok(
                        with(
                            s,
                            Values {
                                request_headers: v.request_headers.push((n.args[0], n.args[1])),
                                ..v
                            },
                        ),
                    ),
                ),
            ),
        )
    } else {
        and(
            guard(
                n.args.len() == 2 || (n.args.len() == 3 && n.args[2] == "always"@),
                Problem::HeaderArguments,
            ),
            and(
                guard(header::valid_name(n.args[0]), Problem::InvalidHeaderName),
                and(
                    value_problem(variables_checked(n.args[1])),
                    Ok(
                        with(
                            s,
                            Values {
                                response_headers: v.response_headers.push(
                                    Added {
                                        name: n.args[0],
                                        value: n.args[1],
                                        always: n.args.len() == 3,
                                    },
                                ),
                                ..v
                            },
                        ),
                    ),
                ),
            ),
        )
    }
}

fn apply_action(s: &mut Scope, n: &Directive, context: Context) -> (r: Result<(), Problem>)
    requires
        action_directive(n.name@),
        old(s).wf(),
    ensures
        final(s).wf(),
        became(r, old(s)@, final(s)@, action_applied(old(s)@, n.node(), context)),
{
    let name = n.name.as_str();
    proof {
        assert(n.node().args.len() == n.args@.len());
        assert forall|i: int| 0 <= i < n.args@.len() implies n.node().args[i]
            == #[trigger] n.args@[i]@ by {}
    }
    if text::same(name, "proxy_pass") {
        if let Err(e) = one(n) {
            return Err(e);
        }
        if context != Context::Location {
            return Err(Problem::OnlyInLocation);
        }
        if text::has_char(n.args[0].as_str(), '$') {
            return Err(Problem::ProxyVariables);
        }
        if let Err(e) = proxy_url(n.args[0].as_str()) {
            return Err(Problem::ProxyUrl(e));
        }
        match &s.action {
            Some(Action::Return { .. }) => {},
            _ => {
                s.action = Some(Action::Proxy { backend: n.args[0].clone(), uri: None });
            },
        }
        Ok(())
    } else if text::same(name, "return") {
        if context == Context::Http || n.args.len() == 0 || n.args.len() > 2 {
            return Err(Problem::ReturnArguments);
        }
        let status = match text::parse_u16(n.args[0].as_str()) {
            Some(x) => x,
            None => return Err(Problem::Value(ValueError::NotANumber)),
        };
        if status < 200 || status > 599 {
            return Err(Problem::ReturnStatus);
        }
        let t = if n.args.len() == 2 {
            n.args[1].clone()
        } else {
            String::new()
        };
        assert(t@ =~= returned_text(n.node()));
        if let Err(e) = value::validate_variables(t.as_str()) {
            return Err(Problem::Value(e));
        }
        match &s.action {
            Some(Action::Return { .. }) => {},
            _ => {
                s.action = Some(Action::Return { status, text: t });
            },
        }
        Ok(())
    } else if text::same(name, "proxy_set_header") {
        if n.args.len() != 2 {
            return Err(Problem::HeaderArguments);
        }
        if header::name(n.args[0].as_str()).is_none() {
            return Err(Problem::InvalidHeaderName);
        }
        if let Err(e) = value::validate_variables(n.args[1].as_str()) {
            return Err(Problem::Value(e));
        }
        let ghost before = s.settings@.request_headers;
        s.settings.request_headers.push((n.args[0].clone(), n.args[1].clone()));
        assert(pairs(s.settings.request_headers@) =~= before.push((n.args@[0]@, n.args@[1]@)));
        Ok(())
    } else {
        if !(n.args.len() == 2 || (n.args.len() == 3 && text::same(
            n.args[2].as_str(),
            "always",
        ))) {
            return Err(Problem::HeaderArguments);
        }
        if header::name(n.args[0].as_str()).is_none() {
            return Err(Problem::InvalidHeaderName);
        }
        if let Err(e) = value::validate_variables(n.args[1].as_str()) {
            return Err(Problem::Value(e));
        }
        let ghost before = s.settings@.response_headers;
        let h = AddedHeader {
            name: n.args[0].clone(),
            value: n.args[1].clone(),
            always: n.args.len() == 3,
        };
        let ghost x = h@;
        s.settings.response_headers.push(h);
        assert(added(s.settings.response_headers@) =~= before.push(x));
        Ok(())
    }
}

// ---------------------------------------------------------------------------
// Limits, timeouts and TLS
// ---------------------------------------------------------------------------

pub open spec fn limit_directive(name: Seq<char>) -> bool {
    name == "client_max_body_size"@ || name == "proxy_connect_timeout"@ || name
        == "proxy_read_timeout"@ || name == "proxy_send_timeout"@ || name == "keepalive_timeout"@
}

pub open spec fn limit_applied(s: State, n: Node) -> Result<State, Problem> {
    let v = s.settings;
    and(
        one_arg(n),
        if n.name == "client_max_body_size"@ {
            match value_problem(size_of(n.args[0])) {
                Err(e) => Err(e),
                Ok(x) => Ok(with(s, Values { max_body: x, ..v })),
            }
        } else {
            match value_problem(duration_of(n.args[0])) {
                Err(e) => Err(e),
                Ok(x) => Ok(
                    with(
                        s,
                        if n.name == "proxy_connect_timeout"@ {
                            Values { connect_timeout: x, ..v }
                        } else if n.name == "proxy_read_timeout"@ {
                            Values { read_timeout: x, ..v }
                        } else if n.name == "proxy_send_timeout"@ {
                            Values { write_timeout: x, ..v }
                        } else {
                            Values { keepalive: x, ..v }
                        },
                    ),
                ),
            }
        },
    )
}

fn apply_limit(s: &mut Scope, n: &Directive) -> (r: Result<(), Problem>)
    requires
        limit_directive(n.name@),
        old(s).wf(),
    ensures
        final(s).wf(),
        became(r, old(s)@, final(s)@, limit_applied(old(s)@, n.node())),
{
    let name = n.name.as_str();
    if let Err(e) = one(n) {
        return Err(e);
    }
    if text::same(name, "client_max_body_size") {
        match value::size(n.args[0].as_str()) {
            Err(e) => return Err(Problem::Value(e)),
            Ok(x) => {
                s.settings.max_body = x;
            },
        }
        return Ok(());
    }
    let x = match value::duration(n.args[0].as_str()) {
        Err(e) => return Err(Problem::Value(e)),
        Ok(x) => x,
    };
    if text::same(name, "proxy_connect_timeout") {
        s.settings.connect_timeout = x;
    } else if text::same(name, "proxy_read_timeout") {
        s.settings.read_timeout = x;
    } else if text::same(name, "proxy_send_timeout") {
        s.settings.write_timeout = x;
    } else {
        s.settings.keepalive = x;
    }
    Ok(())
}

pub open spec fn server_directive(name: Seq<char>) -> bool {
    name == "ssl_certificate"@ || name == "ssl_certificate_key"@ || name == "http2"@ || name
        == "rgnix_script"@
}

pub open spec fn server_applied(s: State, n: Node, base: Seq<char>, context: Context) -> Result<
    State,
    Problem,
> {
    and(
        one_arg(n),
        if n.name == "rgnix_script"@ {
            and(
                guard(context != Context::Http, Problem::NotInHttp),
                Ok(State { script: Some(path::joined(base, n.args[0])), ..s }),
            )
        } else {
            and(
                guard(context != Context::Location, Problem::NotInLocation),
                if n.name == "ssl_certificate"@ {
                    Ok(State { cert: Some(path::joined(base, n.args[0])), ..s })
                } else if n.name == "ssl_certificate_key"@ {
                    Ok(State { key: Some(path::joined(base, n.args[0])), ..s })
                } else {
                    match value_problem(switch_of(n.args[0])) {
                        Err(e) => Err(e),
                        Ok(x) => Ok(State { http2: x, ..s }),
                    }
                },
            )
        },
    )
}

fn apply_server(s: &mut Scope, n: &Directive, base: &str, context: Context) -> (r: Result<
    (),
    Problem,
>)
    requires
        server_directive(n.name@),
        old(s).wf(),
    ensures
        final(s).wf(),
        became(r, old(s)@, final(s)@, server_applied(old(s)@, n.node(), base@, context)),
{
    let name = n.name.as_str();
    if let Err(e) = one(n) {
        return Err(e);
    }
    if text::same(name, "rgnix_script") {
        if context == Context::Http {
            return Err(Problem::NotInHttp);
        }
        s.script = Some(path::join(base, n.args[0].as_str()));
        return Ok(());
    }
    if context == Context::Location {
        return Err(Problem::NotInLocation);
    }
    if text::same(name, "ssl_certificate") {
        s.cert = Some(path::join(base, n.args[0].as_str()));
    } else if text::same(name, "ssl_certificate_key") {
        s.key = Some(path::join(base, n.args[0].as_str()));
    } else {
        match value::switch(n.args[0].as_str()) {
            Err(e) => return Err(Problem::Value(e)),
            Ok(x) => {
                s.http2 = x;
            },
        }
    }
    Ok(())
}

// ---------------------------------------------------------------------------
// Logs and compression
// ---------------------------------------------------------------------------

/// The types with `text/html` among them.
pub open spec fn with_html(v: Seq<Seq<char>>) -> Seq<Seq<char>> {
    if v.contains("text/html"@) {
        v
    } else {
        v.push("text/html"@)
    }
}

pub open spec fn log_applied(v: Values, n: Node) -> Result<Values, Problem> {
    if n.name == "rgnix_log_redact"@ || n.name == "rgnix_log_fields"@ {
        let log = if n.name == "rgnix_log_redact"@ {
            crate::config::settings::LogValues { redact: n.args, ..v.log }
        } else {
            crate::config::settings::LogValues { fields: n.args, ..v.log }
        };
        match fields_checked(log.fields, log.redact) {
            Err(e) => Err(Problem::LogPolicy(e)),
            Ok(()) => Ok(Values { log, ..v }),
        }
    } else {
        and(
            one_arg(n),
            match value_problem(switch_of(n.args[0])) {
                Err(e) => Err(e),
                Ok(x) => Ok(
                    Values {
                        log: if n.name == "rgnix_log_query"@ {
                            crate::config::settings::LogValues { query: x, ..v.log }
                        } else if n.name == "rgnix_log_client"@ {
                            crate::config::settings::LogValues { client: x, ..v.log }
                        } else {
                            crate::config::settings::LogValues { referer: x, ..v.log }
                        },
                        ..v
                    },
                ),
            },
        )
    }
}

pub open spec fn compression_applied(v: Values, n: Node) -> Result<Values, Problem> {
    let c = v.compression;
    if n.name == "gzip"@ || n.name == "brotli"@ {
        and(
            one_arg(n),
            match value_problem(switch_of(n.args[0])) {
                Err(e) => Err(e),
                Ok(x) => Ok(
                    Values {
                        compression: if n.name == "gzip"@ {
                            crate::config::settings::CompressionValues {
                                gzip: if x {
                                    1
                                } else {
                                    0
                                },
                                ..c
                            }
                        } else {
                            crate::config::settings::CompressionValues {
                                brotli: if x {
                                    4
                                } else {
                                    0
                                },
                                ..c
                            }
                        },
                        ..v
                    },
                ),
            },
        )
    } else if n.name == "gzip_comp_level"@ || n.name == "brotli_comp_level"@ {
        and(
            one_arg(n),
            match text::decimal_upto(n.args[0], u32::MAX as nat) {
                None => Err(Problem::Value(ValueError::NotANumber)),
                Some(level) => and(
                    guard(1 <= level <= 9, Problem::CompressionLevel),
                    Ok(
                        Values {
                            compression: if n.name == "gzip_comp_level"@ {
                                crate::config::settings::CompressionValues {
                                    gzip: level as u32,
                                    ..c
                                }
                            } else {
                                crate::config::settings::CompressionValues {
                                    brotli: level as u32,
                                    ..c
                                }
                            },
                            ..v
                        },
                    ),
                ),
            },
        )
    } else if n.name == "gzip_min_length"@ {
        and(
            one_arg(n),
            match value_problem(size_of(n.args[0])) {
                Err(e) => Err(e),
                Ok(x) => Ok(
                    Values {
                        compression: crate::config::settings::CompressionValues {
                            min_length: x,
                            ..c
                        },
                        ..v
                    },
                ),
            },
        )
    } else {
        and(
            guard(n.args.len() > 0, Problem::GzipTypes),
            Ok(
                Values {
                    compression: crate::config::settings::CompressionValues {
                        types: with_html(n.args),
                        ..c
                    },
                    ..v
                },
            ),
        )
    }
}

pub open spec fn log_directive(name: Seq<char>) -> bool {
    name == "rgnix_log_query"@ || name == "rgnix_log_client"@ || name == "rgnix_log_referer"@ || name
        == "rgnix_log_redact"@ || name == "rgnix_log_fields"@
}

pub open spec fn compression_directive(name: Seq<char>) -> bool {
    name == "gzip"@ || name == "brotli"@ || name == "gzip_comp_level"@ || name
        == "brotli_comp_level"@ || name == "gzip_min_length"@ || name == "gzip_types"@
}

fn apply_log(s: &mut Scope, n: &Directive) -> (r: Result<(), Problem>)
    requires
        log_directive(n.name@),
        old(s).wf(),
    ensures
        final(s).wf(),
        match r {
            Ok(()) => log_applied(old(s)@.settings, n.node()) == Ok::<Values, Problem>(
                final(s)@.settings,
            ) && final(s)@ == with(old(s)@, final(s)@.settings),
            Err(e) => log_applied(old(s)@.settings, n.node()) == Err::<Values, Problem>(e)
                && final(s)@ == old(s)@,
        },
{
    let name = n.name.as_str();
    if text::same(name, "rgnix_log_redact") || text::same(name, "rgnix_log_fields") {
        let first = text::same(name, "rgnix_log_redact");
        let policy = crate::logging::access::Policy {
            json: s.settings.log_policy.json,
            query: s.settings.log_policy.query,
            client: s.settings.log_policy.client,
            referer: s.settings.log_policy.referer,
            redact: if first {
                text::copy_all(&n.args)
            } else {
                text::copy_all(&s.settings.log_policy.redact)
            },
            fields: if first {
                text::copy_all(&s.settings.log_policy.fields)
            } else {
                text::copy_all(&n.args)
            },
        };
        if let Err(e) = policy.validate_fields() {
            return Err(Problem::LogPolicy(e));
        }
        s.settings.log_policy = policy;
        return Ok(());
    }
    if let Err(e) = one(n) {
        return Err(e);
    }
    let x = match value::switch(n.args[0].as_str()) {
        Err(e) => return Err(Problem::Value(e)),
        Ok(x) => x,
    };
    if text::same(name, "rgnix_log_query") {
        s.settings.log_policy.query = x;
    } else if text::same(name, "rgnix_log_client") {
        s.settings.log_policy.client = x;
    } else {
        s.settings.log_policy.referer = x;
    }
    Ok(())
}

fn apply_compression(s: &mut Scope, n: &Directive) -> (r: Result<(), Problem>)
    requires
        compression_directive(n.name@),
        old(s).wf(),
    ensures
        final(s).wf(),
        match r {
            Ok(()) => compression_applied(old(s)@.settings, n.node()) == Ok::<Values, Problem>(
                final(s)@.settings,
            ) && final(s)@ == with(old(s)@, final(s)@.settings),
            Err(e) => compression_applied(old(s)@.settings, n.node()) == Err::<Values, Problem>(e)
                && final(s)@ == old(s)@,
        },
{
    let name = n.name.as_str();
    assert(n.node().args.len() == n.args@.len());
    if text::same(name, "gzip") || text::same(name, "brotli") {
        if let Err(e) = one(n) {
            return Err(e);
        }
        match value::switch(n.args[0].as_str()) {
            Err(e) => return Err(Problem::Value(e)),
            Ok(x) => {
                if text::same(name, "gzip") {
                    s.settings.compression.gzip = if x {
                        1
                    } else {
                        0
                    };
                } else {
                    s.settings.compression.brotli = if x {
                        4
                    } else {
                        0
                    };
                }
            },
        }
    } else if text::same(name, "gzip_comp_level") || text::same(name, "brotli_comp_level") {
        if let Err(e) = one(n) {
            return Err(e);
        }
        match text::parse_u32(n.args[0].as_str()) {
            None => return Err(Problem::Value(ValueError::NotANumber)),
            Some(level) => {
                if level < 1 || level > 9 {
                    return Err(Problem::CompressionLevel);
                }
                if text::same(name, "gzip_comp_level") {
                    s.settings.compression.gzip = level;
                } else {
                    s.settings.compression.brotli = level;
                }
            },
        }
    } else if text::same(name, "gzip_min_length") {
        if let Err(e) = one(n) {
            return Err(e);
        }
        match value::size(n.args[0].as_str()) {
            Err(e) => return Err(Problem::Value(e)),
            Ok(x) => {
                s.settings.compression.min_length = x;
            },
        }
    } else {
        if n.args.len() == 0 {
            return Err(Problem::GzipTypes);
        }
        let mut types = text::copy_all(&n.args);
        if !text::contains(&types, "text/html") {
            let ghost before = texts(types@);
            types.push("text/html".to_owned());
            assert(texts(types@) =~= before.push("text/html"@));
        }
        s.settings.compression.types = types;
    }
    Ok(())
}

// ---------------------------------------------------------------------------
// Client identity
// ---------------------------------------------------------------------------

pub open spec fn identity_directive(name: Seq<char>) -> bool {
    name == "set_real_ip_from"@ || name == "real_ip_header"@ || name == "real_ip_recursive"@ || name
        == "allow"@ || name == "deny"@
}

/// Whether the identity settings are within their limits.
pub open spec fn identity_checked(v: Values) -> Result<(), Problem> {
    if v.trusted.len() > MAX_RULES || v.access.len() > MAX_RULES {
        Err(Problem::Identity(IdentityError::TooManyRules))
    } else if !header::valid_name(v.real_ip_header) {
        Err(Problem::Identity(IdentityError::InvalidHeaderName))
    } else {
        Ok(())
    }
}

pub open spec fn checked(r: Result<Values, Problem>) -> Result<Values, Problem> {
    match r {
        Ok(v) => and(identity_checked(v), Ok(v)),
        Err(e) => Err(e),
    }
}

pub open spec fn identity_applied(v: Values, n: Node) -> Result<Values, Problem> {
    and(
        one_arg(n),
        if n.name == "real_ip_recursive"@ {
            match value_problem(switch_of(n.args[0])) {
                Err(e) => Err(e),
                Ok(x) => Ok(Values { real_ip_recursive: x, ..v }),
            }
        } else if n.name == "real_ip_header"@ {
            and(
                guard(header::valid_name(n.args[0]), Problem::InvalidHeaderName),
                Ok(Values { real_ip_header: text::lowercase(n.args[0]), ..v }),
            )
        } else if n.name == "set_real_ip_from"@ {
            match net::network_of(n.args[0]) {
                None => Err(Problem::InvalidNetwork),
                Some(x) => Ok(Values { trusted: v.trusted.push(x), ..v }),
            }
        } else {
            let allow = n.name == "allow"@;
            if n.args[0] == "all"@ {
                Ok(Values { access: v.access.push(AccessRule { network: None, allow }), ..v })
            } else {
                match net::network_of(n.args[0]) {
                    None => Err(Problem::InvalidNetwork),
                    Some(x) => Ok(
                        Values {
                            access: v.access.push(AccessRule { network: Some(x), allow }),
                            ..v
                        },
                    ),
                }
            }
        },
    )
}

/// What a directive on logs, compression or client identity does.
pub open spec fn policy_applied(s: State, n: Node) -> Result<State, Problem> {
    let v = s.settings;
    let r = checked(
        if log_directive(n.name) {
            log_applied(v, n)
        } else if compression_directive(n.name) {
            compression_applied(v, n)
        } else {
            identity_applied(v, n)
        },
    );
    match r {
        Ok(w) => Ok(with(s, w)),
        Err(e) => Err(e),
    }
}

fn apply_identity(s: &mut Scope, n: &Directive) -> (r: Result<(), Problem>)
    requires
        identity_directive(n.name@),
        old(s).wf(),
    ensures
        final(s).wf(),
        match r {
            Ok(()) => identity_applied(old(s)@.settings, n.node()) == Ok::<Values, Problem>(
                final(s)@.settings,
            ) && final(s)@ == with(old(s)@, final(s)@.settings),
            Err(e) => identity_applied(old(s)@.settings, n.node()) == Err::<Values, Problem>(e)
                && final(s)@ == old(s)@,
        },
{
    let name = n.name.as_str();
    if let Err(e) = one(n) {
        return Err(e);
    }
    let arg = n.args[0].as_str();
    if text::same(name, "real_ip_recursive") {
        match value::switch(arg) {
            Err(e) => return Err(Problem::Value(e)),
            Ok(x) => {
                s.settings.identity.recursive = x;
            },
        }
    } else if text::same(name, "real_ip_header") {
        match header::name(arg) {
            None => return Err(Problem::InvalidHeaderName),
            Some(x) => {
                s.settings.identity.header = x;
            },
        }
    } else if text::same(name, "set_real_ip_from") {
        match net::network(arg) {
            None => return Err(Problem::InvalidNetwork),
            Some(x) => {
                s.settings.identity.trusted.push(x);
            },
        }
    } else {
        let allow = text::same(name, "allow");
        if text::same(arg, "all") {
            s.settings.identity.access.push(AccessRule { network: None, allow });
        } else {
            match net::network(arg) {
                None => return Err(Problem::InvalidNetwork),
                Some(x) => {
                    s.settings.identity.access.push(AccessRule { network: Some(x), allow });
                },
            }
        }
    }
    Ok(())
}

/// Whether a directive is on logs, compression or client identity.
pub open spec fn policy_directive(name: Seq<char>) -> bool {
    log_directive(name) || compression_directive(name) || identity_directive(name)
}

/// Applies a directive on logs, compression or client identity; `false` where it is another one.
pub fn apply_policy(s: &mut Scope, n: &Directive) -> (r: Result<bool, Problem>)
    requires
        old(s).wf(),
    ensures
        final(s).wf(),
        match r {
            Ok(true) => policy_directive(n.name@) && policy_applied(old(s)@, n.node()) == Ok::<
                State,
                Problem,
            >(final(s)@),
            Ok(false) => !policy_directive(n.name@) && final(s)@ == old(s)@,
            Err(e) => policy_directive(n.name@) && policy_applied(old(s)@, n.node()) == Err::<
                State,
                Problem,
            >(e) && final(s)@ == old(s)@,
        },
{
    let name = n.name.as_str();
    if !is_log(name) && !is_compression(name) && !is_identity(name) {
        return Ok(false);
    }
    let mut next = s.copy();
    let r = if is_log(n.name.as_str()) {
        apply_log(&mut next, n)
    } else if is_compression(n.name.as_str()) {
        apply_compression(&mut next, n)
    } else {
        apply_identity(&mut next, n)
    };
    if let Err(e) = r {
        return Err(e);
    }
    if let Err(e) = next.settings.identity.validate() {
        return Err(Problem::Identity(e));
    }
    *s = next;
    Ok(true)
}

fn is_log(name: &str) -> (r: bool)
    ensures
        r == log_directive(name@),
{
    text::same(name, "rgnix_log_query") || text::same(name, "rgnix_log_client") || text::same(
        name,
        "rgnix_log_referer",
    ) || text::same(name, "rgnix_log_redact") || text::same(name, "rgnix_log_fields")
}

fn is_compression(name: &str) -> (r: bool)
    ensures
        r == compression_directive(name@),
{
    text::same(name, "gzip") || text::same(name, "brotli") || text::same(name, "gzip_comp_level")
        || text::same(name, "brotli_comp_level") || text::same(name, "gzip_min_length")
        || text::same(name, "gzip_types")
}

fn is_identity(name: &str) -> (r: bool)
    ensures
        r == identity_directive(name@),
{
    text::same(name, "set_real_ip_from") || text::same(name, "real_ip_header") || text::same(
        name,
        "real_ip_recursive",
    ) || text::same(name, "allow") || text::same(name, "deny")
}

fn is_file(name: &str) -> (r: bool)
    ensures
        r == file_directive(name@),
{
    text::same(name, "root") || text::same(name, "index") || text::same(name, "default_type")
        || text::same(name, "access_log") || text::same(name, "error_log")
}

fn is_action(name: &str) -> (r: bool)
    ensures
        r == action_directive(name@),
{
    text::same(name, "proxy_pass") || text::same(name, "return") || text::same(
        name,
        "proxy_set_header",
    ) || text::same(name, "add_header")
}

fn is_limit(name: &str) -> (r: bool)
    ensures
        r == limit_directive(name@),
{
    text::same(name, "client_max_body_size") || text::same(name, "proxy_connect_timeout")
        || text::same(name, "proxy_read_timeout") || text::same(name, "proxy_send_timeout")
        || text::same(name, "keepalive_timeout")
}

fn is_server(name: &str) -> (r: bool)
    ensures
        r == server_directive(name@),
{
    text::same(name, "ssl_certificate") || text::same(name, "ssl_certificate_key") || text::same(
        name,
        "http2",
    ) || text::same(name, "rgnix_script")
}

// ---------------------------------------------------------------------------
// MIME types
// ---------------------------------------------------------------------------

/// `m` with the extensions of a type.
pub open spec fn extended(
    m: Map<Seq<char>, Seq<char>>,
    exts: Seq<Seq<char>>,
    kind: Seq<char>,
) -> Map<Seq<char>, Seq<char>>
    decreases exts.len(),
{
    if exts.len() == 0 {
        m
    } else {
        extended(m, exts.drop_last(), kind).insert(text::lowercase(exts.last()), kind)
    }
}

/// The map that a block of types gives; an extension that occurs twice has the later type.
pub open spec fn mime_of(v: Seq<Node>) -> Result<Map<Seq<char>, Seq<char>>, Problem>
    decreases v.len(),
{
    if v.len() == 0 {
        Ok(Map::empty())
    } else {
        match mime_of(v.drop_last()) {
            Err(e) => Err(e),
            Ok(m) => if v.last().children is Some {
                Err(Problem::TakesNoBlock)
            } else if v.last().args.len() == 0 {
                Err(Problem::MimeTypeWithoutExtensions)
            } else {
                Ok(extended(m, v.last().args, v.last().name))
            },
        }
    }
}

pub open spec fn types_applied(s: State, n: Node) -> Result<State, Problem> {
    and(
        guard(n.args.len() == 0, Problem::TakesNoArguments),
        match n.children {
            None => Err(Problem::RequiresBlock),
            Some(v) => match mime_of(v) {
                Err(e) => Err(e),
                Ok(m) => Ok(with(s, Values { mime: m, ..s.settings })),
            },
        },
    )
}

proof fn lemma_mime_error(v: Seq<Node>, n: int)
    requires
        0 <= n <= v.len(),
        mime_of(v.take(n)) is Err,
    ensures
        mime_of(v) == mime_of(v.take(n)),
    decreases v.len(),
{
    if n == v.len() {
        assert(v.take(n) =~= v);
    } else {
        assert(v.drop_last().take(n) =~= v.take(n));
        lemma_mime_error(v.drop_last(), n);
    }
}

fn apply_types(s: &mut Scope, n: &Directive) -> (r: Result<(), Problem>)
    requires
        old(s).wf(),
    ensures
        final(s).wf(),
        became(r, old(s)@, final(s)@, types_applied(old(s)@, n.node())),
{
    assert(n.node().args.len() == n.args@.len());
    if n.args.len() != 0 {
        return Err(Problem::TakesNoArguments);
    }
    let children = match &n.children {
        Some(c) => c,
        None => return Err(Problem::RequiresBlock),
    };
    proof {
        crate::config::syntax::lemma_node(*n);
    }
    let ghost all = crate::config::syntax::nodes(children@);
    let mut mime = crate::table::Table::new();
    let mut i: usize = 0;
    while i < children.len()
        invariant
            i <= children.len(),
            all == crate::config::syntax::nodes(children@),
            n.node().children == Some(all),
            n.node().args.len() == 0,
            s@ == old(s)@,
            s.wf(),
            mime.wf(),
            mime_of(all.take(i as int)) == Ok::<Map<Seq<char>, Seq<char>>, Problem>(mime@),
        decreases children.len() - i,
    {
        let d = &children[i];
        proof {
            assert(all.take(i + 1).drop_last() =~= all.take(i as int));
            assert(all.take(i + 1).last() == d.node());
            assert(d.node().args.len() == d.args@.len());
        }
        if d.children.is_some() {
            proof {
                lemma_mime_error(all, i + 1);
            }
            return Err(Problem::TakesNoBlock);
        }
        if d.args.len() == 0 {
            proof {
                lemma_mime_error(all, i + 1);
            }
            return Err(Problem::MimeTypeWithoutExtensions);
        }
        let ghost before = mime@;
        let ghost exts = texts(d.args@);
        let mut j: usize = 0;
        while j < d.args.len()
            invariant
                j <= d.args.len(),
                exts == texts(d.args@),
                mime.wf(),
                mime@ == extended(before, exts.take(j as int), d.name@),
            decreases d.args.len() - j,
        {
            assert(exts.take(j + 1).drop_last() =~= exts.take(j as int));
            mime.insert(text::to_lowercase(d.args[j].as_str()), d.name.clone());
            j += 1;
        }
        assert(exts.take(j as int) =~= exts);
        i += 1;
    }
    assert(all.take(i as int) =~= all);
    s.settings.mime = mime;
    Ok(())
}

// ---------------------------------------------------------------------------
// Any directive
// ---------------------------------------------------------------------------

/// What a directive does to the scope of the block that it stands in.
pub open spec fn applied(s: State, n: Node, base: Seq<char>, context: Context) -> Result<
    State,
    Problem,
> {
    if n.name == "types"@ {
        types_applied(s, n)
    } else if n.children is Some {
        Err(Problem::TakesNoBlock)
    } else if file_directive(n.name) {
        file_applied(s, n, base, context)
    } else if action_directive(n.name) {
        action_applied(s, n, context)
    } else if limit_directive(n.name) {
        limit_applied(s, n)
    } else if server_directive(n.name) {
        server_applied(s, n, base, context)
    } else {
        Err(Problem::Unsupported)
    }
}

/// Applies a directive to the scope of the block that it stands in.
pub fn apply(s: &mut Scope, n: &Directive, base: &str, context: Context) -> (r: Result<
    (),
    Problem,
>)
    requires
        old(s).wf(),
    ensures
        final(s).wf(),
        became(r, old(s)@, final(s)@, applied(old(s)@, n.node(), base@, context)),
{
    let name = n.name.as_str();
    if text::same(name, "types") {
        return apply_types(s, n);
    }
    if n.children.is_some() {
        return Err(Problem::TakesNoBlock);
    }
    if is_file(name) {
        apply_file(s, n, base, context)
    } else if is_action(name) {
        apply_action(s, n, context)
    } else if is_limit(name) {
        apply_limit(s, n)
    } else if is_server(name) {
        apply_server(s, n, base, context)
    } else {
        Err(Problem::Unsupported)
    }
}

/// The scope after several directives, or the first problem.
pub open spec fn all_applied(s: State, v: Seq<Node>, base: Seq<char>, context: Context) -> Result<
    State,
    (Seq<char>, Problem),
>
    decreases v.len(),
{
    if v.len() == 0 {
        Ok(s)
    } else {
        match all_applied(s, v.drop_last(), base, context) {
            Err(e) => Err(e),
            Ok(t) => match applied(t, v.last(), base, context) {
                Ok(u) => Ok(u),
                Err(e) => Err((v.last().source, e)),
            },
        }
    }
}

/// Whether headers that an outer block set are dropped: a block that sets some of its own starts afresh.
pub open spec fn fresh_headers(s: State, v: Seq<Node>) -> State {
    let w = s.settings;
    State {
        settings: Values {
            request_headers: if names_one(v, "proxy_set_header"@) {
                Seq::empty()
            } else {
                w.request_headers
            },
            response_headers: if names_one(v, "add_header"@) {
                Seq::empty()
            } else {
                w.response_headers
            },
            ..w
        },
        ..s
    }
}

pub open spec fn names_one(v: Seq<Node>, name: Seq<char>) -> bool {
    exists|i: int| 0 <= i < v.len() && (#[trigger] v[i]).name == name
}

fn any_named(v: &Vec<Directive>, name: &str) -> (r: bool)
    ensures
        r == names_one(crate::config::syntax::nodes(v@), name@),
{
    let ghost all = crate::config::syntax::nodes(v@);
    let mut i: usize = 0;
    while i < v.len()
        invariant
            i <= v.len(),
            all == crate::config::syntax::nodes(v@),
            forall|j: int| 0 <= j < i ==> (#[trigger] all[j]).name != name@,
        decreases v.len() - i,
    {
        assert(all[i as int].name == v@[i as int].name@);
        if text::same(v[i].name.as_str(), name) {
            return true;
        }
        i += 1;
    }
    false
}

/// Drops headers that an outer block set where the block sets some of its own.
pub fn reset_header_inheritance(s: &mut Scope, v: &Vec<Directive>)
    requires
        old(s).wf(),
    ensures
        final(s).wf(),
        final(s)@ == fresh_headers(old(s)@, crate::config::syntax::nodes(v@)),
{
    if any_named(v, "proxy_set_header") {
        s.settings.request_headers = Vec::new();
        assert(pairs(s.settings.request_headers@) =~= Seq::empty());
    }
    if any_named(v, "add_header") {
        s.settings.response_headers = Vec::new();
        assert(added(s.settings.response_headers@) =~= Seq::empty());
    }
}

// ---------------------------------------------------------------------------
// Laws
// ---------------------------------------------------------------------------

/// `proxy_connect_timeout` sets how long is waited for a connection to a backend, in milliseconds, and
/// nothing else.
pub proof fn law_proxy_connect_timeout_sets_its_time(
    s: State,
    n: Node,
    base: Seq<char>,
    context: Context,
    x: u64,
)
    requires
        n.children is None,
        n.name == "proxy_connect_timeout"@,
        n.args.len() == 1,
        duration_of(n.args[0]) == Ok::<u64, ValueError>(x),
    ensures
        applied(s, n, base, context) == Ok::<State, Problem>(
            State { settings: Values { connect_timeout: x, ..s.settings }, ..s },
        ),
{
    reveal_strlit("proxy_connect_timeout");
    reveal_strlit("types");
    assert("proxy_connect_timeout"@.len() != "types"@.len());
    reveal_strlit("root");
    assert("proxy_connect_timeout"@.len() != "root"@.len());
    reveal_strlit("index");
    assert("proxy_connect_timeout"@.len() != "index"@.len());
    reveal_strlit("default_type");
    assert("proxy_connect_timeout"@.len() != "default_type"@.len());
    reveal_strlit("access_log");
    assert("proxy_connect_timeout"@.len() != "access_log"@.len());
    reveal_strlit("error_log");
    assert("proxy_connect_timeout"@.len() != "error_log"@.len());
    reveal_strlit("proxy_pass");
    assert("proxy_connect_timeout"@.len() != "proxy_pass"@.len());
    reveal_strlit("return");
    assert("proxy_connect_timeout"@.len() != "return"@.len());
    reveal_strlit("proxy_set_header");
    assert("proxy_connect_timeout"@.len() != "proxy_set_header"@.len());
    reveal_strlit("add_header");
    assert("proxy_connect_timeout"@.len() != "add_header"@.len());
    reveal_strlit("client_max_body_size");
    assert("proxy_connect_timeout"@.len() != "client_max_body_size"@.len());
    reveal_strlit("proxy_read_timeout");
    assert("proxy_connect_timeout"@.len() != "proxy_read_timeout"@.len());
    reveal_strlit("proxy_send_timeout");
    assert("proxy_connect_timeout"@.len() != "proxy_send_timeout"@.len());
    reveal_strlit("keepalive_timeout");
    assert("proxy_connect_timeout"@.len() != "keepalive_timeout"@.len());
    reveal_strlit("ssl_certificate");
    assert("proxy_connect_timeout"@.len() != "ssl_certificate"@.len());
    reveal_strlit("ssl_certificate_key");
    assert("proxy_connect_timeout"@.len() != "ssl_certificate_key"@.len());
    reveal_strlit("http2");
    assert("proxy_connect_timeout"@.len() != "http2"@.len());
    reveal_strlit("rgnix_script");
    assert("proxy_connect_timeout"@.len() != "rgnix_script"@.len());
}

/// `proxy_read_timeout` sets how long is waited for an answer of a backend, in milliseconds, and
/// nothing else.
pub proof fn law_proxy_read_timeout_sets_its_time(
    s: State,
    n: Node,
    base: Seq<char>,
    context: Context,
    x: u64,
)
    requires
        n.children is None,
        n.name == "proxy_read_timeout"@,
        n.args.len() == 1,
        duration_of(n.args[0]) == Ok::<u64, ValueError>(x),
    ensures
        applied(s, n, base, context) == Ok::<State, Problem>(
            State { settings: Values { read_timeout: x, ..s.settings }, ..s },
        ),
{
    reveal_strlit("proxy_read_timeout");
    reveal_strlit("types");
    assert("proxy_read_timeout"@.len() != "types"@.len());
    reveal_strlit("root");
    assert("proxy_read_timeout"@.len() != "root"@.len());
    reveal_strlit("index");
    assert("proxy_read_timeout"@.len() != "index"@.len());
    reveal_strlit("default_type");
    assert("proxy_read_timeout"@.len() != "default_type"@.len());
    reveal_strlit("access_log");
    assert("proxy_read_timeout"@.len() != "access_log"@.len());
    reveal_strlit("error_log");
    assert("proxy_read_timeout"@.len() != "error_log"@.len());
    reveal_strlit("proxy_pass");
    assert("proxy_read_timeout"@.len() != "proxy_pass"@.len());
    reveal_strlit("return");
    assert("proxy_read_timeout"@.len() != "return"@.len());
    reveal_strlit("proxy_set_header");
    assert("proxy_read_timeout"@.len() != "proxy_set_header"@.len());
    reveal_strlit("add_header");
    assert("proxy_read_timeout"@.len() != "add_header"@.len());
    reveal_strlit("client_max_body_size");
    assert("proxy_read_timeout"@.len() != "client_max_body_size"@.len());
    reveal_strlit("proxy_connect_timeout");
    assert("proxy_read_timeout"@.len() != "proxy_connect_timeout"@.len());
    reveal_strlit("proxy_send_timeout");
    assert("proxy_read_timeout"@[6] != "proxy_send_timeout"@[6]);
    reveal_strlit("keepalive_timeout");
    assert("proxy_read_timeout"@.len() != "keepalive_timeout"@.len());
    reveal_strlit("ssl_certificate");
    assert("proxy_read_timeout"@.len() != "ssl_certificate"@.len());
    reveal_strlit("ssl_certificate_key");
    assert("proxy_read_timeout"@.len() != "ssl_certificate_key"@.len());
    reveal_strlit("http2");
    assert("proxy_read_timeout"@.len() != "http2"@.len());
    reveal_strlit("rgnix_script");
    assert("proxy_read_timeout"@.len() != "rgnix_script"@.len());
}

/// `proxy_send_timeout` sets how long is waited for a backend to take a request, in milliseconds, and
/// nothing else.
pub proof fn law_proxy_send_timeout_sets_its_time(
    s: State,
    n: Node,
    base: Seq<char>,
    context: Context,
    x: u64,
)
    requires
        n.children is None,
        n.name == "proxy_send_timeout"@,
        n.args.len() == 1,
        duration_of(n.args[0]) == Ok::<u64, ValueError>(x),
    ensures
        applied(s, n, base, context) == Ok::<State, Problem>(
            State { settings: Values { write_timeout: x, ..s.settings }, ..s },
        ),
{
    reveal_strlit("proxy_send_timeout");
    reveal_strlit("types");
    assert("proxy_send_timeout"@.len() != "types"@.len());
    reveal_strlit("root");
    assert("proxy_send_timeout"@.len() != "root"@.len());
    reveal_strlit("index");
    assert("proxy_send_timeout"@.len() != "index"@.len());
    reveal_strlit("default_type");
    assert("proxy_send_timeout"@.len() != "default_type"@.len());
    reveal_strlit("access_log");
    assert("proxy_send_timeout"@.len() != "access_log"@.len());
    reveal_strlit("error_log");
    assert("proxy_send_timeout"@.len() != "error_log"@.len());
    reveal_strlit("proxy_pass");
    assert("proxy_send_timeout"@.len() != "proxy_pass"@.len());
    reveal_strlit("return");
    assert("proxy_send_timeout"@.len() != "return"@.len());
    reveal_strlit("proxy_set_header");
    assert("proxy_send_timeout"@.len() != "proxy_set_header"@.len());
    reveal_strlit("add_header");
    assert("proxy_send_timeout"@.len() != "add_header"@.len());
    reveal_strlit("client_max_body_size");
    assert("proxy_send_timeout"@.len() != "client_max_body_size"@.len());
    reveal_strlit("proxy_connect_timeout");
    assert("proxy_send_timeout"@.len() != "proxy_connect_timeout"@.len());
    reveal_strlit("proxy_read_timeout");
    assert("proxy_send_timeout"@[6] != "proxy_read_timeout"@[6]);
    reveal_strlit("keepalive_timeout");
    assert("proxy_send_timeout"@.len() != "keepalive_timeout"@.len());
    reveal_strlit("ssl_certificate");
    assert("proxy_send_timeout"@.len() != "ssl_certificate"@.len());
    reveal_strlit("ssl_certificate_key");
    assert("proxy_send_timeout"@.len() != "ssl_certificate_key"@.len());
    reveal_strlit("http2");
    assert("proxy_send_timeout"@.len() != "http2"@.len());
    reveal_strlit("rgnix_script");
    assert("proxy_send_timeout"@.len() != "rgnix_script"@.len());
}

/// `keepalive_timeout` sets how long is waited for a further request, in milliseconds, and
/// nothing else.
pub proof fn law_keepalive_timeout_sets_its_time(
    s: State,
    n: Node,
    base: Seq<char>,
    context: Context,
    x: u64,
)
    requires
        n.children is None,
        n.name == "keepalive_timeout"@,
        n.args.len() == 1,
        duration_of(n.args[0]) == Ok::<u64, ValueError>(x),
    ensures
        applied(s, n, base, context) == Ok::<State, Problem>(
            State { settings: Values { keepalive: x, ..s.settings }, ..s },
        ),
{
    reveal_strlit("keepalive_timeout");
    reveal_strlit("types");
    assert("keepalive_timeout"@.len() != "types"@.len());
    reveal_strlit("root");
    assert("keepalive_timeout"@.len() != "root"@.len());
    reveal_strlit("index");
    assert("keepalive_timeout"@.len() != "index"@.len());
    reveal_strlit("default_type");
    assert("keepalive_timeout"@.len() != "default_type"@.len());
    reveal_strlit("access_log");
    assert("keepalive_timeout"@.len() != "access_log"@.len());
    reveal_strlit("error_log");
    assert("keepalive_timeout"@.len() != "error_log"@.len());
    reveal_strlit("proxy_pass");
    assert("keepalive_timeout"@.len() != "proxy_pass"@.len());
    reveal_strlit("return");
    assert("keepalive_timeout"@.len() != "return"@.len());
    reveal_strlit("proxy_set_header");
    assert("keepalive_timeout"@.len() != "proxy_set_header"@.len());
    reveal_strlit("add_header");
    assert("keepalive_timeout"@.len() != "add_header"@.len());
    reveal_strlit("client_max_body_size");
    assert("keepalive_timeout"@.len() != "client_max_body_size"@.len());
    reveal_strlit("proxy_connect_timeout");
    assert("keepalive_timeout"@.len() != "proxy_connect_timeout"@.len());
    reveal_strlit("proxy_read_timeout");
    assert("keepalive_timeout"@.len() != "proxy_read_timeout"@.len());
    reveal_strlit("proxy_send_timeout");
    assert("keepalive_timeout"@.len() != "proxy_send_timeout"@.len());
    reveal_strlit("ssl_certificate");
    assert("keepalive_timeout"@.len() != "ssl_certificate"@.len());
    reveal_strlit("ssl_certificate_key");
    assert("keepalive_timeout"@.len() != "ssl_certificate_key"@.len());
    reveal_strlit("http2");
    assert("keepalive_timeout"@.len() != "http2"@.len());
    reveal_strlit("rgnix_script");
    assert("keepalive_timeout"@.len() != "rgnix_script"@.len());
}

/// `client_max_body_size` sets the longest body in bytes, and nothing else.
pub proof fn law_client_max_body_size_sets_the_limit(
    s: State,
    n: Node,
    base: Seq<char>,
    context: Context,
    x: u64,
)
    requires
        n.children is None,
        n.name == "client_max_body_size"@,
        n.args.len() == 1,
        size_of(n.args[0]) == Ok::<u64, ValueError>(x),
    ensures
        applied(s, n, base, context) == Ok::<State, Problem>(
            State { settings: Values { max_body: x, ..s.settings }, ..s },
        ),
{
    reveal_strlit("client_max_body_size");
    reveal_strlit("types");
    assert("client_max_body_size"@.len() != "types"@.len());
    reveal_strlit("root");
    assert("client_max_body_size"@.len() != "root"@.len());
    reveal_strlit("index");
    assert("client_max_body_size"@.len() != "index"@.len());
    reveal_strlit("default_type");
    assert("client_max_body_size"@.len() != "default_type"@.len());
    reveal_strlit("access_log");
    assert("client_max_body_size"@.len() != "access_log"@.len());
    reveal_strlit("error_log");
    assert("client_max_body_size"@.len() != "error_log"@.len());
    reveal_strlit("proxy_pass");
    assert("client_max_body_size"@.len() != "proxy_pass"@.len());
    reveal_strlit("return");
    assert("client_max_body_size"@.len() != "return"@.len());
    reveal_strlit("proxy_set_header");
    assert("client_max_body_size"@.len() != "proxy_set_header"@.len());
    reveal_strlit("add_header");
    assert("client_max_body_size"@.len() != "add_header"@.len());
    reveal_strlit("proxy_connect_timeout");
    assert("client_max_body_size"@.len() != "proxy_connect_timeout"@.len());
    reveal_strlit("proxy_read_timeout");
    assert("client_max_body_size"@.len() != "proxy_read_timeout"@.len());
    reveal_strlit("proxy_send_timeout");
    assert("client_max_body_size"@.len() != "proxy_send_timeout"@.len());
    reveal_strlit("keepalive_timeout");
    assert("client_max_body_size"@.len() != "keepalive_timeout"@.len());
    reveal_strlit("ssl_certificate");
    assert("client_max_body_size"@.len() != "ssl_certificate"@.len());
    reveal_strlit("ssl_certificate_key");
    assert("client_max_body_size"@.len() != "ssl_certificate_key"@.len());
    reveal_strlit("http2");
    assert("client_max_body_size"@.len() != "http2"@.len());
    reveal_strlit("rgnix_script");
    assert("client_max_body_size"@.len() != "rgnix_script"@.len());
}

/// `root` sets where files are, below the directory of the configuration, and nothing else.
pub proof fn law_root_sets_the_root(
    s: State,
    n: Node,
    base: Seq<char>,
    context: Context,
)
    requires
        n.children is None,
        n.name == "root"@,
        n.args.len() == 1,
        !n.args[0].contains('$'),
    ensures
        applied(s, n, base, context) == Ok::<State, Problem>(
            State { settings: Values { root: path::joined(base, n.args[0]), ..s.settings }, ..s },
        ),
{
    reveal_strlit("root");
    reveal_strlit("types");
    assert("root"@.len() != "types"@.len());
    reveal_strlit("index");
    assert("root"@.len() != "index"@.len());
    reveal_strlit("default_type");
    assert("root"@.len() != "default_type"@.len());
    reveal_strlit("access_log");
    assert("root"@.len() != "access_log"@.len());
    reveal_strlit("error_log");
    assert("root"@.len() != "error_log"@.len());
    reveal_strlit("proxy_pass");
    assert("root"@.len() != "proxy_pass"@.len());
    reveal_strlit("return");
    assert("root"@.len() != "return"@.len());
    reveal_strlit("proxy_set_header");
    assert("root"@.len() != "proxy_set_header"@.len());
    reveal_strlit("add_header");
    assert("root"@.len() != "add_header"@.len());
    reveal_strlit("client_max_body_size");
    assert("root"@.len() != "client_max_body_size"@.len());
    reveal_strlit("proxy_connect_timeout");
    assert("root"@.len() != "proxy_connect_timeout"@.len());
    reveal_strlit("proxy_read_timeout");
    assert("root"@.len() != "proxy_read_timeout"@.len());
    reveal_strlit("proxy_send_timeout");
    assert("root"@.len() != "proxy_send_timeout"@.len());
    reveal_strlit("keepalive_timeout");
    assert("root"@.len() != "keepalive_timeout"@.len());
    reveal_strlit("ssl_certificate");
    assert("root"@.len() != "ssl_certificate"@.len());
    reveal_strlit("ssl_certificate_key");
    assert("root"@.len() != "ssl_certificate_key"@.len());
    reveal_strlit("http2");
    assert("root"@.len() != "http2"@.len());
    reveal_strlit("rgnix_script");
    assert("root"@.len() != "rgnix_script"@.len());
}

/// `index` sets the names of index files in their order, and nothing else.
pub proof fn law_index_sets_the_index(
    s: State,
    n: Node,
    base: Seq<char>,
    context: Context,
)
    requires
        n.children is None,
        n.name == "index"@,
        n.args.len() > 0,
        forall|i: int|
            0 <= i < n.args.len() ==> !(#[trigger] n.args[i]).contains('/') && n.args[i] != ".."@,
    ensures
        applied(s, n, base, context) == Ok::<State, Problem>(
            State { settings: Values { index: n.args, ..s.settings }, ..s },
        ),
{
    reveal_strlit("index");
    reveal_strlit("types");
    assert("index"@[0] != "types"@[0]);
    reveal_strlit("root");
    assert("index"@.len() != "root"@.len());
    reveal_strlit("default_type");
    assert("index"@.len() != "default_type"@.len());
    reveal_strlit("access_log");
    assert("index"@.len() != "access_log"@.len());
    reveal_strlit("error_log");
    assert("index"@.len() != "error_log"@.len());
    reveal_strlit("proxy_pass");
    assert("index"@.len() != "proxy_pass"@.len());
    reveal_strlit("return");
    assert("index"@.len() != "return"@.len());
    reveal_strlit("proxy_set_header");
    assert("index"@.len() != "proxy_set_header"@.len());
    reveal_strlit("add_header");
    assert("index"@.len() != "add_header"@.len());
    reveal_strlit("client_max_body_size");
    assert("index"@.len() != "client_max_body_size"@.len());
    reveal_strlit("proxy_connect_timeout");
    assert("index"@.len() != "proxy_connect_timeout"@.len());
    reveal_strlit("proxy_read_timeout");
    assert("index"@.len() != "proxy_read_timeout"@.len());
    reveal_strlit("proxy_send_timeout");
    assert("index"@.len() != "proxy_send_timeout"@.len());
    reveal_strlit("keepalive_timeout");
    assert("index"@.len() != "keepalive_timeout"@.len());
    reveal_strlit("ssl_certificate");
    assert("index"@.len() != "ssl_certificate"@.len());
    reveal_strlit("ssl_certificate_key");
    assert("index"@.len() != "ssl_certificate_key"@.len());
    reveal_strlit("http2");
    assert("index"@[0] != "http2"@[0]);
    reveal_strlit("rgnix_script");
    assert("index"@.len() != "rgnix_script"@.len());
}

/// `default_type` sets the type of files without a known one, and nothing else.
pub proof fn law_default_type_sets_the_type(
    s: State,
    n: Node,
    base: Seq<char>,
    context: Context,
)
    requires
        n.children is None,
        n.name == "default_type"@,
        n.args.len() == 1,
        header::valid_value(n.args[0]),
    ensures
        applied(s, n, base, context) == Ok::<State, Problem>(
            State { settings: Values { default_type: n.args[0], ..s.settings }, ..s },
        ),
{
    reveal_strlit("default_type");
    reveal_strlit("types");
    assert("default_type"@.len() != "types"@.len());
    reveal_strlit("root");
    assert("default_type"@.len() != "root"@.len());
    reveal_strlit("index");
    assert("default_type"@.len() != "index"@.len());
    reveal_strlit("access_log");
    assert("default_type"@.len() != "access_log"@.len());
    reveal_strlit("error_log");
    assert("default_type"@.len() != "error_log"@.len());
    reveal_strlit("proxy_pass");
    assert("default_type"@.len() != "proxy_pass"@.len());
    reveal_strlit("return");
    assert("default_type"@.len() != "return"@.len());
    reveal_strlit("proxy_set_header");
    assert("default_type"@.len() != "proxy_set_header"@.len());
    reveal_strlit("add_header");
    assert("default_type"@.len() != "add_header"@.len());
    reveal_strlit("client_max_body_size");
    assert("default_type"@.len() != "client_max_body_size"@.len());
    reveal_strlit("proxy_connect_timeout");
    assert("default_type"@.len() != "proxy_connect_timeout"@.len());
    reveal_strlit("proxy_read_timeout");
    assert("default_type"@.len() != "proxy_read_timeout"@.len());
    reveal_strlit("proxy_send_timeout");
    assert("default_type"@.len() != "proxy_send_timeout"@.len());
    reveal_strlit("keepalive_timeout");
    assert("default_type"@.len() != "keepalive_timeout"@.len());
    reveal_strlit("ssl_certificate");
    assert("default_type"@.len() != "ssl_certificate"@.len());
    reveal_strlit("ssl_certificate_key");
    assert("default_type"@.len() != "ssl_certificate_key"@.len());
    reveal_strlit("http2");
    assert("default_type"@.len() != "http2"@.len());
    reveal_strlit("rgnix_script");
    assert("default_type"@[0] != "rgnix_script"@[0]);
}

/// `access_log` sets the file of the access log, or switches it off, and nothing else.
pub proof fn law_access_log_sets_the_log(
    s: State,
    n: Node,
    base: Seq<char>,
    context: Context,
)
    requires
        n.children is None,
        n.name == "access_log"@,
        n.args.len() == 1,
    ensures
        n.args[0] == "off"@ ==> applied(s, n, base, context) == Ok::<State, Problem>(
            State { settings: Values { access_log: None, ..s.settings }, ..s },
        ),
        n.args[0] != "off"@ ==> applied(s, n, base, context) == Ok::<State, Problem>(
            State { settings: Values { access_log: Some(path::joined(base, n.args[0])), ..s.settings }, ..s },
        ),
{
    reveal_strlit("access_log");
    reveal_strlit("types");
    assert("access_log"@.len() != "types"@.len());
    reveal_strlit("root");
    assert("access_log"@.len() != "root"@.len());
    reveal_strlit("index");
    assert("access_log"@.len() != "index"@.len());
    reveal_strlit("default_type");
    assert("access_log"@.len() != "default_type"@.len());
    reveal_strlit("error_log");
    assert("access_log"@.len() != "error_log"@.len());
    reveal_strlit("proxy_pass");
    assert("access_log"@[0] != "proxy_pass"@[0]);
    reveal_strlit("return");
    assert("access_log"@.len() != "return"@.len());
    reveal_strlit("proxy_set_header");
    assert("access_log"@.len() != "proxy_set_header"@.len());
    reveal_strlit("add_header");
    assert("access_log"@[1] != "add_header"@[1]);
    reveal_strlit("client_max_body_size");
    assert("access_log"@.len() != "client_max_body_size"@.len());
    reveal_strlit("proxy_connect_timeout");
    assert("access_log"@.len() != "proxy_connect_timeout"@.len());
    reveal_strlit("proxy_read_timeout");
    assert("access_log"@.len() != "proxy_read_timeout"@.len());
    reveal_strlit("proxy_send_timeout");
    assert("access_log"@.len() != "proxy_send_timeout"@.len());
    reveal_strlit("keepalive_timeout");
    assert("access_log"@.len() != "keepalive_timeout"@.len());
    reveal_strlit("ssl_certificate");
    assert("access_log"@.len() != "ssl_certificate"@.len());
    reveal_strlit("ssl_certificate_key");
    assert("access_log"@.len() != "ssl_certificate_key"@.len());
    reveal_strlit("http2");
    assert("access_log"@.len() != "http2"@.len());
    reveal_strlit("rgnix_script");
    assert("access_log"@.len() != "rgnix_script"@.len());
}

/// `error_log` sets the file of the error log and its level, in the outermost block only, and nothing else.
pub proof fn law_error_log_sets_the_log(
    s: State,
    n: Node,
    base: Seq<char>,
    context: Context,
)
    requires
        n.children is None,
        n.name == "error_log"@,
        n.args.len() == 2,
        n.args[1] == "error"@ || n.args[1] == "warn"@ || n.args[1] == "info"@ || n.args[1] == "debug"@,
        n.args[0] != "stderr"@,
    ensures
        context == Context::Http ==> applied(s, n, base, context) == Ok::<State, Problem>(
            State { error_log: Some((path::joined(base, n.args[0]), n.args[1])), ..s },
        ),
        context != Context::Http ==> applied(s, n, base, context) is Err,
{
    reveal_strlit("error_log");
    reveal_strlit("types");
    assert("error_log"@.len() != "types"@.len());
    reveal_strlit("root");
    assert("error_log"@.len() != "root"@.len());
    reveal_strlit("index");
    assert("error_log"@.len() != "index"@.len());
    reveal_strlit("default_type");
    assert("error_log"@.len() != "default_type"@.len());
    reveal_strlit("access_log");
    assert("error_log"@.len() != "access_log"@.len());
    reveal_strlit("proxy_pass");
    assert("error_log"@.len() != "proxy_pass"@.len());
    reveal_strlit("return");
    assert("error_log"@.len() != "return"@.len());
    reveal_strlit("proxy_set_header");
    assert("error_log"@.len() != "proxy_set_header"@.len());
    reveal_strlit("add_header");
    assert("error_log"@.len() != "add_header"@.len());
    reveal_strlit("client_max_body_size");
    assert("error_log"@.len() != "client_max_body_size"@.len());
    reveal_strlit("proxy_connect_timeout");
    assert("error_log"@.len() != "proxy_connect_timeout"@.len());
    reveal_strlit("proxy_read_timeout");
    assert("error_log"@.len() != "proxy_read_timeout"@.len());
    reveal_strlit("proxy_send_timeout");
    assert("error_log"@.len() != "proxy_send_timeout"@.len());
    reveal_strlit("keepalive_timeout");
    assert("error_log"@.len() != "keepalive_timeout"@.len());
    reveal_strlit("ssl_certificate");
    assert("error_log"@.len() != "ssl_certificate"@.len());
    reveal_strlit("ssl_certificate_key");
    assert("error_log"@.len() != "ssl_certificate_key"@.len());
    reveal_strlit("http2");
    assert("error_log"@.len() != "http2"@.len());
    reveal_strlit("rgnix_script");
    assert("error_log"@.len() != "rgnix_script"@.len());
}

/// `proxy_pass` passes the requests of a location to an address, unless an answer is given already. It
/// stands in a location only.
pub proof fn law_proxy_pass_sets_the_backend(
    s: State,
    n: Node,
    base: Seq<char>,
    context: Context,
)
    requires
        n.children is None,
        n.name == "proxy_pass"@,
        n.args.len() == 1,
        !n.args[0].contains('$'),
        proxy_checked(n.args[0], parsed_url(n.args[0])) is Ok,
        !(s.action matches Some(Deed::Return { .. })),
    ensures
        context == Context::Location ==> applied(s, n, base, context) == Ok::<State, Problem>(
            State { action: Some(Deed::Proxy { backend: n.args[0], uri: None }), ..s },
        ),
        context != Context::Location ==> applied(s, n, base, context) is Err,
{
    reveal_strlit("proxy_pass");
    reveal_strlit("types");
    assert("proxy_pass"@.len() != "types"@.len());
    reveal_strlit("root");
    assert("proxy_pass"@.len() != "root"@.len());
    reveal_strlit("index");
    assert("proxy_pass"@.len() != "index"@.len());
    reveal_strlit("default_type");
    assert("proxy_pass"@.len() != "default_type"@.len());
    reveal_strlit("access_log");
    assert("proxy_pass"@[0] != "access_log"@[0]);
    reveal_strlit("error_log");
    assert("proxy_pass"@.len() != "error_log"@.len());
    reveal_strlit("return");
    assert("proxy_pass"@.len() != "return"@.len());
    reveal_strlit("proxy_set_header");
    assert("proxy_pass"@.len() != "proxy_set_header"@.len());
    reveal_strlit("add_header");
    assert("proxy_pass"@[0] != "add_header"@[0]);
    reveal_strlit("client_max_body_size");
    assert("proxy_pass"@.len() != "client_max_body_size"@.len());
    reveal_strlit("proxy_connect_timeout");
    assert("proxy_pass"@.len() != "proxy_connect_timeout"@.len());
    reveal_strlit("proxy_read_timeout");
    assert("proxy_pass"@.len() != "proxy_read_timeout"@.len());
    reveal_strlit("proxy_send_timeout");
    assert("proxy_pass"@.len() != "proxy_send_timeout"@.len());
    reveal_strlit("keepalive_timeout");
    assert("proxy_pass"@.len() != "keepalive_timeout"@.len());
    reveal_strlit("ssl_certificate");
    assert("proxy_pass"@.len() != "ssl_certificate"@.len());
    reveal_strlit("ssl_certificate_key");
    assert("proxy_pass"@.len() != "ssl_certificate_key"@.len());
    reveal_strlit("http2");
    assert("proxy_pass"@.len() != "http2"@.len());
    reveal_strlit("rgnix_script");
    assert("proxy_pass"@.len() != "rgnix_script"@.len());
}

/// `return` gives an answer with a status and a text; the first one counts. It does not stand in the
/// outermost block.
pub proof fn law_return_sets_the_answer(
    s: State,
    n: Node,
    base: Seq<char>,
    context: Context,
    status: nat,
)
    requires
        n.children is None,
        n.name == "return"@,
        n.args.len() == 2,
        text::decimal_upto(n.args[0], u16::MAX as nat) == Some(status),
        variables_checked(n.args[1]) is Ok,
        !(s.action matches Some(Deed::Return { .. })),
    ensures
        context != Context::Http && 200 <= status <= 599 ==> applied(s, n, base, context) == Ok::<
            State,
            Problem,
        >(
            State {
                action: Some(Deed::Return { status: status as u16, text: n.args[1] }),
                ..s
            },
        ),
        context == Context::Http || status < 200 || status > 599 ==> applied(s, n, base, context) is Err,
{
    reveal_strlit("return");
    reveal_strlit("types");
    assert("return"@.len() != "types"@.len());
    reveal_strlit("root");
    assert("return"@.len() != "root"@.len());
    reveal_strlit("index");
    assert("return"@.len() != "index"@.len());
    reveal_strlit("default_type");
    assert("return"@.len() != "default_type"@.len());
    reveal_strlit("access_log");
    assert("return"@.len() != "access_log"@.len());
    reveal_strlit("error_log");
    assert("return"@.len() != "error_log"@.len());
    reveal_strlit("proxy_pass");
    assert("return"@.len() != "proxy_pass"@.len());
    reveal_strlit("proxy_set_header");
    assert("return"@.len() != "proxy_set_header"@.len());
    reveal_strlit("add_header");
    assert("return"@.len() != "add_header"@.len());
    reveal_strlit("client_max_body_size");
    assert("return"@.len() != "client_max_body_size"@.len());
    reveal_strlit("proxy_connect_timeout");
    assert("return"@.len() != "proxy_connect_timeout"@.len());
    reveal_strlit("proxy_read_timeout");
    assert("return"@.len() != "proxy_read_timeout"@.len());
    reveal_strlit("proxy_send_timeout");
    assert("return"@.len() != "proxy_send_timeout"@.len());
    reveal_strlit("keepalive_timeout");
    assert("return"@.len() != "keepalive_timeout"@.len());
    reveal_strlit("ssl_certificate");
    assert("return"@.len() != "ssl_certificate"@.len());
    reveal_strlit("ssl_certificate_key");
    assert("return"@.len() != "ssl_certificate_key"@.len());
    reveal_strlit("http2");
    assert("return"@.len() != "http2"@.len());
    reveal_strlit("rgnix_script");
    assert("return"@.len() != "rgnix_script"@.len());
}

/// `proxy_set_header` adds a field to the requests that go to backends, after those before it, and
/// changes nothing else.
pub proof fn law_proxy_set_header_adds_a_field(
    s: State,
    n: Node,
    base: Seq<char>,
    context: Context,
)
    requires
        n.children is None,
        n.name == "proxy_set_header"@,
        n.args.len() == 2,
        header::valid_name(n.args[0]),
        variables_checked(n.args[1]) is Ok,
    ensures
        applied(s, n, base, context) == Ok::<State, Problem>(
            State { settings: Values { request_headers: s.settings.request_headers.push((n.args[0], n.args[1])), ..s.settings }, ..s },
        ),
{
    reveal_strlit("proxy_set_header");
    reveal_strlit("types");
    assert("proxy_set_header"@.len() != "types"@.len());
    reveal_strlit("root");
    assert("proxy_set_header"@.len() != "root"@.len());
    reveal_strlit("index");
    assert("proxy_set_header"@.len() != "index"@.len());
    reveal_strlit("default_type");
    assert("proxy_set_header"@.len() != "default_type"@.len());
    reveal_strlit("access_log");
    assert("proxy_set_header"@.len() != "access_log"@.len());
    reveal_strlit("error_log");
    assert("proxy_set_header"@.len() != "error_log"@.len());
    reveal_strlit("proxy_pass");
    assert("proxy_set_header"@.len() != "proxy_pass"@.len());
    reveal_strlit("return");
    assert("proxy_set_header"@.len() != "return"@.len());
    reveal_strlit("add_header");
    assert("proxy_set_header"@.len() != "add_header"@.len());
    reveal_strlit("client_max_body_size");
    assert("proxy_set_header"@.len() != "client_max_body_size"@.len());
    reveal_strlit("proxy_connect_timeout");
    assert("proxy_set_header"@.len() != "proxy_connect_timeout"@.len());
    reveal_strlit("proxy_read_timeout");
    assert("proxy_set_header"@.len() != "proxy_read_timeout"@.len());
    reveal_strlit("proxy_send_timeout");
    assert("proxy_set_header"@.len() != "proxy_send_timeout"@.len());
    reveal_strlit("keepalive_timeout");
    assert("proxy_set_header"@.len() != "keepalive_timeout"@.len());
    reveal_strlit("ssl_certificate");
    assert("proxy_set_header"@.len() != "ssl_certificate"@.len());
    reveal_strlit("ssl_certificate_key");
    assert("proxy_set_header"@.len() != "ssl_certificate_key"@.len());
    reveal_strlit("http2");
    assert("proxy_set_header"@.len() != "http2"@.len());
    reveal_strlit("rgnix_script");
    assert("proxy_set_header"@.len() != "rgnix_script"@.len());
}

/// `add_header` adds a field to responses, to failed ones with `always` only, and changes nothing else.
pub proof fn law_add_header_adds_a_field(
    s: State,
    n: Node,
    base: Seq<char>,
    context: Context,
)
    requires
        n.children is None,
        n.name == "add_header"@,
        n.args.len() == 2 || (n.args.len() == 3 && n.args[2] == "always"@),
        header::valid_name(n.args[0]),
        variables_checked(n.args[1]) is Ok,
    ensures
        applied(s, n, base, context) == Ok::<State, Problem>(
            State { settings: Values { response_headers: s.settings.response_headers.push(
                    Added { name: n.args[0], value: n.args[1], always: n.args.len() == 3 },
                ), ..s.settings }, ..s },
        ),
{
    reveal_strlit("add_header");
    reveal_strlit("types");
    assert("add_header"@.len() != "types"@.len());
    reveal_strlit("root");
    assert("add_header"@.len() != "root"@.len());
    reveal_strlit("index");
    assert("add_header"@.len() != "index"@.len());
    reveal_strlit("default_type");
    assert("add_header"@.len() != "default_type"@.len());
    reveal_strlit("access_log");
    assert("add_header"@[1] != "access_log"@[1]);
    reveal_strlit("error_log");
    assert("add_header"@.len() != "error_log"@.len());
    reveal_strlit("proxy_pass");
    assert("add_header"@[0] != "proxy_pass"@[0]);
    reveal_strlit("return");
    assert("add_header"@.len() != "return"@.len());
    reveal_strlit("proxy_set_header");
    assert("add_header"@.len() != "proxy_set_header"@.len());
    reveal_strlit("client_max_body_size");
    assert("add_header"@.len() != "client_max_body_size"@.len());
    reveal_strlit("proxy_connect_timeout");
    assert("add_header"@.len() != "proxy_connect_timeout"@.len());
    reveal_strlit("proxy_read_timeout");
    assert("add_header"@.len() != "proxy_read_timeout"@.len());
    reveal_strlit("proxy_send_timeout");
    assert("add_header"@.len() != "proxy_send_timeout"@.len());
    reveal_strlit("keepalive_timeout");
    assert("add_header"@.len() != "keepalive_timeout"@.len());
    reveal_strlit("ssl_certificate");
    assert("add_header"@.len() != "ssl_certificate"@.len());
    reveal_strlit("ssl_certificate_key");
    assert("add_header"@.len() != "ssl_certificate_key"@.len());
    reveal_strlit("http2");
    assert("add_header"@.len() != "http2"@.len());
    reveal_strlit("rgnix_script");
    assert("add_header"@.len() != "rgnix_script"@.len());
}

/// `ssl_certificate` names the file of the certificate, outside locations, and changes nothing else.
pub proof fn law_ssl_certificate_sets_the_certificate(
    s: State,
    n: Node,
    base: Seq<char>,
    context: Context,
)
    requires
        n.children is None,
        n.name == "ssl_certificate"@,
        n.args.len() == 1,
    ensures
        context != Context::Location ==> applied(s, n, base, context) == Ok::<State, Problem>(
            State { cert: Some(path::joined(base, n.args[0])), ..s },
        ),
        context == Context::Location ==> applied(s, n, base, context) is Err,
{
    reveal_strlit("ssl_certificate");
    reveal_strlit("types");
    assert("ssl_certificate"@.len() != "types"@.len());
    reveal_strlit("root");
    assert("ssl_certificate"@.len() != "root"@.len());
    reveal_strlit("index");
    assert("ssl_certificate"@.len() != "index"@.len());
    reveal_strlit("default_type");
    assert("ssl_certificate"@.len() != "default_type"@.len());
    reveal_strlit("access_log");
    assert("ssl_certificate"@.len() != "access_log"@.len());
    reveal_strlit("error_log");
    assert("ssl_certificate"@.len() != "error_log"@.len());
    reveal_strlit("proxy_pass");
    assert("ssl_certificate"@.len() != "proxy_pass"@.len());
    reveal_strlit("return");
    assert("ssl_certificate"@.len() != "return"@.len());
    reveal_strlit("proxy_set_header");
    assert("ssl_certificate"@.len() != "proxy_set_header"@.len());
    reveal_strlit("add_header");
    assert("ssl_certificate"@.len() != "add_header"@.len());
    reveal_strlit("client_max_body_size");
    assert("ssl_certificate"@.len() != "client_max_body_size"@.len());
    reveal_strlit("proxy_connect_timeout");
    assert("ssl_certificate"@.len() != "proxy_connect_timeout"@.len());
    reveal_strlit("proxy_read_timeout");
    assert("ssl_certificate"@.len() != "proxy_read_timeout"@.len());
    reveal_strlit("proxy_send_timeout");
    assert("ssl_certificate"@.len() != "proxy_send_timeout"@.len());
    reveal_strlit("keepalive_timeout");
    assert("ssl_certificate"@.len() != "keepalive_timeout"@.len());
    reveal_strlit("ssl_certificate_key");
    assert("ssl_certificate"@.len() != "ssl_certificate_key"@.len());
    reveal_strlit("http2");
    assert("ssl_certificate"@.len() != "http2"@.len());
    reveal_strlit("rgnix_script");
    assert("ssl_certificate"@.len() != "rgnix_script"@.len());
}

/// `ssl_certificate_key` names the file of the key, outside locations, and changes nothing else.
pub proof fn law_ssl_certificate_key_sets_the_key(
    s: State,
    n: Node,
    base: Seq<char>,
    context: Context,
)
    requires
        n.children is None,
        n.name == "ssl_certificate_key"@,
        n.args.len() == 1,
    ensures
        context != Context::Location ==> applied(s, n, base, context) == Ok::<State, Problem>(
            State { key: Some(path::joined(base, n.args[0])), ..s },
        ),
        context == Context::Location ==> applied(s, n, base, context) is Err,
{
    reveal_strlit("ssl_certificate_key");
    reveal_strlit("types");
    assert("ssl_certificate_key"@.len() != "types"@.len());
    reveal_strlit("root");
    assert("ssl_certificate_key"@.len() != "root"@.len());
    reveal_strlit("index");
    assert("ssl_certificate_key"@.len() != "index"@.len());
    reveal_strlit("default_type");
    assert("ssl_certificate_key"@.len() != "default_type"@.len());
    reveal_strlit("access_log");
    assert("ssl_certificate_key"@.len() != "access_log"@.len());
    reveal_strlit("error_log");
    assert("ssl_certificate_key"@.len() != "error_log"@.len());
    reveal_strlit("proxy_pass");
    assert("ssl_certificate_key"@.len() != "proxy_pass"@.len());
    reveal_strlit("return");
    assert("ssl_certificate_key"@.len() != "return"@.len());
    reveal_strlit("proxy_set_header");
    assert("ssl_certificate_key"@.len() != "proxy_set_header"@.len());
    reveal_strlit("add_header");
    assert("ssl_certificate_key"@.len() != "add_header"@.len());
    reveal_strlit("client_max_body_size");
    assert("ssl_certificate_key"@.len() != "client_max_body_size"@.len());
    reveal_strlit("proxy_connect_timeout");
    assert("ssl_certificate_key"@.len() != "proxy_connect_timeout"@.len());
    reveal_strlit("proxy_read_timeout");
    assert("ssl_certificate_key"@.len() != "proxy_read_timeout"@.len());
    reveal_strlit("proxy_send_timeout");
    assert("ssl_certificate_key"@.len() != "proxy_send_timeout"@.len());
    reveal_strlit("keepalive_timeout");
    assert("ssl_certificate_key"@.len() != "keepalive_timeout"@.len());
    reveal_strlit("ssl_certificate");
    assert("ssl_certificate_key"@.len() != "ssl_certificate"@.len());
    reveal_strlit("http2");
    assert("ssl_certificate_key"@.len() != "http2"@.len());
    reveal_strlit("rgnix_script");
    assert("ssl_certificate_key"@.len() != "rgnix_script"@.len());
}

/// `http2` is a switch, outside locations, and changes nothing else.
pub proof fn law_http2_is_a_switch(
    s: State,
    n: Node,
    base: Seq<char>,
    context: Context,
    x: bool,
)
    requires
        n.children is None,
        n.name == "http2"@,
        n.args.len() == 1,
        switch_of(n.args[0]) == Ok::<bool, ValueError>(x),
        context != Context::Location,
    ensures
        applied(s, n, base, context) == Ok::<State, Problem>(State { http2: x, ..s }),
{
    reveal_strlit("http2");
    reveal_strlit("types");
    assert("http2"@[0] != "types"@[0]);
    reveal_strlit("root");
    assert("http2"@.len() != "root"@.len());
    reveal_strlit("index");
    assert("http2"@[0] != "index"@[0]);
    reveal_strlit("default_type");
    assert("http2"@.len() != "default_type"@.len());
    reveal_strlit("access_log");
    assert("http2"@.len() != "access_log"@.len());
    reveal_strlit("error_log");
    assert("http2"@.len() != "error_log"@.len());
    reveal_strlit("proxy_pass");
    assert("http2"@.len() != "proxy_pass"@.len());
    reveal_strlit("return");
    assert("http2"@.len() != "return"@.len());
    reveal_strlit("proxy_set_header");
    assert("http2"@.len() != "proxy_set_header"@.len());
    reveal_strlit("add_header");
    assert("http2"@.len() != "add_header"@.len());
    reveal_strlit("client_max_body_size");
    assert("http2"@.len() != "client_max_body_size"@.len());
    reveal_strlit("proxy_connect_timeout");
    assert("http2"@.len() != "proxy_connect_timeout"@.len());
    reveal_strlit("proxy_read_timeout");
    assert("http2"@.len() != "proxy_read_timeout"@.len());
    reveal_strlit("proxy_send_timeout");
    assert("http2"@.len() != "proxy_send_timeout"@.len());
    reveal_strlit("keepalive_timeout");
    assert("http2"@.len() != "keepalive_timeout"@.len());
    reveal_strlit("ssl_certificate");
    assert("http2"@.len() != "ssl_certificate"@.len());
    reveal_strlit("ssl_certificate_key");
    assert("http2"@.len() != "ssl_certificate_key"@.len());
    reveal_strlit("rgnix_script");
    assert("http2"@.len() != "rgnix_script"@.len());
}

/// `rgnix_script` names the file of the script, inside servers, and changes nothing else.
pub proof fn law_rgnix_script_sets_the_script(
    s: State,
    n: Node,
    base: Seq<char>,
    context: Context,
)
    requires
        n.children is None,
        n.name == "rgnix_script"@,
        n.args.len() == 1,
        context != Context::Http,
    ensures
        applied(s, n, base, context) == Ok::<State, Problem>(
            State { script: Some(path::joined(base, n.args[0])), ..s },
        ),
{
    reveal_strlit("rgnix_script");
    reveal_strlit("types");
    assert("rgnix_script"@.len() != "types"@.len());
    reveal_strlit("root");
    assert("rgnix_script"@.len() != "root"@.len());
    reveal_strlit("index");
    assert("rgnix_script"@.len() != "index"@.len());
    reveal_strlit("default_type");
    assert("rgnix_script"@[0] != "default_type"@[0]);
    reveal_strlit("access_log");
    assert("rgnix_script"@.len() != "access_log"@.len());
    reveal_strlit("error_log");
    assert("rgnix_script"@.len() != "error_log"@.len());
    reveal_strlit("proxy_pass");
    assert("rgnix_script"@.len() != "proxy_pass"@.len());
    reveal_strlit("return");
    assert("rgnix_script"@.len() != "return"@.len());
    reveal_strlit("proxy_set_header");
    assert("rgnix_script"@.len() != "proxy_set_header"@.len());
    reveal_strlit("add_header");
    assert("rgnix_script"@.len() != "add_header"@.len());
    reveal_strlit("client_max_body_size");
    assert("rgnix_script"@.len() != "client_max_body_size"@.len());
    reveal_strlit("proxy_connect_timeout");
    assert("rgnix_script"@.len() != "proxy_connect_timeout"@.len());
    reveal_strlit("proxy_read_timeout");
    assert("rgnix_script"@.len() != "proxy_read_timeout"@.len());
    reveal_strlit("proxy_send_timeout");
    assert("rgnix_script"@.len() != "proxy_send_timeout"@.len());
    reveal_strlit("keepalive_timeout");
    assert("rgnix_script"@.len() != "keepalive_timeout"@.len());
    reveal_strlit("ssl_certificate");
    assert("rgnix_script"@.len() != "ssl_certificate"@.len());
    reveal_strlit("ssl_certificate_key");
    assert("rgnix_script"@.len() != "ssl_certificate_key"@.len());
    reveal_strlit("http2");
    assert("rgnix_script"@.len() != "http2"@.len());
}

/// `rgnix_log_query` switches that part of the access log, and nothing else.
pub proof fn law_rgnix_log_query_is_a_switch(
    s: State,
    n: Node,
    x: bool,
)
    requires
        n.name == "rgnix_log_query"@,
        n.args.len() == 1,
        switch_of(n.args[0]) == Ok::<bool, ValueError>(x),
        identity_checked(s.settings) is Ok,
    ensures
        policy_directive(n.name),
        policy_applied(s, n) == Ok::<State, Problem>(
            State { settings: Values { log: (crate::config::settings::LogValues { query: x, ..s.settings.log }), ..s.settings }, ..s },
        ),
{
    reveal_strlit("rgnix_log_query");
    reveal_strlit("rgnix_log_client");
    assert("rgnix_log_query"@.len() != "rgnix_log_client"@.len());
    reveal_strlit("rgnix_log_referer");
    assert("rgnix_log_query"@.len() != "rgnix_log_referer"@.len());
    reveal_strlit("rgnix_log_redact");
    assert("rgnix_log_query"@.len() != "rgnix_log_redact"@.len());
    reveal_strlit("rgnix_log_fields");
    assert("rgnix_log_query"@.len() != "rgnix_log_fields"@.len());
    reveal_strlit("gzip");
    assert("rgnix_log_query"@.len() != "gzip"@.len());
    reveal_strlit("brotli");
    assert("rgnix_log_query"@.len() != "brotli"@.len());
    reveal_strlit("gzip_comp_level");
    assert("rgnix_log_query"@[0] != "gzip_comp_level"@[0]);
    reveal_strlit("brotli_comp_level");
    assert("rgnix_log_query"@.len() != "brotli_comp_level"@.len());
    reveal_strlit("gzip_min_length");
    assert("rgnix_log_query"@[0] != "gzip_min_length"@[0]);
    reveal_strlit("gzip_types");
    assert("rgnix_log_query"@.len() != "gzip_types"@.len());
    reveal_strlit("set_real_ip_from");
    assert("rgnix_log_query"@.len() != "set_real_ip_from"@.len());
    reveal_strlit("real_ip_header");
    assert("rgnix_log_query"@.len() != "real_ip_header"@.len());
    reveal_strlit("real_ip_recursive");
    assert("rgnix_log_query"@.len() != "real_ip_recursive"@.len());
    reveal_strlit("allow");
    assert("rgnix_log_query"@.len() != "allow"@.len());
    reveal_strlit("deny");
    assert("rgnix_log_query"@.len() != "deny"@.len());
}

/// `rgnix_log_client` switches that part of the access log, and nothing else.
pub proof fn law_rgnix_log_client_is_a_switch(
    s: State,
    n: Node,
    x: bool,
)
    requires
        n.name == "rgnix_log_client"@,
        n.args.len() == 1,
        switch_of(n.args[0]) == Ok::<bool, ValueError>(x),
        identity_checked(s.settings) is Ok,
    ensures
        policy_directive(n.name),
        policy_applied(s, n) == Ok::<State, Problem>(
            State { settings: Values { log: (crate::config::settings::LogValues { client: x, ..s.settings.log }), ..s.settings }, ..s },
        ),
{
    reveal_strlit("rgnix_log_client");
    reveal_strlit("rgnix_log_query");
    assert("rgnix_log_client"@.len() != "rgnix_log_query"@.len());
    reveal_strlit("rgnix_log_referer");
    assert("rgnix_log_client"@.len() != "rgnix_log_referer"@.len());
    reveal_strlit("rgnix_log_redact");
    assert("rgnix_log_client"@[10] != "rgnix_log_redact"@[10]);
    reveal_strlit("rgnix_log_fields");
    assert("rgnix_log_client"@[10] != "rgnix_log_fields"@[10]);
    reveal_strlit("gzip");
    assert("rgnix_log_client"@.len() != "gzip"@.len());
    reveal_strlit("brotli");
    assert("rgnix_log_client"@.len() != "brotli"@.len());
    reveal_strlit("gzip_comp_level");
    assert("rgnix_log_client"@.len() != "gzip_comp_level"@.len());
    reveal_strlit("brotli_comp_level");
    assert("rgnix_log_client"@.len() != "brotli_comp_level"@.len());
    reveal_strlit("gzip_min_length");
    assert("rgnix_log_client"@.len() != "gzip_min_length"@.len());
    reveal_strlit("gzip_types");
    assert("rgnix_log_client"@.len() != "gzip_types"@.len());
    reveal_strlit("set_real_ip_from");
    assert("rgnix_log_client"@[0] != "set_real_ip_from"@[0]);
    reveal_strlit("real_ip_header");
    assert("rgnix_log_client"@.len() != "real_ip_header"@.len());
    reveal_strlit("real_ip_recursive");
    assert("rgnix_log_client"@.len() != "real_ip_recursive"@.len());
    reveal_strlit("allow");
    assert("rgnix_log_client"@.len() != "allow"@.len());
    reveal_strlit("deny");
    assert("rgnix_log_client"@.len() != "deny"@.len());
}

/// `rgnix_log_referer` switches that part of the access log, and nothing else.
pub proof fn law_rgnix_log_referer_is_a_switch(
    s: State,
    n: Node,
    x: bool,
)
    requires
        n.name == "rgnix_log_referer"@,
        n.args.len() == 1,
        switch_of(n.args[0]) == Ok::<bool, ValueError>(x),
        identity_checked(s.settings) is Ok,
    ensures
        policy_directive(n.name),
        policy_applied(s, n) == Ok::<State, Problem>(
            State { settings: Values { log: (crate::config::settings::LogValues { referer: x, ..s.settings.log }), ..s.settings }, ..s },
        ),
{
    reveal_strlit("rgnix_log_referer");
    reveal_strlit("rgnix_log_query");
    assert("rgnix_log_referer"@.len() != "rgnix_log_query"@.len());
    reveal_strlit("rgnix_log_client");
    assert("rgnix_log_referer"@.len() != "rgnix_log_client"@.len());
    reveal_strlit("rgnix_log_redact");
    assert("rgnix_log_referer"@.len() != "rgnix_log_redact"@.len());
    reveal_strlit("rgnix_log_fields");
    assert("rgnix_log_referer"@.len() != "rgnix_log_fields"@.len());
    reveal_strlit("gzip");
    assert("rgnix_log_referer"@.len() != "gzip"@.len());
    reveal_strlit("brotli");
    assert("rgnix_log_referer"@.len() != "brotli"@.len());
    reveal_strlit("gzip_comp_level");
    assert("rgnix_log_referer"@.len() != "gzip_comp_level"@.len());
    reveal_strlit("brotli_comp_level");
    assert("rgnix_log_referer"@[0] != "brotli_comp_level"@[0]);
    reveal_strlit("gzip_min_length");
    assert("rgnix_log_referer"@.len() != "gzip_min_length"@.len());
    reveal_strlit("gzip_types");
    assert("rgnix_log_referer"@.len() != "gzip_types"@.len());
    reveal_strlit("set_real_ip_from");
    assert("rgnix_log_referer"@.len() != "set_real_ip_from"@.len());
    reveal_strlit("real_ip_header");
    assert("rgnix_log_referer"@.len() != "real_ip_header"@.len());
    reveal_strlit("real_ip_recursive");
    assert("rgnix_log_referer"@[1] != "real_ip_recursive"@[1]);
    reveal_strlit("allow");
    assert("rgnix_log_referer"@.len() != "allow"@.len());
    reveal_strlit("deny");
    assert("rgnix_log_referer"@.len() != "deny"@.len());
}

/// `rgnix_log_redact` names what is not shown in the access log, and changes nothing else.
pub proof fn law_rgnix_log_redact_sets_its_names(
    s: State,
    n: Node,
)
    requires
        n.name == "rgnix_log_redact"@,
        fields_checked(s.settings.log.fields, n.args) is Ok,
        identity_checked(s.settings) is Ok,
    ensures
        policy_directive(n.name),
        policy_applied(s, n) == Ok::<State, Problem>(
            State { settings: Values { log: (crate::config::settings::LogValues { redact: n.args, ..s.settings.log }), ..s.settings }, ..s },
        ),
{
    reveal_strlit("rgnix_log_redact");
    reveal_strlit("rgnix_log_query");
    assert("rgnix_log_redact"@.len() != "rgnix_log_query"@.len());
    reveal_strlit("rgnix_log_client");
    assert("rgnix_log_redact"@[10] != "rgnix_log_client"@[10]);
    reveal_strlit("rgnix_log_referer");
    assert("rgnix_log_redact"@.len() != "rgnix_log_referer"@.len());
    reveal_strlit("rgnix_log_fields");
    assert("rgnix_log_redact"@[10] != "rgnix_log_fields"@[10]);
    reveal_strlit("gzip");
    assert("rgnix_log_redact"@.len() != "gzip"@.len());
    reveal_strlit("brotli");
    assert("rgnix_log_redact"@.len() != "brotli"@.len());
    reveal_strlit("gzip_comp_level");
    assert("rgnix_log_redact"@.len() != "gzip_comp_level"@.len());
    reveal_strlit("brotli_comp_level");
    assert("rgnix_log_redact"@.len() != "brotli_comp_level"@.len());
    reveal_strlit("gzip_min_length");
    assert("rgnix_log_redact"@.len() != "gzip_min_length"@.len());
    reveal_strlit("gzip_types");
    assert("rgnix_log_redact"@.len() != "gzip_types"@.len());
    reveal_strlit("set_real_ip_from");
    assert("rgnix_log_redact"@[0] != "set_real_ip_from"@[0]);
    reveal_strlit("real_ip_header");
    assert("rgnix_log_redact"@.len() != "real_ip_header"@.len());
    reveal_strlit("real_ip_recursive");
    assert("rgnix_log_redact"@.len() != "real_ip_recursive"@.len());
    reveal_strlit("allow");
    assert("rgnix_log_redact"@.len() != "allow"@.len());
    reveal_strlit("deny");
    assert("rgnix_log_redact"@.len() != "deny"@.len());
}

/// `rgnix_log_fields` names the fields of requests in the access log, and changes nothing else.
pub proof fn law_rgnix_log_fields_sets_its_names(
    s: State,
    n: Node,
)
    requires
        n.name == "rgnix_log_fields"@,
        fields_checked(n.args, s.settings.log.redact) is Ok,
        identity_checked(s.settings) is Ok,
    ensures
        policy_directive(n.name),
        policy_applied(s, n) == Ok::<State, Problem>(
            State { settings: Values { log: (crate::config::settings::LogValues { fields: n.args, ..s.settings.log }), ..s.settings }, ..s },
        ),
{
    reveal_strlit("rgnix_log_fields");
    reveal_strlit("rgnix_log_query");
    assert("rgnix_log_fields"@.len() != "rgnix_log_query"@.len());
    reveal_strlit("rgnix_log_client");
    assert("rgnix_log_fields"@[10] != "rgnix_log_client"@[10]);
    reveal_strlit("rgnix_log_referer");
    assert("rgnix_log_fields"@.len() != "rgnix_log_referer"@.len());
    reveal_strlit("rgnix_log_redact");
    assert("rgnix_log_fields"@[10] != "rgnix_log_redact"@[10]);
    reveal_strlit("gzip");
    assert("rgnix_log_fields"@.len() != "gzip"@.len());
    reveal_strlit("brotli");
    assert("rgnix_log_fields"@.len() != "brotli"@.len());
    reveal_strlit("gzip_comp_level");
    assert("rgnix_log_fields"@.len() != "gzip_comp_level"@.len());
    reveal_strlit("brotli_comp_level");
    assert("rgnix_log_fields"@.len() != "brotli_comp_level"@.len());
    reveal_strlit("gzip_min_length");
    assert("rgnix_log_fields"@.len() != "gzip_min_length"@.len());
    reveal_strlit("gzip_types");
    assert("rgnix_log_fields"@.len() != "gzip_types"@.len());
    reveal_strlit("set_real_ip_from");
    assert("rgnix_log_fields"@[0] != "set_real_ip_from"@[0]);
    reveal_strlit("real_ip_header");
    assert("rgnix_log_fields"@.len() != "real_ip_header"@.len());
    reveal_strlit("real_ip_recursive");
    assert("rgnix_log_fields"@.len() != "real_ip_recursive"@.len());
    reveal_strlit("allow");
    assert("rgnix_log_fields"@.len() != "allow"@.len());
    reveal_strlit("deny");
    assert("rgnix_log_fields"@.len() != "deny"@.len());
}

/// `gzip` switches that coding on at its usual level, or off, and changes nothing else.
pub proof fn law_gzip_is_a_switch(
    s: State,
    n: Node,
    x: bool,
)
    requires
        n.name == "gzip"@,
        n.args.len() == 1,
        switch_of(n.args[0]) == Ok::<bool, ValueError>(x),
        identity_checked(s.settings) is Ok,
    ensures
        policy_directive(n.name),
        policy_applied(s, n) == Ok::<State, Problem>(
            State { settings: Values { compression: (crate::config::settings::CompressionValues {
                gzip: if x {
                    1
                } else {
                    0
                },
                ..s.settings.compression
            }), ..s.settings }, ..s },
        ),
{
    reveal_strlit("gzip");
    reveal_strlit("rgnix_log_query");
    assert("gzip"@.len() != "rgnix_log_query"@.len());
    reveal_strlit("rgnix_log_client");
    assert("gzip"@.len() != "rgnix_log_client"@.len());
    reveal_strlit("rgnix_log_referer");
    assert("gzip"@.len() != "rgnix_log_referer"@.len());
    reveal_strlit("rgnix_log_redact");
    assert("gzip"@.len() != "rgnix_log_redact"@.len());
    reveal_strlit("rgnix_log_fields");
    assert("gzip"@.len() != "rgnix_log_fields"@.len());
    reveal_strlit("brotli");
    assert("gzip"@.len() != "brotli"@.len());
    reveal_strlit("gzip_comp_level");
    assert("gzip"@.len() != "gzip_comp_level"@.len());
    reveal_strlit("brotli_comp_level");
    assert("gzip"@.len() != "brotli_comp_level"@.len());
    reveal_strlit("gzip_min_length");
    assert("gzip"@.len() != "gzip_min_length"@.len());
    reveal_strlit("gzip_types");
    assert("gzip"@.len() != "gzip_types"@.len());
    reveal_strlit("set_real_ip_from");
    assert("gzip"@.len() != "set_real_ip_from"@.len());
    reveal_strlit("real_ip_header");
    assert("gzip"@.len() != "real_ip_header"@.len());
    reveal_strlit("real_ip_recursive");
    assert("gzip"@.len() != "real_ip_recursive"@.len());
    reveal_strlit("allow");
    assert("gzip"@.len() != "allow"@.len());
    reveal_strlit("deny");
    assert("gzip"@[0] != "deny"@[0]);
}

/// `brotli` switches that coding on at its usual level, or off, and changes nothing else.
pub proof fn law_brotli_is_a_switch(
    s: State,
    n: Node,
    x: bool,
)
    requires
        n.name == "brotli"@,
        n.args.len() == 1,
        switch_of(n.args[0]) == Ok::<bool, ValueError>(x),
        identity_checked(s.settings) is Ok,
    ensures
        policy_directive(n.name),
        policy_applied(s, n) == Ok::<State, Problem>(
            State { settings: Values { compression: (crate::config::settings::CompressionValues {
                brotli: if x {
                    4
                } else {
                    0
                },
                ..s.settings.compression
            }), ..s.settings }, ..s },
        ),
{
    reveal_strlit("brotli");
    reveal_strlit("rgnix_log_query");
    assert("brotli"@.len() != "rgnix_log_query"@.len());
    reveal_strlit("rgnix_log_client");
    assert("brotli"@.len() != "rgnix_log_client"@.len());
    reveal_strlit("rgnix_log_referer");
    assert("brotli"@.len() != "rgnix_log_referer"@.len());
    reveal_strlit("rgnix_log_redact");
    assert("brotli"@.len() != "rgnix_log_redact"@.len());
    reveal_strlit("rgnix_log_fields");
    assert("brotli"@.len() != "rgnix_log_fields"@.len());
    reveal_strlit("gzip");
    assert("brotli"@.len() != "gzip"@.len());
    reveal_strlit("gzip_comp_level");
    assert("brotli"@.len() != "gzip_comp_level"@.len());
    reveal_strlit("brotli_comp_level");
    assert("brotli"@.len() != "brotli_comp_level"@.len());
    reveal_strlit("gzip_min_length");
    assert("brotli"@.len() != "gzip_min_length"@.len());
    reveal_strlit("gzip_types");
    assert("brotli"@.len() != "gzip_types"@.len());
    reveal_strlit("set_real_ip_from");
    assert("brotli"@.len() != "set_real_ip_from"@.len());
    reveal_strlit("real_ip_header");
    assert("brotli"@.len() != "real_ip_header"@.len());
    reveal_strlit("real_ip_recursive");
    assert("brotli"@.len() != "real_ip_recursive"@.len());
    reveal_strlit("allow");
    assert("brotli"@.len() != "allow"@.len());
    reveal_strlit("deny");
    assert("brotli"@.len() != "deny"@.len());
}

/// `gzip_comp_level` sets the level of that coding, and nothing else.
pub proof fn law_gzip_comp_level_sets_the_level(
    s: State,
    n: Node,
    x: nat,
)
    requires
        n.name == "gzip_comp_level"@,
        n.args.len() == 1,
        text::decimal_upto(n.args[0], u32::MAX as nat) == Some(x),
        1 <= x <= 9,
        identity_checked(s.settings) is Ok,
    ensures
        policy_directive(n.name),
        policy_applied(s, n) == Ok::<State, Problem>(
            State { settings: Values { compression: (crate::config::settings::CompressionValues {
                gzip: x as u32,
                ..s.settings.compression
            }), ..s.settings }, ..s },
        ),
{
    reveal_strlit("gzip_comp_level");
    reveal_strlit("rgnix_log_query");
    assert("gzip_comp_level"@[0] != "rgnix_log_query"@[0]);
    reveal_strlit("rgnix_log_client");
    assert("gzip_comp_level"@.len() != "rgnix_log_client"@.len());
    reveal_strlit("rgnix_log_referer");
    assert("gzip_comp_level"@.len() != "rgnix_log_referer"@.len());
    reveal_strlit("rgnix_log_redact");
    assert("gzip_comp_level"@.len() != "rgnix_log_redact"@.len());
    reveal_strlit("rgnix_log_fields");
    assert("gzip_comp_level"@.len() != "rgnix_log_fields"@.len());
    reveal_strlit("gzip");
    assert("gzip_comp_level"@.len() != "gzip"@.len());
    reveal_strlit("brotli");
    assert("gzip_comp_level"@.len() != "brotli"@.len());
    reveal_strlit("brotli_comp_level");
    assert("gzip_comp_level"@.len() != "brotli_comp_level"@.len());
    reveal_strlit("gzip_min_length");
    assert("gzip_comp_level"@[5] != "gzip_min_length"@[5]);
    reveal_strlit("gzip_types");
    assert("gzip_comp_level"@.len() != "gzip_types"@.len());
    reveal_strlit("set_real_ip_from");
    assert("gzip_comp_level"@.len() != "set_real_ip_from"@.len());
    reveal_strlit("real_ip_header");
    assert("gzip_comp_level"@.len() != "real_ip_header"@.len());
    reveal_strlit("real_ip_recursive");
    assert("gzip_comp_level"@.len() != "real_ip_recursive"@.len());
    reveal_strlit("allow");
    assert("gzip_comp_level"@.len() != "allow"@.len());
    reveal_strlit("deny");
    assert("gzip_comp_level"@.len() != "deny"@.len());
}

/// `brotli_comp_level` sets the level of that coding, and nothing else.
pub proof fn law_brotli_comp_level_sets_the_level(
    s: State,
    n: Node,
    x: nat,
)
    requires
        n.name == "brotli_comp_level"@,
        n.args.len() == 1,
        text::decimal_upto(n.args[0], u32::MAX as nat) == Some(x),
        1 <= x <= 9,
        identity_checked(s.settings) is Ok,
    ensures
        policy_directive(n.name),
        policy_applied(s, n) == Ok::<State, Problem>(
            State { settings: Values { compression: (crate::config::settings::CompressionValues {
                brotli: x as u32,
                ..s.settings.compression
            }), ..s.settings }, ..s },
        ),
{
    reveal_strlit("brotli_comp_level");
    reveal_strlit("rgnix_log_query");
    assert("brotli_comp_level"@.len() != "rgnix_log_query"@.len());
    reveal_strlit("rgnix_log_client");
    assert("brotli_comp_level"@.len() != "rgnix_log_client"@.len());
    reveal_strlit("rgnix_log_referer");
    assert("brotli_comp_level"@[0] != "rgnix_log_referer"@[0]);
    reveal_strlit("rgnix_log_redact");
    assert("brotli_comp_level"@.len() != "rgnix_log_redact"@.len());
    reveal_strlit("rgnix_log_fields");
    assert("brotli_comp_level"@.len() != "rgnix_log_fields"@.len());
    reveal_strlit("gzip");
    assert("brotli_comp_level"@.len() != "gzip"@.len());
    reveal_strlit("brotli");
    assert("brotli_comp_level"@.len() != "brotli"@.len());
    reveal_strlit("gzip_comp_level");
    assert("brotli_comp_level"@.len() != "gzip_comp_level"@.len());
    reveal_strlit("gzip_min_length");
    assert("brotli_comp_level"@.len() != "gzip_min_length"@.len());
    reveal_strlit("gzip_types");
    assert("brotli_comp_level"@.len() != "gzip_types"@.len());
    reveal_strlit("set_real_ip_from");
    assert("brotli_comp_level"@.len() != "set_real_ip_from"@.len());
    reveal_strlit("real_ip_header");
    assert("brotli_comp_level"@.len() != "real_ip_header"@.len());
    reveal_strlit("real_ip_recursive");
    assert("brotli_comp_level"@[0] != "real_ip_recursive"@[0]);
    reveal_strlit("allow");
    assert("brotli_comp_level"@.len() != "allow"@.len());
    reveal_strlit("deny");
    assert("brotli_comp_level"@.len() != "deny"@.len());
}

/// `gzip_min_length` sets from which length on responses are compressed, and nothing else.
pub proof fn law_gzip_min_length_sets_the_length(
    s: State,
    n: Node,
    x: u64,
)
    requires
        n.name == "gzip_min_length"@,
        n.args.len() == 1,
        size_of(n.args[0]) == Ok::<u64, ValueError>(x),
        identity_checked(s.settings) is Ok,
    ensures
        policy_directive(n.name),
        policy_applied(s, n) == Ok::<State, Problem>(
            State { settings: Values { compression: (crate::config::settings::CompressionValues {
                min_length: x,
                ..s.settings.compression
            }), ..s.settings }, ..s },
        ),
{
    reveal_strlit("gzip_min_length");
    reveal_strlit("rgnix_log_query");
    assert("gzip_min_length"@[0] != "rgnix_log_query"@[0]);
    reveal_strlit("rgnix_log_client");
    assert("gzip_min_length"@.len() != "rgnix_log_client"@.len());
    reveal_strlit("rgnix_log_referer");
    assert("gzip_min_length"@.len() != "rgnix_log_referer"@.len());
    reveal_strlit("rgnix_log_redact");
    assert("gzip_min_length"@.len() != "rgnix_log_redact"@.len());
    reveal_strlit("rgnix_log_fields");
    assert("gzip_min_length"@.len() != "rgnix_log_fields"@.len());
    reveal_strlit("gzip");
    assert("gzip_min_length"@.len() != "gzip"@.len());
    reveal_strlit("brotli");
    assert("gzip_min_length"@.len() != "brotli"@.len());
    reveal_strlit("gzip_comp_level");
    assert("gzip_min_length"@[5] != "gzip_comp_level"@[5]);
    reveal_strlit("brotli_comp_level");
    assert("gzip_min_length"@.len() != "brotli_comp_level"@.len());
    reveal_strlit("gzip_types");
    assert("gzip_min_length"@.len() != "gzip_types"@.len());
    reveal_strlit("set_real_ip_from");
    assert("gzip_min_length"@.len() != "set_real_ip_from"@.len());
    reveal_strlit("real_ip_header");
    assert("gzip_min_length"@.len() != "real_ip_header"@.len());
    reveal_strlit("real_ip_recursive");
    assert("gzip_min_length"@.len() != "real_ip_recursive"@.len());
    reveal_strlit("allow");
    assert("gzip_min_length"@.len() != "allow"@.len());
    reveal_strlit("deny");
    assert("gzip_min_length"@.len() != "deny"@.len());
}

/// `gzip_types` sets the types that are compressed, with HTML always among them, and nothing else.
pub proof fn law_gzip_types_sets_the_types(
    s: State,
    n: Node,
)
    requires
        n.name == "gzip_types"@,
        n.args.len() > 0,
        n.args.contains("text/html"@),
        identity_checked(s.settings) is Ok,
    ensures
        policy_directive(n.name),
        policy_applied(s, n) == Ok::<State, Problem>(
            State { settings: Values { compression: (crate::config::settings::CompressionValues {
                types: n.args,
                ..s.settings.compression
            }), ..s.settings }, ..s },
        ),
{
    reveal_strlit("gzip_types");
    reveal_strlit("rgnix_log_query");
    assert("gzip_types"@.len() != "rgnix_log_query"@.len());
    reveal_strlit("rgnix_log_client");
    assert("gzip_types"@.len() != "rgnix_log_client"@.len());
    reveal_strlit("rgnix_log_referer");
    assert("gzip_types"@.len() != "rgnix_log_referer"@.len());
    reveal_strlit("rgnix_log_redact");
    assert("gzip_types"@.len() != "rgnix_log_redact"@.len());
    reveal_strlit("rgnix_log_fields");
    assert("gzip_types"@.len() != "rgnix_log_fields"@.len());
    reveal_strlit("gzip");
    assert("gzip_types"@.len() != "gzip"@.len());
    reveal_strlit("brotli");
    assert("gzip_types"@.len() != "brotli"@.len());
    reveal_strlit("gzip_comp_level");
    assert("gzip_types"@.len() != "gzip_comp_level"@.len());
    reveal_strlit("brotli_comp_level");
    assert("gzip_types"@.len() != "brotli_comp_level"@.len());
    reveal_strlit("gzip_min_length");
    assert("gzip_types"@.len() != "gzip_min_length"@.len());
    reveal_strlit("set_real_ip_from");
    assert("gzip_types"@.len() != "set_real_ip_from"@.len());
    reveal_strlit("real_ip_header");
    assert("gzip_types"@.len() != "real_ip_header"@.len());
    reveal_strlit("real_ip_recursive");
    assert("gzip_types"@.len() != "real_ip_recursive"@.len());
    reveal_strlit("allow");
    assert("gzip_types"@.len() != "allow"@.len());
    reveal_strlit("deny");
    assert("gzip_types"@.len() != "deny"@.len());
}

/// `set_real_ip_from` trusts one more network, and changes nothing else.
pub proof fn law_set_real_ip_from_trusts_a_network(
    s: State,
    n: Node,
    x: net::Network,
)
    requires
        n.name == "set_real_ip_from"@,
        n.args.len() == 1,
        net::network_of(n.args[0]) == Some(x),
        s.settings.trusted.len() < MAX_RULES,
        identity_checked(s.settings) is Ok,
    ensures
        policy_directive(n.name),
        policy_applied(s, n) == Ok::<State, Problem>(
            State { settings: Values { trusted: s.settings.trusted.push(x), ..s.settings }, ..s },
        ),
{
    reveal_strlit("set_real_ip_from");
    reveal_strlit("rgnix_log_query");
    assert("set_real_ip_from"@.len() != "rgnix_log_query"@.len());
    reveal_strlit("rgnix_log_client");
    assert("set_real_ip_from"@[0] != "rgnix_log_client"@[0]);
    reveal_strlit("rgnix_log_referer");
    assert("set_real_ip_from"@.len() != "rgnix_log_referer"@.len());
    reveal_strlit("rgnix_log_redact");
    assert("set_real_ip_from"@[0] != "rgnix_log_redact"@[0]);
    reveal_strlit("rgnix_log_fields");
    assert("set_real_ip_from"@[0] != "rgnix_log_fields"@[0]);
    reveal_strlit("gzip");
    assert("set_real_ip_from"@.len() != "gzip"@.len());
    reveal_strlit("brotli");
    assert("set_real_ip_from"@.len() != "brotli"@.len());
    reveal_strlit("gzip_comp_level");
    assert("set_real_ip_from"@.len() != "gzip_comp_level"@.len());
    reveal_strlit("brotli_comp_level");
    assert("set_real_ip_from"@.len() != "brotli_comp_level"@.len());
    reveal_strlit("gzip_min_length");
    assert("set_real_ip_from"@.len() != "gzip_min_length"@.len());
    reveal_strlit("gzip_types");
    assert("set_real_ip_from"@.len() != "gzip_types"@.len());
    reveal_strlit("real_ip_header");
    assert("set_real_ip_from"@.len() != "real_ip_header"@.len());
    reveal_strlit("real_ip_recursive");
    assert("set_real_ip_from"@.len() != "real_ip_recursive"@.len());
    reveal_strlit("allow");
    assert("set_real_ip_from"@.len() != "allow"@.len());
    reveal_strlit("deny");
    assert("set_real_ip_from"@.len() != "deny"@.len());
}

/// `real_ip_header` names the field with the address of the client, and changes nothing else.
pub proof fn law_real_ip_header_sets_the_field(
    s: State,
    n: Node,
)
    requires
        n.name == "real_ip_header"@,
        n.args.len() == 1,
        header::valid_name(n.args[0]),
        header::valid_name(text::lowercase(n.args[0])),
        identity_checked(s.settings) is Ok,
    ensures
        policy_directive(n.name),
        policy_applied(s, n) == Ok::<State, Problem>(
            State { settings: Values { real_ip_header: text::lowercase(n.args[0]), ..s.settings }, ..s },
        ),
{
    reveal_strlit("real_ip_header");
    reveal_strlit("rgnix_log_query");
    assert("real_ip_header"@.len() != "rgnix_log_query"@.len());
    reveal_strlit("rgnix_log_client");
    assert("real_ip_header"@.len() != "rgnix_log_client"@.len());
    reveal_strlit("rgnix_log_referer");
    assert("real_ip_header"@.len() != "rgnix_log_referer"@.len());
    reveal_strlit("rgnix_log_redact");
    assert("real_ip_header"@.len() != "rgnix_log_redact"@.len());
    reveal_strlit("rgnix_log_fields");
    assert("real_ip_header"@.len() != "rgnix_log_fields"@.len());
    reveal_strlit("gzip");
    assert("real_ip_header"@.len() != "gzip"@.len());
    reveal_strlit("brotli");
    assert("real_ip_header"@.len() != "brotli"@.len());
    reveal_strlit("gzip_comp_level");
    assert("real_ip_header"@.len() != "gzip_comp_level"@.len());
    reveal_strlit("brotli_comp_level");
    assert("real_ip_header"@.len() != "brotli_comp_level"@.len());
    reveal_strlit("gzip_min_length");
    assert("real_ip_header"@.len() != "gzip_min_length"@.len());
    reveal_strlit("gzip_types");
    assert("real_ip_header"@.len() != "gzip_types"@.len());
    reveal_strlit("set_real_ip_from");
    assert("real_ip_header"@.len() != "set_real_ip_from"@.len());
    reveal_strlit("real_ip_recursive");
    assert("real_ip_header"@.len() != "real_ip_recursive"@.len());
    reveal_strlit("allow");
    assert("real_ip_header"@.len() != "allow"@.len());
    reveal_strlit("deny");
    assert("real_ip_header"@.len() != "deny"@.len());
}

/// `real_ip_recursive` is a switch, and changes nothing else.
pub proof fn law_real_ip_recursive_is_a_switch(
    s: State,
    n: Node,
    x: bool,
)
    requires
        n.name == "real_ip_recursive"@,
        n.args.len() == 1,
        switch_of(n.args[0]) == Ok::<bool, ValueError>(x),
        identity_checked(s.settings) is Ok,
    ensures
        policy_directive(n.name),
        policy_applied(s, n) == Ok::<State, Problem>(
            State { settings: Values { real_ip_recursive: x, ..s.settings }, ..s },
        ),
{
    reveal_strlit("real_ip_recursive");
    reveal_strlit("rgnix_log_query");
    assert("real_ip_recursive"@.len() != "rgnix_log_query"@.len());
    reveal_strlit("rgnix_log_client");
    assert("real_ip_recursive"@.len() != "rgnix_log_client"@.len());
    reveal_strlit("rgnix_log_referer");
    assert("real_ip_recursive"@[1] != "rgnix_log_referer"@[1]);
    reveal_strlit("rgnix_log_redact");
    assert("real_ip_recursive"@.len() != "rgnix_log_redact"@.len());
    reveal_strlit("rgnix_log_fields");
    assert("real_ip_recursive"@.len() != "rgnix_log_fields"@.len());
    reveal_strlit("gzip");
    assert("real_ip_recursive"@.len() != "gzip"@.len());
    reveal_strlit("brotli");
    assert("real_ip_recursive"@.len() != "brotli"@.len());
    reveal_strlit("gzip_comp_level");
    assert("real_ip_recursive"@.len() != "gzip_comp_level"@.len());
    reveal_strlit("brotli_comp_level");
    assert("real_ip_recursive"@[0] != "brotli_comp_level"@[0]);
    reveal_strlit("gzip_min_length");
    assert("real_ip_recursive"@.len() != "gzip_min_length"@.len());
    reveal_strlit("gzip_types");
    assert("real_ip_recursive"@.len() != "gzip_types"@.len());
    reveal_strlit("set_real_ip_from");
    assert("real_ip_recursive"@.len() != "set_real_ip_from"@.len());
    reveal_strlit("real_ip_header");
    assert("real_ip_recursive"@.len() != "real_ip_header"@.len());
    reveal_strlit("allow");
    assert("real_ip_recursive"@.len() != "allow"@.len());
    reveal_strlit("deny");
    assert("real_ip_recursive"@.len() != "deny"@.len());
}

/// `allow` adds a rule behind those before it, for a network or for all, and changes nothing else.
pub proof fn law_allow_adds_a_rule(
    s: State,
    n: Node,
    x: Option<net::Network>,
)
    requires
        n.name == "allow"@,
        n.args.len() == 1,
        (n.args[0] == "all"@ && x is None) || (n.args[0] != "all"@ && x is Some && net::network_of(
            n.args[0],
        ) == x),
        s.settings.access.len() < MAX_RULES,
        identity_checked(s.settings) is Ok,
    ensures
        policy_directive(n.name),
        policy_applied(s, n) == Ok::<State, Problem>(
            State { settings: Values { access: s.settings.access.push(AccessRule { network: x, allow: true }), ..s.settings }, ..s },
        ),
{
    reveal_strlit("allow");
    reveal_strlit("rgnix_log_query");
    assert("allow"@.len() != "rgnix_log_query"@.len());
    reveal_strlit("rgnix_log_client");
    assert("allow"@.len() != "rgnix_log_client"@.len());
    reveal_strlit("rgnix_log_referer");
    assert("allow"@.len() != "rgnix_log_referer"@.len());
    reveal_strlit("rgnix_log_redact");
    assert("allow"@.len() != "rgnix_log_redact"@.len());
    reveal_strlit("rgnix_log_fields");
    assert("allow"@.len() != "rgnix_log_fields"@.len());
    reveal_strlit("gzip");
    assert("allow"@.len() != "gzip"@.len());
    reveal_strlit("brotli");
    assert("allow"@.len() != "brotli"@.len());
    reveal_strlit("gzip_comp_level");
    assert("allow"@.len() != "gzip_comp_level"@.len());
    reveal_strlit("brotli_comp_level");
    assert("allow"@.len() != "brotli_comp_level"@.len());
    reveal_strlit("gzip_min_length");
    assert("allow"@.len() != "gzip_min_length"@.len());
    reveal_strlit("gzip_types");
    assert("allow"@.len() != "gzip_types"@.len());
    reveal_strlit("set_real_ip_from");
    assert("allow"@.len() != "set_real_ip_from"@.len());
    reveal_strlit("real_ip_header");
    assert("allow"@.len() != "real_ip_header"@.len());
    reveal_strlit("real_ip_recursive");
    assert("allow"@.len() != "real_ip_recursive"@.len());
    reveal_strlit("deny");
    assert("allow"@.len() != "deny"@.len());
}

/// `deny` adds a rule behind those before it, for a network or for all, and changes nothing else.
pub proof fn law_deny_adds_a_rule(
    s: State,
    n: Node,
    x: Option<net::Network>,
)
    requires
        n.name == "deny"@,
        n.args.len() == 1,
        (n.args[0] == "all"@ && x is None) || (n.args[0] != "all"@ && x is Some && net::network_of(
            n.args[0],
        ) == x),
        s.settings.access.len() < MAX_RULES,
        identity_checked(s.settings) is Ok,
    ensures
        policy_directive(n.name),
        policy_applied(s, n) == Ok::<State, Problem>(
            State { settings: Values { access: s.settings.access.push(AccessRule { network: x, allow: false }), ..s.settings }, ..s },
        ),
{
    reveal_strlit("deny");
    reveal_strlit("rgnix_log_query");
    assert("deny"@.len() != "rgnix_log_query"@.len());
    reveal_strlit("rgnix_log_client");
    assert("deny"@.len() != "rgnix_log_client"@.len());
    reveal_strlit("rgnix_log_referer");
    assert("deny"@.len() != "rgnix_log_referer"@.len());
    reveal_strlit("rgnix_log_redact");
    assert("deny"@.len() != "rgnix_log_redact"@.len());
    reveal_strlit("rgnix_log_fields");
    assert("deny"@.len() != "rgnix_log_fields"@.len());
    reveal_strlit("gzip");
    assert("deny"@[0] != "gzip"@[0]);
    reveal_strlit("brotli");
    assert("deny"@.len() != "brotli"@.len());
    reveal_strlit("gzip_comp_level");
    assert("deny"@.len() != "gzip_comp_level"@.len());
    reveal_strlit("brotli_comp_level");
    assert("deny"@.len() != "brotli_comp_level"@.len());
    reveal_strlit("gzip_min_length");
    assert("deny"@.len() != "gzip_min_length"@.len());
    reveal_strlit("gzip_types");
    assert("deny"@.len() != "gzip_types"@.len());
    reveal_strlit("set_real_ip_from");
    assert("deny"@.len() != "set_real_ip_from"@.len());
    reveal_strlit("real_ip_header");
    assert("deny"@.len() != "real_ip_header"@.len());
    reveal_strlit("real_ip_recursive");
    assert("deny"@.len() != "real_ip_recursive"@.len());
    reveal_strlit("allow");
    assert("deny"@.len() != "allow"@.len());
}

/// A directive that is not known is refused, and so is one with a block that takes none.
pub proof fn law_unknown_directives_are_refused(s: State, n: Node, base: Seq<char>, context: Context)
    requires
        n.name != "types"@,
    ensures
        n.children is Some ==> applied(s, n, base, context) is Err,
        applied(s, n, base, context) is Ok ==> seq![
            "root"@,
            "index"@,
            "default_type"@,
            "access_log"@,
            "error_log"@,
            "proxy_pass"@,
            "return"@,
            "proxy_set_header"@,
            "add_header"@,
            "client_max_body_size"@,
            "proxy_connect_timeout"@,
            "proxy_read_timeout"@,
            "proxy_send_timeout"@,
            "keepalive_timeout"@,
            "ssl_certificate"@,
            "ssl_certificate_key"@,
            "http2"@,
            "rgnix_script"@,
        ].contains(n.name),
{
    if applied(s, n, base, context) is Ok {
        let v = seq![
            "root"@,
            "index"@,
            "default_type"@,
            "access_log"@,
            "error_log"@,
            "proxy_pass"@,
            "return"@,
            "proxy_set_header"@,
            "add_header"@,
            "client_max_body_size"@,
            "proxy_connect_timeout"@,
            "proxy_read_timeout"@,
            "proxy_send_timeout"@,
            "keepalive_timeout"@,
            "ssl_certificate"@,
            "ssl_certificate_key"@,
            "http2"@,
            "rgnix_script"@,
        ];
        assert(v[0] == "root"@ && v[1] == "index"@ && v[2] == "default_type"@ && v[3] == "access_log"@ && v[4]
            == "error_log"@ && v[5] == "proxy_pass"@ && v[6] == "return"@ && v[7] == "proxy_set_header"@
            && v[8] == "add_header"@ && v[9] == "client_max_body_size"@ && v[10]
            == "proxy_connect_timeout"@ && v[11] == "proxy_read_timeout"@ && v[12]
            == "proxy_send_timeout"@ && v[13] == "keepalive_timeout"@ && v[14] == "ssl_certificate"@
            && v[15] == "ssl_certificate_key"@ && v[16] == "http2"@ && v[17] == "rgnix_script"@);
    }
}

/// Directives of a block count one after the other.
pub proof fn law_directives_count_in_order(
    s: State,
    a: Seq<Node>,
    b: Seq<Node>,
    base: Seq<char>,
    context: Context,
)
    requires
        all_applied(s, a, base, context) is Ok,
    ensures
        all_applied(s, a + b, base, context) == all_applied(
            all_applied(s, a, base, context)->Ok_0,
            b,
            base,
            context,
        ),
    decreases b.len(),
{
    if b.len() == 0 {
        assert(a + b =~= a);
    } else {
        law_directives_count_in_order(s, a, b.drop_last(), base, context);
        assert((a + b).drop_last() =~= a + b.drop_last());
        assert((a + b).last() == b.last());
    }
}

/// A block that sets a field for backends inherits none of those around it, and likewise for responses; what
/// else is inherited stays.
pub proof fn law_header_lists_are_inherited_whole(s: State, v: Seq<Node>)
    ensures
        ({
            let t = fresh_headers(s, v);
            &&& (exists|i: int| 0 <= i < v.len() && (#[trigger] v[i]).name == "proxy_set_header"@)
                ==> t.settings.request_headers.len() == 0
            &&& (forall|i: int| 0 <= i < v.len() ==> (#[trigger] v[i]).name != "proxy_set_header"@)
                ==> t.settings.request_headers == s.settings.request_headers
            &&& (exists|i: int| 0 <= i < v.len() && (#[trigger] v[i]).name == "add_header"@)
                ==> t.settings.response_headers.len() == 0
            &&& (forall|i: int| 0 <= i < v.len() ==> (#[trigger] v[i]).name != "add_header"@)
                ==> t.settings.response_headers == s.settings.response_headers
            &&& t.settings.root == s.settings.root && t.settings.read_timeout
                == s.settings.read_timeout && t.action == s.action && t.settings.access
                == s.settings.access
        }),
{
}

/// Each extension of a `types` block has the type of the last line that names it.
pub proof fn law_types_are_of_their_extensions(m: Map<Seq<char>, Seq<char>>, exts: Seq<Seq<char>>, kind: Seq<char>, e: Seq<char>)
    ensures
        (exists|i: int| 0 <= i < exts.len() && text::lowercase(#[trigger] exts[i]) == e)
            ==> extended(m, exts, kind).contains_key(e) && extended(m, exts, kind)[e] == kind,
        (forall|i: int| 0 <= i < exts.len() ==> text::lowercase(#[trigger] exts[i]) != e)
            ==> extended(m, exts, kind).contains_key(e) == m.contains_key(e) && extended(
            m,
            exts,
            kind,
        )[e] == m[e],
    decreases exts.len(),
{
    if exts.len() > 0 {
        let rest = exts.drop_last();
        law_types_are_of_their_extensions(m, rest, kind, e);
        assert(exts.last() == exts[exts.len() - 1]);
        if exists|i: int| 0 <= i < exts.len() && text::lowercase(#[trigger] exts[i]) == e {
            let i = choose|i: int| 0 <= i < exts.len() && text::lowercase(#[trigger] exts[i]) == e;
            if i < exts.len() - 1 {
                assert(text::lowercase(rest[i]) == e);
            }
        } else {
            assert forall|i: int| 0 <= i < rest.len() implies text::lowercase(#[trigger] rest[i]) != e by {
                assert(text::lowercase(exts[i]) != e);
            }
            assert(text::lowercase(exts[exts.len() - 1]) != e);
        }
    }
}

} // verus!

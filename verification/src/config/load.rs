//! A whole configuration: listeners, virtual hosts, routes and what they pass requests to.
use crate::config::apply;
use crate::config::apply::{
    applied, fresh_headers, proxy_checked, Context, Problem, ProxyError,
};
use crate::config::settings::{Scope, Settings, State, Values};
use crate::config::syntax::{lemma_node, nodes, Directive, Node};
use crate::config::group;
use crate::config::group::{group_of, group_servers, Group};
use crate::config::upstream::UpstreamError;
use crate::config::value;
use crate::config::value::ValueError;
use crate::model::{Action, Deed, Matcher, PathMatch};
use crate::net;
use crate::net::{Ip, Socket};
use crate::path;
use crate::text;
use crate::text::{opt, texts};
use crate::uri;
use crate::uri::{parsed_url, Parts};
use vstd::prelude::*;

verus! {

/// Why a configuration was refused.
#[derive(Clone, Copy, Debug, PartialEq, Eq, Structural)]
pub enum LoadProblem {
    Directive(Problem),
    Upstream(UpstreamError),
    Host(ValueError),
    Proxy(ProxyError),
    DuplicateHttp,
    HttpArguments,
    EventsNotEmpty,
    UnsupportedTopLevel,
    NoHttp,
    DuplicateUpstream,
    ServerArguments,
    NoServerNames,
    NoListenAddress,
    ListenAddress,
    ListenOption,
    LocationArguments,
    DuplicateLocation,
    QueryWithoutPath,
    PortOfNamedUpstream,
    NoPort,
    CertificatePair,
    DuplicateDefault,
    ConflictingListener,
    TlsWithoutCertificate,
    NoServer,
    AmbiguousUpstream,
}

/// What is passed to: a named group of servers, or a host.
#[derive(Debug)]
pub enum Source {
    Group(String),
    Host(String, u16),
}

/// A destination of requests under the key that routes name it by.
#[derive(Debug)]
pub struct Target {
    pub key: String,
    pub tls: bool,
    pub hostname: String,
    pub host_header: String,
    pub source: Source,
}

#[verifier::ext_equal]
pub ghost enum Origin {
    Group(Seq<char>),
    Host(Seq<char>, u16),
}

/// What a `Target` holds.
#[verifier::ext_equal]
pub ghost struct Goal {
    pub key: Seq<char>,
    pub tls: bool,
    pub hostname: Seq<char>,
    pub host_header: Seq<char>,
    pub source: Origin,
}

impl View for Target {
    type V = Goal;

    open spec fn view(&self) -> Goal {
        Goal {
            key: self.key@,
            tls: self.tls,
            hostname: self.hostname@,
            host_header: self.host_header@,
            source: match self.source {
                Source::Group(g) => Origin::Group(g@),
                Source::Host(h, p) => Origin::Host(h@, p),
            },
        }
    }
}

pub open spec fn goals(v: Seq<Target>) -> Seq<Goal> {
    Seq::new(v.len(), |i: int| v[i]@)
}

/// The first target with a key, or the number of targets.
pub open spec fn goal_at(v: Seq<Goal>, key: Seq<char>) -> int
    decreases v.len(),
{
    if v.len() == 0 || v[0].key == key {
        0
    } else {
        1 + goal_at(v.drop_first(), key)
    }
}

pub open spec fn has_goal(v: Seq<Goal>, key: Seq<char>) -> bool {
    goal_at(v, key) < v.len()
}

proof fn lemma_goal_at(v: Seq<Goal>, key: Seq<char>, p: int)
    requires
        0 <= p <= v.len(),
        p < v.len() ==> v[p].key == key,
        forall|i: int| 0 <= i < p ==> (#[trigger] v[i]).key != key,
    ensures
        goal_at(v, key) == p,
    decreases v.len(),
{
    if p > 0 {
        let w = v.drop_first();
        assert forall|i: int| 0 <= i < p - 1 implies (#[trigger] w[i]).key != key by {
            assert(w[i] == v[i + 1]);
        }
        assert(v[0].key != key);
        lemma_goal_at(w, key, p - 1);
    }
}

fn find_target(v: &Vec<Target>, key: &str) -> (r: usize)
    ensures
        r <= v@.len(),
        r == goal_at(goals(v@), key@),
{
    let ghost all = goals(v@);
    let mut i: usize = 0;
    while i < v.len()
        invariant
            i <= v.len(),
            all == goals(v@),
            forall|j: int| 0 <= j < i ==> (#[trigger] all[j]).key != key@,
        decreases v.len() - i,
    {
        assert(all[i as int].key == v@[i as int].key@);
        if text::same(v[i].key.as_str(), key) {
            proof {
                lemma_goal_at(all, key@, i as int);
            }
            return i;
        }
        i += 1;
    }
    proof {
        lemma_goal_at(all, key@, i as int);
    }
    i
}

/// The keys of the targets.
pub open spec fn keys(v: Seq<Goal>) -> Seq<Seq<char>> {
    Seq::new(v.len(), |i: int| v[i].key)
}

fn target_keys(v: &Vec<Target>) -> (out: Vec<String>)
    ensures
        texts(out@) == keys(goals(v@)),
{
    let mut out: Vec<String> = Vec::new();
    let mut i: usize = 0;
    while i < v.len()
        invariant
            i <= v.len(),
            texts(out@) == keys(goals(v@)).take(i as int),
        decreases v.len() - i,
    {
        let ghost before = texts(out@);
        out.push(v[i].key.clone());
        proof {
            assert(texts(out@) =~= before.push(v@[i as int].key@));
            assert(keys(goals(v@)).take(i + 1) =~= keys(goals(v@)).take(i as int).push(
                v@[i as int].key@,
            ));
        }
        i += 1;
    }
    assert(keys(goals(v@)).take(i as int) =~= keys(goals(v@)));
    out
}

/// A route of a virtual host.
#[derive(Debug)]
pub struct Route {
    pub id: String,
    pub matcher: PathMatch,
    pub action: Action,
    pub settings: Settings,
    pub script: Option<String>,
    pub allowed_backends: Vec<String>,
}

/// What a `Route` holds.
#[verifier::ext_equal]
pub ghost struct Way {
    pub id: Seq<char>,
    pub matcher: Matcher,
    pub action: Deed,
    pub settings: Values,
    pub script: Option<Seq<char>>,
    pub allowed_backends: Seq<Seq<char>>,
}

impl View for Route {
    type V = Way;

    open spec fn view(&self) -> Way {
        Way {
            id: self.id@,
            matcher: self.matcher@,
            action: self.action@,
            settings: self.settings@,
            script: opt(self.script),
            allowed_backends: texts(self.allowed_backends@),
        }
    }
}

pub open spec fn ways(v: Seq<Route>) -> Seq<Way> {
    Seq::new(v.len(), |i: int| v[i]@)
}

/// The part of an address after `http://` or `https://`.
pub open spec fn after_scheme(s: Seq<char>) -> Seq<char> {
    if text::starts(s, "http://"@) {
        s.skip("http://"@.len() as int)
    } else {
        s.skip("https://"@.len() as int)
    }
}

/// The first three parts of an address that `/` separates: scheme and authority.
pub open spec fn address_key(s: Seq<char>) -> Seq<char> {
    let parts = text::split_spec(s, '/');
    text::join_spec(
        parts.take(if parts.len() < 3 {
            parts.len() as int
        } else {
            3
        }),
        "/"@,
    )
}

/// The path that an address to pass requests to carries, where it has one.
pub open spec fn address_path(s: Seq<char>) -> Option<Seq<char>> {
    let a = after_scheme(s);
    let p = text::position(a, '/');
    if p < a.len() {
        Some(a.skip(p))
    } else {
        None
    }
}

/// The target that an address, read as `p`, stands for where there is none under its key yet.
pub open spec fn new_goal(v: Seq<Goal>, key: Seq<char>, p: Parts) -> Result<Goal, LoadProblem> {
    let host = p.host()->0;
    let tls = p.scheme == "https"@;
    if has_goal(v, host) {
        Ok(
            Goal { key, tls, hostname: host, host_header: host, source: v[goal_at(v, host)].source },
        )
    } else {
        match p.known_port {
            None => Err(LoadProblem::NoPort),
            Some(port) => Ok(
                Goal {
                    key,
                    tls,
                    hostname: host,
                    host_header: p.authority,
                    source: Origin::Host(host, port),
                },
            ),
        }
    }
}

/// The targets with the one of an address, read as `p`, among them.
pub open spec fn with_goal(v: Seq<Goal>, address: Seq<char>, p: Parts) -> Result<
    Seq<Goal>,
    LoadProblem,
> {
    let key = address_key(address);
    let a = after_scheme(address);
    let slash = text::position(a, '/');
    let mark = text::position(a, '?');
    if mark < a.len() && !(slash < a.len() && slash < mark) {
        Err(LoadProblem::QueryWithoutPath)
    } else if has_goal(v, p.host()->0) && p.port is Some {
        Err(LoadProblem::PortOfNamedUpstream)
    } else if has_goal(v, key) {
        Ok(v)
    } else {
        match new_goal(v, key, p) {
            Err(e) => Err(e),
            Ok(g) => Ok(v.push(g)),
        }
    }
}

/// The action of a route, and the targets, after its address was looked up.
pub open spec fn resolved(v: Seq<Goal>, d: Option<Deed>) -> Result<(Deed, Seq<Goal>), LoadProblem> {
    match d {
        None => Ok((Deed::Static, v)),
        Some(Deed::Proxy { backend, uri }) => match proxy_checked(backend, parsed_url(backend)) {
            Err(e) => Err(LoadProblem::Proxy(e)),
            Ok(()) => match with_goal(v, backend, parsed_url(backend)->0) {
                Err(e) => Err(e),
                Ok(w) => Ok(
                    (
                        Deed::Proxy {
                            backend: address_key(backend),
                            uri: address_path(backend),
                        },
                        w,
                    ),
                ),
            },
        },
        Some(d) => Ok((d, v)),
    }
}

/// The route that a scope gives, and the targets with its own.
pub open spec fn built(v: Seq<Goal>, id: Seq<char>, m: Matcher, s: State) -> Result<
    (Way, Seq<Goal>),
    LoadProblem,
> {
    match resolved(v, s.action) {
        Err(e) => Err(e),
        Ok((action, w)) => Ok(
            (
                Way {
                    id,
                    matcher: m,
                    action,
                    settings: s.settings,
                    script: s.script,
                    allowed_backends: keys(w),
                },
                w,
            ),
        ),
    }
}

fn copy_source(s: &Source) -> (r: Source)
    ensures
        match *s {
            Source::Group(g) => r matches Source::Group(h) && h@ == g@,
            Source::Host(g, p) => r matches Source::Host(h, q) && h@ == g@ && q == p,
        },
{
    match s {
        Source::Group(g) => Source::Group(g.clone()),
        Source::Host(h, p) => Source::Host(h.clone(), *p),
    }
}

fn key_of(address: &str) -> (out: String)
    ensures
        out@ == address_key(address@),
{
    let mut parts = text::split(address, '/');
    let ghost all = texts(parts@);
    assert(all.len() == parts.len());
    if parts.len() > 3 {
        parts.truncate(3);
    }
    assert(texts(parts@) =~= all.take(if all.len() < 3 {
        all.len() as int
    } else {
        3
    }));
    text::join(&parts, "/")
}

/// What follows the scheme of an address.
fn strip_scheme<'a>(address: &'a str) -> (r: &'a str)
    requires
        text::starts(address@, "http://"@) || text::starts(address@, "https://"@),
    ensures
        r@ == after_scheme(address@),
{
    match text::strip_prefix(address, "http://") {
        Some(r) => r,
        None => match text::strip_prefix(address, "https://") {
            Some(r) => r,
            None => address,
        },
    }
}

/// Adds the target of an address that was read as `u`.
fn add_target(v: &mut Vec<Target>, address: &str, u: &crate::uri::Url) -> (r: Result<
    (),
    LoadProblem,
>)
    requires
        u@.host() is Some,
        text::starts(address@, "http://"@) || text::starts(address@, "https://"@),
    ensures
        match r {
            Ok(()) => with_goal(goals(old(v)@), address@, u@) == Ok::<Seq<Goal>, LoadProblem>(
                goals(final(v)@),
            ),
            Err(e) => with_goal(goals(old(v)@), address@, u@) == Err::<Seq<Goal>, LoadProblem>(e)
                && final(v)@ == old(v)@,
        },
{
    let ghost before = goals(v@);
    assert(before.len() == v@.len());
    let own = u.host();
    let host = match &own {
        Some(h) => h.as_str(),
        None => "",
    };
    let key = key_of(address);
    let a = text::chars(strip_scheme(address));
    let slash = text::find_from(&a, 0, '/');
    let mark = text::find_from(&a, 0, '?');
    assert(a@.skip(0) =~= a@);
    if mark < a.len() && !(slash < a.len() && slash < mark) {
        return Err(LoadProblem::QueryWithoutPath);
    }
    let group = find_target(v, host);
    if group < v.len() && u.port.is_some() {
        return Err(LoadProblem::PortOfNamedUpstream);
    }
    if find_target(v, key.as_str()) < v.len() {
        return Ok(());
    }
    let tls = text::same(u.scheme.as_str(), "https");
    let target = if group < v.len() {
        assert(before[group as int] == v@[group as int]@);
        Target {
            key,
            tls,
            hostname: host.to_owned(),
            host_header: host.to_owned(),
            source: copy_source(&v[group].source),
        }
    } else {
        match u.known_port {
            None => return Err(LoadProblem::NoPort),
            Some(port) => Target {
                key,
                tls,
                hostname: host.to_owned(),
                host_header: u.authority.clone(),
                source: Source::Host(host.to_owned(), port),
            },
        }
    };
    let ghost g = target@;
    v.push(target);
    assert(goals(v@) =~= before.push(g));
    Ok(())
}

/// The path that an address carries.
fn path_of(address: &str) -> (r: Option<String>)
    requires
        text::starts(address@, "http://"@) || text::starts(address@, "https://"@),
    ensures
        opt(r) == address_path(address@),
{
    let a = text::chars(strip_scheme(address));
    let slash = text::find_from(&a, 0, '/');
    assert(a@.skip(0) =~= a@);
    if slash < a.len() {
        let p = text::slice(&a, slash, a.len());
        assert(p@ =~= a@.skip(slash as int));
        Some(p)
    } else {
        None
    }
}

/// The route that a scope gives; its target is added to the others.
pub fn build_route(v: &mut Vec<Target>, id: String, matcher: PathMatch, s: &Scope) -> (r: Result<
    Route,
    LoadProblem,
>)
    ensures
        match r {
            Ok(route) => built(goals(old(v)@), id@, matcher@, s@) == Ok::<
                (Way, Seq<Goal>),
                LoadProblem,
            >((route@, goals(final(v)@))) && (s.wf() ==> route.settings.wf()),
            Err(e) => built(goals(old(v)@), id@, matcher@, s@) == Err::<
                (Way, Seq<Goal>),
                LoadProblem,
            >(e) && final(v)@ == old(v)@,
        },
{
    let action = match &s.action {
        None => Action::Static,
        Some(Action::Proxy { backend, uri }) => {
            let u = match apply::proxy_url(backend.as_str()) {
                Ok(u) => u,
                Err(e) => return Err(LoadProblem::Proxy(e)),
            };
            if let Err(e) = add_target(v, backend.as_str(), &u) {
                return Err(e);
            }
            Action::Proxy { backend: key_of(backend.as_str()), uri: path_of(backend.as_str()) }
        },
        Some(a) => a.copy(),
    };
    let script = crate::model::copy_opt(&s.script);
    let settings = s.settings.copy();
    let allowed_backends = target_keys(v);
    Ok(Route { id, matcher, action, settings, script, allowed_backends })
}

// ---------------------------------------------------------------------------
// Servers
// ---------------------------------------------------------------------------

/// An address that a server listens at.
#[derive(Clone, Copy, Debug, PartialEq, Eq, Structural)]
pub struct Listen {
    pub address: Socket,
    pub tls: bool,
    pub default: bool,
}

/// `0.0.0.0` and a port.
pub open spec fn any_v4(port: u16) -> Socket {
    Socket { ip: Ip::V4(0), scope: 0, port }
}

pub open spec fn listen_options(args: Seq<Seq<char>>) -> bool {
    forall|i: int|
        1 <= i < args.len() ==> #[trigger] args[i] == "ssl"@ || args[i] == "default_server"@
}

/// The address that a `listen` line names.
pub open spec fn listen_of(n: Node) -> Result<Listen, LoadProblem> {
    if n.children is Some {
        Err(LoadProblem::Directive(Problem::TakesNoBlock))
    } else if n.args.len() == 0 {
        Err(LoadProblem::NoListenAddress)
    } else {
        let address = match text::decimal_upto(n.args[0], u16::MAX as nat) {
            Some(port) => Some(any_v4(port as u16)),
            None => net::parsed_socket(n.args[0]),
        };
        match address {
            None => Err(LoadProblem::ListenAddress),
            Some(address) => if !listen_options(n.args) {
                Err(LoadProblem::ListenOption)
            } else {
                Ok(
                    Listen {
                        address,
                        tls: n.args.contains("ssl"@),
                        default: n.args.contains("default_server"@),
                    },
                )
            },
        }
    }
}

/// The address that a `listen` line names.
pub fn parse_listen(n: &Directive) -> (r: Result<Listen, LoadProblem>)
    ensures
        r == listen_of(n.node()),
{
    let ghost args = texts(n.args@);
    assert(n.node().args.len() == n.args@.len());
    if n.children.is_some() {
        return Err(LoadProblem::Directive(Problem::TakesNoBlock));
    }
    if n.args.len() == 0 {
        return Err(LoadProblem::NoListenAddress);
    }
    assert(args[0] == n.args@[0]@);
    let address = match text::parse_u16(n.args[0].as_str()) {
        Some(port) => Socket { ip: Ip::V4(0), scope: 0, port },
        None => match net::parse_socket(n.args[0].as_str()) {
            Some(a) => a,
            None => return Err(LoadProblem::ListenAddress),
        },
    };
    if !options_known(&n.args) {
        return Err(LoadProblem::ListenOption);
    }
    Ok(
        Listen {
            address,
            tls: text::contains(&n.args, "ssl"),
            default: text::contains(&n.args, "default_server"),
        },
    )
}

fn options_known(args: &Vec<String>) -> (r: bool)
    ensures
        r == listen_options(texts(args@)),
{
    let ghost all = texts(args@);
    let mut i: usize = 1;
    while i < args.len()
        invariant
            1 <= i,
            all == texts(args@),
            i <= args.len() || args.len() == 0,
            forall|j: int|
                1 <= j < i && j < all.len() ==> #[trigger] all[j] == "ssl"@ || all[j]
                    == "default_server"@,
        decreases args.len() - i,
    {
        assert(all[i as int] == args@[i as int]@);
        if !text::same(args[i].as_str(), "ssl") && !text::same(args[i].as_str(), "default_server") {
            return false;
        }
        i += 1;
    }
    true
}

/// What the lines of a server block, its locations aside, say.
#[verifier::ext_equal]
pub ghost struct Front {
    pub scope: State,
    pub names: Seq<Seq<char>>,
    pub listens: Seq<Listen>,
}

/// Some host names in lower case, where each is accepted.
pub open spec fn names_of(args: Seq<Seq<char>>) -> Result<Seq<Seq<char>>, LoadProblem>
    decreases args.len(),
{
    if args.len() == 0 {
        Ok(Seq::empty())
    } else {
        match names_of(args.drop_last()) {
            Err(e) => Err(e),
            Ok(v) => if value::host_accepted(args.last()) {
                Ok(v.push(text::lowercase(args.last())))
            } else {
                Err(LoadProblem::Host(ValueError::UnsupportedHost))
            },
        }
    }
}

pub open spec fn fronted(f: Front, n: Node, base: Seq<char>) -> Result<Front, LoadProblem> {
    if n.name == "server_name"@ {
        if n.children is Some {
            Err(LoadProblem::Directive(Problem::TakesNoBlock))
        } else if n.args.len() == 0 {
            Err(LoadProblem::NoServerNames)
        } else {
            match names_of(n.args) {
                Err(e) => Err(e),
                Ok(v) => Ok(Front { names: f.names + v, ..f }),
            }
        }
    } else if n.name == "listen"@ {
        match listen_of(n) {
            Err(e) => Err(e),
            Ok(l) => Ok(Front { listens: f.listens.push(l), ..f }),
        }
    } else if n.name == "location"@ {
        Ok(f)
    } else {
        match applied(f.scope, n, base, Context::Server) {
            Err(e) => Err(LoadProblem::Directive(e)),
            Ok(s) => Ok(Front { scope: s, ..f }),
        }
    }
}

pub open spec fn all_fronted(f: Front, v: Seq<Node>, base: Seq<char>) -> Result<
    Front,
    (Seq<char>, LoadProblem),
>
    decreases v.len(),
{
    if v.len() == 0 {
        Ok(f)
    } else {
        match all_fronted(f, v.drop_last(), base) {
            Err(e) => Err(e),
            Ok(g) => match fronted(g, v.last(), base) {
                Ok(x) => Ok(x),
                Err(e) => Err((v.last().source, e)),
            },
        }
    }
}

proof fn lemma_front_error(f: Front, v: Seq<Node>, base: Seq<char>, n: int)
    requires
        0 <= n <= v.len(),
        all_fronted(f, v.take(n), base) is Err,
    ensures
        all_fronted(f, v, base) == all_fronted(f, v.take(n), base),
    decreases v.len(),
{
    if n == v.len() {
        assert(v.take(n) =~= v);
    } else {
        assert(v.drop_last().take(n) =~= v.take(n));
        lemma_front_error(f, v.drop_last(), base, n);
    }
}

proof fn lemma_names_error(args: Seq<Seq<char>>, n: int)
    requires
        0 <= n <= args.len(),
        names_of(args.take(n)) is Err,
    ensures
        names_of(args) == names_of(args.take(n)),
    decreases args.len(),
{
    if n == args.len() {
        assert(args.take(n) =~= args);
    } else {
        assert(args.drop_last().take(n) =~= args.take(n));
        lemma_names_error(args.drop_last(), n);
    }
}

fn read_names(args: &Vec<String>) -> (r: Result<Vec<String>, LoadProblem>)
    ensures
        match r {
            Ok(v) => names_of(texts(args@)) == Ok::<Seq<Seq<char>>, LoadProblem>(texts(v@)),
            Err(e) => names_of(texts(args@)) == Err::<Seq<Seq<char>>, LoadProblem>(e),
        },
{
    let ghost all = texts(args@);
    let mut out: Vec<String> = Vec::new();
    let mut i: usize = 0;
    assert(texts(out@) =~= Seq::<Seq<char>>::empty());
    while i < args.len()
        invariant
            i <= args.len(),
            all == texts(args@),
            names_of(all.take(i as int)) == Ok::<Seq<Seq<char>>, LoadProblem>(texts(out@)),
        decreases args.len() - i,
    {
        proof {
            assert(all.take(i + 1).drop_last() =~= all.take(i as int));
            assert(all.take(i + 1).last() == args@[i as int]@);
        }
        if let Err(e) = value::validate_host(args[i].as_str()) {
            proof {
                lemma_names_error(all, i + 1);
            }
            return Err(LoadProblem::Host(e));
        }
        let ghost before = texts(out@);
        out.push(text::to_lowercase(args[i].as_str()));
        assert(texts(out@) =~= before.push(text::lowercase(args@[i as int]@)));
        i += 1;
    }
    assert(all.take(i as int) =~= all);
    Ok(out)
}

struct FrontDraft {
    scope: Scope,
    names: Vec<String>,
    listens: Vec<Listen>,
}

impl FrontDraft {
    spec fn front(&self) -> Front {
        Front { scope: self.scope@, names: texts(self.names@), listens: self.listens@ }
    }
}

fn front_line(f: &mut FrontDraft, n: &Directive, base: &str) -> (r: Result<(), LoadProblem>)
    requires
        old(f).scope.wf(),
    ensures
        final(f).scope.wf(),
        match r {
            Ok(()) => fronted(old(f).front(), n.node(), base@) == Ok::<Front, LoadProblem>(
                final(f).front(),
            ),
            Err(e) => fronted(old(f).front(), n.node(), base@) == Err::<Front, LoadProblem>(e),
        },
{
    let name = n.name.as_str();
    assert(n.node().args.len() == n.args@.len());
    if text::same(name, "server_name") {
        if n.children.is_some() {
            return Err(LoadProblem::Directive(Problem::TakesNoBlock));
        }
        if n.args.len() == 0 {
            return Err(LoadProblem::NoServerNames);
        }
        match read_names(&n.args) {
            Err(e) => return Err(e),
            Ok(mut v) => {
                let ghost a = texts(f.names@);
                let ghost b = texts(v@);
                f.names.append(&mut v);
                assert(texts(f.names@) =~= a + b);
            },
        }
    } else if text::same(name, "listen") {
        match parse_listen(n) {
            Err(e) => return Err(e),
            Ok(l) => {
                f.listens.push(l);
            },
        }
    } else if text::same(name, "location") {
    } else {
        if let Err(e) = apply::apply(&mut f.scope, n, base, Context::Server) {
            return Err(LoadProblem::Directive(e));
        }
    }
    Ok(())
}

/// The paths that a location answers.
pub open spec fn location_of(n: Node) -> Result<Matcher, LoadProblem> {
    if n.args.len() == 1 && path::absolute(n.args[0]) {
        Ok(Matcher::NginxPrefix(n.args[0]))
    } else if n.args.len() == 2 && n.args[0] == "="@ && path::absolute(n.args[1]) {
        Ok(Matcher::Exact(n.args[1]))
    } else {
        Err(LoadProblem::LocationArguments)
    }
}

fn read_location(n: &Directive) -> (r: Result<PathMatch, LoadProblem>)
    ensures
        match r {
            Ok(m) => location_of(n.node()) == Ok::<Matcher, LoadProblem>(m@),
            Err(e) => location_of(n.node()) == Err::<Matcher, LoadProblem>(e),
        },
{
    proof {
        assert(n.node().args.len() == n.args@.len());
        assert forall|i: int| 0 <= i < n.args@.len() implies n.node().args[i]
            == #[trigger] n.args@[i]@ by {}
    }
    if n.args.len() == 1 && is_absolute(n.args[0].as_str()) {
        Ok(PathMatch::NginxPrefix(n.args[0].clone()))
    } else if n.args.len() == 2 && text::same(n.args[0].as_str(), "=") && is_absolute(
        n.args[1].as_str(),
    ) {
        Ok(PathMatch::Exact(n.args[1].clone()))
    } else {
        Err(LoadProblem::LocationArguments)
    }
}

fn is_absolute(p: &str) -> (r: bool)
    ensures
        r == path::absolute(p@),
{
    p.unicode_len() > 0 && p.get_char(0) == '/'
}

/// Whether a route with a matcher is among some.
pub open spec fn matched(v: Seq<Way>, m: Matcher) -> bool {
    exists|i: int| 0 <= i < v.len() && (#[trigger] v[i]).matcher == m
}

fn any_matched(v: &Vec<Route>, m: &PathMatch) -> (r: bool)
    ensures
        r == matched(ways(v@), m@),
{
    let ghost all = ways(v@);
    let mut i: usize = 0;
    while i < v.len()
        invariant
            i <= v.len(),
            all == ways(v@),
            forall|j: int| 0 <= j < i ==> (#[trigger] all[j]).matcher != m@,
        decreases v.len() - i,
    {
        assert(all[i as int].matcher == v@[i as int].matcher@);
        if v[i].matcher.same(m) {
            return true;
        }
        i += 1;
    }
    false
}

/// The name of a route: its server's number and its path.
pub open spec fn route_id(server: nat, p: Seq<char>) -> Seq<char> {
    "server-"@ + text::decimal(server) + ":"@ + p
}

fn make_id(server: usize, p: &str) -> (out: String)
    ensures
        out@ == route_id(server as nat, p@),
{
    let mut out = "server-".to_owned();
    out.append(text::decimal_string(server as u64).as_str());
    out.append(":");
    out.append(p);
    out
}

/// Routes and targets while the locations of a server are read.
#[verifier::ext_equal]
pub ghost struct Trail {
    pub routes: Seq<Way>,
    pub goals: Seq<Goal>,
}

/// One more location.
pub open spec fn located(
    t: Trail,
    n: Node,
    server: nat,
    local: State,
    base: Seq<char>,
) -> Result<Trail, (Seq<char>, LoadProblem)> {
    match location_of(n) {
        Err(e) => Err((n.source, e)),
        Ok(m) => if matched(t.routes, m) {
            Err((n.source, LoadProblem::DuplicateLocation))
        } else {
            match n.children {
                None => Err((n.source, LoadProblem::Directive(Problem::RequiresBlock))),
                Some(inner) => match apply::all_applied(
                    fresh_headers(local, inner),
                    inner,
                    base,
                    Context::Location,
                ) {
                    Err((source, e)) => Err((source, LoadProblem::Directive(e))),
                    Ok(s) => match built(t.goals, route_id(server, m.path()), m, s) {
                        Err(e) => Err((n.source, e)),
                        Ok((way, goals)) => Ok(Trail { routes: t.routes.push(way), goals }),
                    },
                },
            }
        },
    }
}

/// The locations among some lines, in order.
pub open spec fn all_located(
    t: Trail,
    v: Seq<Node>,
    server: nat,
    local: State,
    base: Seq<char>,
) -> Result<Trail, (Seq<char>, LoadProblem)>
    decreases v.len(),
{
    if v.len() == 0 {
        Ok(t)
    } else {
        match all_located(t, v.drop_last(), server, local, base) {
            Err(e) => Err(e),
            Ok(u) => if v.last().name == "location"@ {
                located(u, v.last(), server, local, base)
            } else {
                Ok(u)
            },
        }
    }
}

proof fn lemma_located_error(
    t: Trail,
    v: Seq<Node>,
    server: nat,
    local: State,
    base: Seq<char>,
    n: int,
)
    requires
        0 <= n <= v.len(),
        all_located(t, v.take(n), server, local, base) is Err,
    ensures
        all_located(t, v, server, local, base) == all_located(t, v.take(n), server, local, base),
    decreases v.len(),
{
    if n == v.len() {
        assert(v.take(n) =~= v);
    } else {
        assert(v.drop_last().take(n) =~= v.take(n));
        lemma_located_error(t, v.drop_last(), server, local, base, n);
    }
}

proof fn lemma_applied_error(s: State, v: Seq<Node>, base: Seq<char>, context: Context, n: int)
    requires
        0 <= n <= v.len(),
        apply::all_applied(s, v.take(n), base, context) is Err,
    ensures
        apply::all_applied(s, v, base, context) == apply::all_applied(
            s,
            v.take(n),
            base,
            context,
        ),
    decreases v.len(),
{
    if n == v.len() {
        assert(v.take(n) =~= v);
    } else {
        assert(v.drop_last().take(n) =~= v.take(n));
        lemma_applied_error(s, v.drop_last(), base, context, n);
    }
}

/// Applies every directive of a block.
fn apply_all(s: &mut Scope, v: &Vec<Directive>, base: &str, context: Context) -> (r: Result<
    (),
    (String, Problem),
>)
    requires
        old(s).wf(),
    ensures
        final(s).wf(),
        match r {
            Ok(()) => apply::all_applied(old(s)@, nodes(v@), base@, context) == Ok::<
                State,
                (Seq<char>, Problem),
            >(final(s)@),
            Err(e) => apply::all_applied(old(s)@, nodes(v@), base@, context) == Err::<
                State,
                (Seq<char>, Problem),
            >((e.0@, e.1)),
        },
{
    let ghost all = nodes(v@);
    let ghost start = s@;
    let mut i: usize = 0;
    while i < v.len()
        invariant
            i <= v.len(),
            all == nodes(v@),
            start == old(s)@,
            s.wf(),
            apply::all_applied(start, all.take(i as int), base@, context) == Ok::<
                State,
                (Seq<char>, Problem),
            >(s@),
        decreases v.len() - i,
    {
        proof {
            assert(all.take(i + 1).drop_last() =~= all.take(i as int));
            assert(all.take(i + 1).last() == v@[i as int].node());
        }
        if let Err(e) = apply::apply(s, &v[i], base, context) {
            proof {
                lemma_applied_error(start, all, base@, context, i + 1);
            }
            return Err((v[i].source.clone(), e));
        }
        i += 1;
    }
    assert(all.take(i as int) =~= all);
    Ok(())
}

/// Every route has settings that keep their invariant.
pub open spec fn routes_wf(v: Seq<Route>) -> bool {
    forall|i: int| 0 <= i < v.len() ==> (#[trigger] v[i]).settings.wf()
}

/// Reads one location.
fn read_one(
    targets: &mut Vec<Target>,
    routes: &Vec<Route>,
    n: &Directive,
    server: usize,
    local: &Scope,
    base: &str,
) -> (r: Result<Route, (String, LoadProblem)>)
    requires
        local.wf(),
    ensures
        ({
            let t = Trail { routes: ways(routes@), goals: goals(old(targets)@) };
            let spec = located(t, n.node(), server as nat, local@, base@);
            match r {
                Ok(route) => spec == Ok::<Trail, (Seq<char>, LoadProblem)>(
                    Trail { routes: ways(routes@).push(route@), goals: goals(final(targets)@) },
                ) && route.settings.wf(),
                Err(e) => spec == Err::<Trail, (Seq<char>, LoadProblem)>((e.0@, e.1)),
            }
        }),
{
    proof {
        lemma_node(*n);
    }
    let matcher = match read_location(n) {
        Ok(m) => m,
        Err(e) => return Err((n.source.clone(), e)),
    };
    if any_matched(routes, &matcher) {
        return Err((n.source.clone(), LoadProblem::DuplicateLocation));
    }
    let inner = match &n.children {
        Some(c) => c,
        None => return Err((n.source.clone(), LoadProblem::Directive(Problem::RequiresBlock))),
    };
    let mut scope = local.copy();
    apply::reset_header_inheritance(&mut scope, inner);
    if let Err(e) = apply_all(&mut scope, inner, base, Context::Location) {
        return Err((e.0, LoadProblem::Directive(e.1)));
    }
    let id = make_id(server, matcher.path());
    match build_route(targets, id, matcher, &scope) {
        Err(e) => Err((n.source.clone(), e)),
        Ok(route) => Ok(route),
    }
}

fn read_locations(
    targets: &mut Vec<Target>,
    v: &Vec<Directive>,
    server: usize,
    local: &Scope,
    base: &str,
) -> (r: Result<Vec<Route>, (String, LoadProblem)>)
    requires
        local.wf(),
    ensures
        ({
            let start = Trail { routes: Seq::empty(), goals: goals(old(targets)@) };
            let spec = all_located(start, nodes(v@), server as nat, local@, base@);
            match r {
                Ok(routes) => spec == Ok::<Trail, (Seq<char>, LoadProblem)>(
                    Trail { routes: ways(routes@), goals: goals(final(targets)@) },
                ) && routes_wf(routes@),
                Err(e) => spec == Err::<Trail, (Seq<char>, LoadProblem)>((e.0@, e.1)),
            }
        }),
{
    let ghost all = nodes(v@);
    let ghost start = Trail { routes: Seq::empty(), goals: goals(targets@) };
    let mut routes: Vec<Route> = Vec::new();
    let mut i: usize = 0;
    assert(ways(routes@) =~= Seq::<Way>::empty());
    while i < v.len()
        invariant
            i <= v.len(),
            all == nodes(v@),
            start == (Trail { routes: Seq::empty(), goals: goals(old(targets)@) }),
            local.wf(),
            routes_wf(routes@),
            all_located(start, all.take(i as int), server as nat, local@, base@) == Ok::<
                Trail,
                (Seq<char>, LoadProblem),
            >(Trail { routes: ways(routes@), goals: goals(targets@) }),
        decreases v.len() - i,
    {
        let n = &v[i];
        proof {
            assert(all.take(i + 1).drop_last() =~= all.take(i as int));
            assert(all.take(i + 1).last() == n.node());
        }
        if text::same(n.name.as_str(), "location") {
            match read_one(targets, &routes, n, server, local, base) {
                Err(e) => {
                    proof {
                        lemma_located_error(start, all, server as nat, local@, base@, i + 1);
                    }
                    return Err(e);
                },
                Ok(route) => {
                    let ghost before = ways(routes@);
                    let ghost x = route@;
                    routes.push(route);
                    assert(ways(routes@) =~= before.push(x));
                },
            }
        }
        i += 1;
    }
    assert(all.take(i as int) =~= all);
    Ok(routes)
}

// ---------------------------------------------------------------------------
// The whole
// ---------------------------------------------------------------------------

/// A server's names, routes and certificate.
#[derive(Debug)]
pub struct Server {
    pub names: Vec<String>,
    pub routes: Vec<Route>,
    /// The files of the certificate and of its key.
    pub certificate: Option<(String, String)>,
}

/// What a `Server` holds.
#[verifier::ext_equal]
pub ghost struct Site {
    pub names: Seq<Seq<char>>,
    pub routes: Seq<Way>,
    pub certificate: Option<(Seq<char>, Seq<char>)>,
}

impl View for Server {
    type V = Site;

    open spec fn view(&self) -> Site {
        Site {
            names: texts(self.names@),
            routes: ways(self.routes@),
            certificate: match self.certificate {
                Some((c, k)) => Some((c@, k@)),
                None => None,
            },
        }
    }
}

pub open spec fn sites(v: Seq<Server>) -> Seq<Site> {
    Seq::new(v.len(), |i: int| v[i]@)
}

/// A server at an address; the default one answers for names that no other has.
#[derive(Clone, Copy, Debug, PartialEq, Eq, Structural)]
pub struct VirtualHost {
    pub listener: Socket,
    pub tls: bool,
    pub server: usize,
    pub default: bool,
}

#[derive(Clone, Copy, Debug, PartialEq, Eq, Structural)]
pub struct Listener {
    pub address: Socket,
    pub tls: bool,
    pub http2: bool,
}

/// Everything that a configuration says.
#[derive(Debug)]
pub struct Plan {
    pub servers: Vec<Server>,
    pub hosts: Vec<VirtualHost>,
    pub listeners: Vec<Listener>,
    /// The addresses that have an explicit default server.
    pub defaults: Vec<Socket>,
    pub targets: Vec<Target>,
    pub upstreams: Vec<Group>,
    pub error_log: Option<crate::config::settings::ErrorLog>,
}

/// What a `Plan` holds.
#[verifier::ext_equal]
pub ghost struct Whole {
    pub servers: Seq<Site>,
    pub hosts: Seq<VirtualHost>,
    pub listeners: Seq<Listener>,
    pub defaults: Seq<Socket>,
    pub goals: Seq<Goal>,
    pub upstreams: Seq<(Seq<char>, Seq<(Seq<char>, u32)>)>,
    pub error_log: Option<(Seq<char>, Seq<char>)>,
}

pub open spec fn groups(v: Seq<Group>) -> Seq<(Seq<char>, Seq<(Seq<char>, u32)>)> {
    Seq::new(v.len(), |i: int| (v[i].name@, group_servers(v[i].servers@)))
}

impl View for Plan {
    type V = Whole;

    open spec fn view(&self) -> Whole {
        Whole {
            servers: sites(self.servers@),
            hosts: self.hosts@,
            listeners: self.listeners@,
            defaults: self.defaults@,
            goals: goals(self.targets@),
            upstreams: groups(self.upstreams@),
            error_log: match self.error_log {
                Some(e) => Some((e.path@, e.level@)),
                None => None,
            },
        }
    }
}

/// The listener at an address, where there is one.
pub open spec fn listener_at(v: Seq<Listener>, a: Socket) -> Option<Listener>
    decreases v.len(),
{
    if v.len() == 0 {
        None
    } else if v[0].address == a {
        Some(v[0])
    } else {
        listener_at(v.drop_first(), a)
    }
}

/// Listeners in the order of their addresses with one more.
pub open spec fn inserted(v: Seq<Listener>, l: Listener) -> Seq<Listener>
    decreases v.len(),
{
    if v.len() == 0 || crate::backend::before(l.address, v[0].address) {
        seq![l] + v
    } else {
        seq![v[0]] + inserted(v.drop_first(), l)
    }
}

/// The hosts at an address without a default among them.
pub open spec fn undefaulted(v: Seq<VirtualHost>, a: Socket) -> Seq<VirtualHost> {
    Seq::new(
        v.len(),
        |i: int|
            if v[i].listener == a {
                VirtualHost { default: false, ..v[i] }
            } else {
                v[i]
            },
    )
}

pub open spec fn host_at(v: Seq<VirtualHost>, a: Socket) -> bool {
    exists|i: int| 0 <= i < v.len() && (#[trigger] v[i]).listener == a
}

/// A server's `listen` line takes effect: the first server at an address is its default one unless one
/// says so explicitly.
pub open spec fn listened(w: Whole, server: int, http2: bool, certified: bool, l: Listen) -> Result<
    Whole,
    LoadProblem,
> {
    let listener = Listener { address: l.address, tls: l.tls, http2 };
    let known = listener_at(w.listeners, l.address);
    if l.default && w.defaults.contains(l.address) {
        Err(LoadProblem::DuplicateDefault)
    } else if known is Some && known->0 != listener {
        Err(LoadProblem::ConflictingListener)
    } else if l.tls && !certified {
        Err(LoadProblem::TlsWithoutCertificate)
    } else {
        let hosts = if l.default {
            undefaulted(w.hosts, l.address)
        } else {
            w.hosts
        };
        Ok(
            Whole {
                hosts: hosts.push(
                    VirtualHost {
                        listener: l.address,
                        tls: l.tls,
                        server: server as usize,
                        default: l.default || !host_at(w.hosts, l.address),
                    },
                ),
                listeners: if known is Some {
                    w.listeners
                } else {
                    inserted(w.listeners, listener)
                },
                defaults: if l.default {
                    w.defaults.push(l.address)
                } else {
                    w.defaults
                },
                ..w
            },
        )
    }
}

pub open spec fn all_listened(
    w: Whole,
    server: int,
    http2: bool,
    certified: bool,
    v: Seq<Listen>,
) -> Result<Whole, LoadProblem>
    decreases v.len(),
{
    if v.len() == 0 {
        Ok(w)
    } else {
        match all_listened(w, server, http2, certified, v.drop_last()) {
            Err(e) => Err(e),
            Ok(x) => listened(x, server, http2, certified, v.last()),
        }
    }
}

/// The routes of a server: its locations, one for every other path, or a single one where the server as a
/// whole returns.
pub open spec fn server_routes(
    goals: Seq<Goal>,
    v: Seq<Node>,
    source: Seq<char>,
    server: nat,
    local: State,
    base: Seq<char>,
) -> Result<Trail, (Seq<char>, LoadProblem)> {
    let root = Matcher::NginxPrefix("/"@);
    match all_located(Trail { routes: Seq::empty(), goals }, v, server, local, base) {
        Err(e) => Err(e),
        Ok(t) => {
            let filled: Result<Trail, (Seq<char>, LoadProblem)> = if matched(t.routes, root) {
                Ok(t)
            } else {
                match built(t.goals, route_id(server, "/"@), root, local) {
                    Err(e) => Err((source, e)),
                    Ok((way, goals)) => Ok(Trail { routes: t.routes.push(way), goals }),
                }
            };
            match filled {
                Err(e) => Err(e),
                Ok(t) => match local.action {
                    Some(Deed::Return { status, text }) => Ok(
                        Trail {
                            routes: seq![
                                Way {
                                    id: route_id(server, "return"@),
                                    matcher: root,
                                    action: Deed::Return { status, text },
                                    settings: Values { max_body: 0, ..local.settings },
                                    script: None,
                                    allowed_backends: keys(t.goals),
                                },
                            ],
                            goals: t.goals,
                        },
                    ),
                    _ => Ok(t),
                },
            }
        },
    }
}

pub open spec fn certificate_of(s: State) -> Result<Option<(Seq<char>, Seq<char>)>, LoadProblem> {
    match (s.cert, s.key) {
        (Some(c), Some(k)) => Ok(Some((c, k))),
        (None, None) => Ok(None),
        _ => Err(LoadProblem::CertificatePair),
    }
}

/// One more server block.
pub open spec fn served(w: Whole, n: Node, scope: State, base: Seq<char>) -> Result<
    Whole,
    (Seq<char>, LoadProblem),
> {
    if n.args.len() > 0 {
        Err((n.source, LoadProblem::ServerArguments))
    } else {
        match n.children {
            None => Err((n.source, LoadProblem::Directive(Problem::RequiresBlock))),
            Some(v) => {
                let front = Front {
                    scope: fresh_headers(scope, v),
                    names: Seq::empty(),
                    listens: Seq::empty(),
                };
                match all_fronted(front, v, base) {
                    Err(e) => Err(e),
                    Ok(f) => match server_routes(
                        w.goals,
                        v,
                        n.source,
                        w.servers.len(),
                        f.scope,
                        base,
                    ) {
                        Err(e) => Err(e),
                        Ok(t) => match certificate_of(f.scope) {
                            Err(e) => Err((n.source, e)),
                            Ok(certificate) => {
                                let names = if f.names.len() == 0 {
                                    seq![Seq::<char>::empty()]
                                } else {
                                    f.names
                                };
                                let listens = if f.listens.len() == 0 {
                                    seq![Listen { address: any_v4(80), tls: false, default: false }]
                                } else {
                                    f.listens
                                };
                                let site = Site { names, routes: t.routes, certificate };
                                let next = Whole {
                                    servers: w.servers.push(site),
                                    goals: t.goals,
                                    ..w
                                };
                                match all_listened(
                                    next,
                                    w.servers.len() as int,
                                    f.scope.http2,
                                    certificate is Some,
                                    listens,
                                ) {
                                    Err(e) => Err((n.source, e)),
                                    Ok(x) => Ok(x),
                                }
                            },
                        },
                    },
                }
            },
        }
    }
}

pub open spec fn all_served(w: Whole, v: Seq<Node>, scope: State, base: Seq<char>) -> Result<
    Whole,
    (Seq<char>, LoadProblem),
>
    decreases v.len(),
{
    if v.len() == 0 {
        Ok(w)
    } else {
        match all_served(w, v.drop_last(), scope, base) {
            Err(e) => Err(e),
            Ok(x) => if v.last().name == "server"@ {
                served(x, v.last(), scope, base)
            } else {
                Ok(x)
            },
        }
    }
}

fn same_listener(a: Listener, b: Listener) -> (r: bool)
    ensures
        r == (a == b),
{
    a == b
}

fn find_listener(v: &Vec<Listener>, a: Socket) -> (r: Option<Listener>)
    ensures
        r == listener_at(v@, a),
{
    let mut i: usize = 0;
    assert(v@.skip(0) =~= v@);
    while i < v.len()
        invariant
            i <= v.len(),
            listener_at(v@.skip(i as int), a) == listener_at(v@, a),
        decreases v.len() - i,
    {
        if v[i].address == a {
            return Some(v[i]);
        }
        assert(v@.skip(i as int).drop_first() =~= v@.skip(i + 1));
        i += 1;
    }
    None
}

proof fn lemma_inserted(v: Seq<Listener>, l: Listener, i: int)
    requires
        0 <= i <= v.len(),
        forall|j: int|
            0 <= j < i ==> !crate::backend::before(l.address, (#[trigger] v[j]).address),
        i < v.len() ==> crate::backend::before(l.address, v[i].address),
    ensures
        inserted(v, l) == v.insert(i, l),
    decreases v.len(),
{
    if i == 0 {
        assert(v.insert(0, l) =~= seq![l] + v);
    } else {
        let w = v.drop_first();
        assert forall|j: int| 0 <= j < i - 1 implies !crate::backend::before(
            l.address,
            (#[trigger] w[j]).address,
        ) by {
            assert(w[j] == v[j + 1]);
        }
        assert(!crate::backend::before(l.address, v[0].address));
        lemma_inserted(w, l, i - 1);
        assert(v.insert(i, l) =~= seq![v[0]] + w.insert(i - 1, l));
    }
}

fn insert_listener(v: &mut Vec<Listener>, l: Listener)
    ensures
        final(v)@ == inserted(old(v)@, l),
{
    let mut i: usize = 0;
    while i < v.len() && !crate::backend::is_before(l.address, v[i].address)
        invariant
            i <= v.len(),
            v@ == old(v)@,
            forall|j: int|
                0 <= j < i ==> !crate::backend::before(l.address, (#[trigger] v@[j]).address),
        decreases v.len() - i,
    {
        i += 1;
    }
    proof {
        lemma_inserted(v@, l, i as int);
    }
    v.insert(i, l);
}

fn drop_defaults(v: &mut Vec<VirtualHost>, a: Socket)
    ensures
        final(v)@ == undefaulted(old(v)@, a),
{
    let mut i: usize = 0;
    while i < v.len()
        invariant
            i <= v.len(),
            v@.len() == old(v)@.len(),
            forall|j: int| 0 <= j < i ==> #[trigger] v@[j] == undefaulted(old(v)@, a)[j],
            forall|j: int| i <= j < v@.len() ==> #[trigger] v@[j] == old(v)@[j],
        decreases v.len() - i,
    {
        if v[i].listener == a {
            let mut h = v[i];
            h.default = false;
            v.set(i, h);
        }
        i += 1;
    }
    assert(v@ =~= undefaulted(old(v)@, a));
}

fn any_host(v: &Vec<VirtualHost>, a: Socket) -> (r: bool)
    ensures
        r == host_at(v@, a),
{
    let mut i: usize = 0;
    while i < v.len()
        invariant
            i <= v.len(),
            forall|j: int| 0 <= j < i ==> (#[trigger] v@[j]).listener != a,
        decreases v.len() - i,
    {
        if v[i].listener == a {
            return true;
        }
        i += 1;
    }
    false
}

fn has_socket(v: &Vec<Socket>, a: Socket) -> (r: bool)
    ensures
        r == v@.contains(a),
{
    let mut i: usize = 0;
    while i < v.len()
        invariant
            i <= v.len(),
            forall|j: int| 0 <= j < i ==> v@[j] != a,
        decreases v.len() - i,
    {
        if v[i] == a {
            return true;
        }
        i += 1;
    }
    false
}

fn listen_one(p: &mut Plan, server: usize, http2: bool, certified: bool, l: Listen) -> (r: Result<
    (),
    LoadProblem,
>)
    ensures
        final(p).servers == old(p).servers,
        final(p).targets == old(p).targets,
        match r {
            Ok(()) => listened(old(p)@, server as int, http2, certified, l) == Ok::<
                Whole,
                LoadProblem,
            >(final(p)@),
            Err(e) => listened(old(p)@, server as int, http2, certified, l) == Err::<
                Whole,
                LoadProblem,
            >(e),
        },
{
    if l.default && has_socket(&p.defaults, l.address) {
        return Err(LoadProblem::DuplicateDefault);
    }
    let listener = Listener { address: l.address, tls: l.tls, http2 };
    let known = find_listener(&p.listeners, l.address);
    match known {
        Some(k) => {
            if !same_listener(k, listener) {
                return Err(LoadProblem::ConflictingListener);
            }
        },
        None => {},
    }
    if l.tls && !certified {
        return Err(LoadProblem::TlsWithoutCertificate);
    }
    if known.is_none() {
        insert_listener(&mut p.listeners, listener);
    }
    let first = !any_host(&p.hosts, l.address);
    if l.default {
        p.defaults.push(l.address);
        drop_defaults(&mut p.hosts, l.address);
    }
    p.hosts.push(
        VirtualHost {
            listener: l.address,
            tls: l.tls,
            server,
            default: l.default || first,
        },
    );
    Ok(())
}

proof fn lemma_listened_error(
    w: Whole,
    server: int,
    http2: bool,
    certified: bool,
    v: Seq<Listen>,
    n: int,
)
    requires
        0 <= n <= v.len(),
        all_listened(w, server, http2, certified, v.take(n)) is Err,
    ensures
        all_listened(w, server, http2, certified, v) == all_listened(
            w,
            server,
            http2,
            certified,
            v.take(n),
        ),
    decreases v.len(),
{
    if n == v.len() {
        assert(v.take(n) =~= v);
    } else {
        assert(v.drop_last().take(n) =~= v.take(n));
        lemma_listened_error(w, server, http2, certified, v.drop_last(), n);
    }
}

fn listen_all(
    p: &mut Plan,
    server: usize,
    http2: bool,
    certified: bool,
    v: &Vec<Listen>,
) -> (r: Result<(), LoadProblem>)
    ensures
        final(p).servers == old(p).servers,
        match r {
            Ok(()) => all_listened(old(p)@, server as int, http2, certified, v@) == Ok::<
                Whole,
                LoadProblem,
            >(final(p)@),
            Err(e) => all_listened(old(p)@, server as int, http2, certified, v@) == Err::<
                Whole,
                LoadProblem,
            >(e),
        },
{
    let ghost start = p@;
    let mut i: usize = 0;
    while i < v.len()
        invariant
            i <= v.len(),
            start == old(p)@,
            p.servers == old(p).servers,
            all_listened(start, server as int, http2, certified, v@.take(i as int)) == Ok::<
                Whole,
                LoadProblem,
            >(p@),
        decreases v.len() - i,
    {
        proof {
            assert(v@.take(i + 1).drop_last() =~= v@.take(i as int));
            assert(v@.take(i + 1).last() == v@[i as int]);
        }
        if let Err(e) = listen_one(p, server, http2, certified, v[i]) {
            proof {
                lemma_listened_error(start, server as int, http2, certified, v@, i + 1);
            }
            return Err(e);
        }
        i += 1;
    }
    assert(v@.take(i as int) =~= v@);
    Ok(())
}

fn read_front(v: &Vec<Directive>, scope: &Scope, base: &str) -> (r: Result<
    FrontDraft,
    (String, LoadProblem),
>)
    requires
        scope.wf(),
    ensures
        ({
            let start = Front {
                scope: fresh_headers(scope@, nodes(v@)),
                names: Seq::empty(),
                listens: Seq::empty(),
            };
            let spec = all_fronted(start, nodes(v@), base@);
            match r {
                Ok(f) => f.scope.wf() && spec == Ok::<Front, (Seq<char>, LoadProblem)>(f.front()),
                Err(e) => spec == Err::<Front, (Seq<char>, LoadProblem)>((e.0@, e.1)),
            }
        }),
{
    let ghost all = nodes(v@);
    let mut local = scope.copy();
    apply::reset_header_inheritance(&mut local, v);
    let ghost start = Front {
        scope: fresh_headers(scope@, all),
        names: Seq::empty(),
        listens: Seq::empty(),
    };
    let mut f = FrontDraft { scope: local, names: Vec::new(), listens: Vec::new() };
    assert(f.front() =~= start);
    let mut i: usize = 0;
    while i < v.len()
        invariant
            i <= v.len(),
            all == nodes(v@),
            start == (Front {
                scope: fresh_headers(scope@, all),
                names: Seq::empty(),
                listens: Seq::empty(),
            }),
            f.scope.wf(),
            all_fronted(start, all.take(i as int), base@) == Ok::<
                Front,
                (Seq<char>, LoadProblem),
            >(f.front()),
        decreases v.len() - i,
    {
        proof {
            assert(all.take(i + 1).drop_last() =~= all.take(i as int));
            assert(all.take(i + 1).last() == v@[i as int].node());
        }
        if let Err(e) = front_line(&mut f, &v[i], base) {
            proof {
                lemma_front_error(start, all, base@, i + 1);
            }
            return Err((v[i].source.clone(), e));
        }
        i += 1;
    }
    assert(all.take(i as int) =~= all);
    Ok(f)
}

fn read_routes(
    targets: &mut Vec<Target>,
    v: &Vec<Directive>,
    source: &String,
    server: usize,
    local: &Scope,
    base: &str,
) -> (r: Result<Vec<Route>, (String, LoadProblem)>)
    requires
        local.wf(),
    ensures
        ({
            let spec = server_routes(
                goals(old(targets)@),
                nodes(v@),
                source@,
                server as nat,
                local@,
                base@,
            );
            match r {
                Ok(routes) => spec == Ok::<Trail, (Seq<char>, LoadProblem)>(
                    Trail { routes: ways(routes@), goals: goals(final(targets)@) },
                ) && routes_wf(routes@),
                Err(e) => spec == Err::<Trail, (Seq<char>, LoadProblem)>((e.0@, e.1)),
            }
        }),
{
    let mut routes = match read_locations(targets, v, server, local, base) {
        Ok(r) => r,
        Err(e) => return Err(e),
    };
    let root = PathMatch::NginxPrefix("/".to_owned());
    if !any_matched(&routes, &root) {
        match build_route(targets, make_id(server, "/"), root, local) {
            Err(e) => return Err((source.clone(), e)),
            Ok(route) => {
                let ghost before = ways(routes@);
                let ghost x = route@;
                routes.push(route);
                assert(ways(routes@) =~= before.push(x));
            },
        }
    }
    match &local.action {
        Some(Action::Return { status, text }) => {
            let mut settings = local.settings.copy();
            settings.max_body = 0;
            let route = Route {
                id: make_id(server, "return"),
                matcher: PathMatch::NginxPrefix("/".to_owned()),
                action: Action::Return { status: *status, text: text.clone() },
                settings,
                script: None,
                allowed_backends: target_keys(targets),
            };
            let mut only: Vec<Route> = Vec::new();
            only.push(route);
            proof {
                assert(route@.settings =~= (Values { max_body: 0, ..local@.settings }));
                assert(ways(only@) =~= seq![route@]);
            }
            Ok(only)
        },
        _ => Ok(routes),
    }
}

/// The servers' routes have settings that keep their invariant.
pub open spec fn servers_wf(v: Seq<Server>) -> bool {
    forall|i: int| 0 <= i < v.len() ==> routes_wf((#[trigger] v[i]).routes@)
}

fn serve(p: &mut Plan, n: &Directive, scope: &Scope, base: &str) -> (r: Result<
    (),
    (String, LoadProblem),
>)
    requires
        scope.wf(),
        servers_wf(old(p).servers@),
    ensures
        match r {
            Ok(()) => served(old(p)@, n.node(), scope@, base@) == Ok::<
                Whole,
                (Seq<char>, LoadProblem),
            >(final(p)@) && servers_wf(final(p).servers@),
            Err(e) => served(old(p)@, n.node(), scope@, base@) == Err::<
                Whole,
                (Seq<char>, LoadProblem),
            >((e.0@, e.1)),
        },
{
    assert(n.node().args.len() == n.args@.len());
    if n.args.len() > 0 {
        return Err((n.source.clone(), LoadProblem::ServerArguments));
    }
    let v = match &n.children {
        Some(v) => v,
        None => return Err((n.source.clone(), LoadProblem::Directive(Problem::RequiresBlock))),
    };
    proof {
        lemma_node(*n);
    }
    let f = match read_front(v, scope, base) {
        Ok(f) => f,
        Err(e) => return Err(e),
    };
    let k: usize = p.servers.len();
    let ghost start = p@;
    assert(start.servers.len() == k);
    let routes = match read_routes(&mut p.targets, v, &n.source, k, &f.scope, base) {
        Ok(r) => r,
        Err(e) => return Err(e),
    };
    let certificate = match (&f.scope.cert, &f.scope.key) {
        (Some(c), Some(k)) => Some((c.clone(), k.clone())),
        (None, None) => None,
        _ => return Err((n.source.clone(), LoadProblem::CertificatePair)),
    };
    let certified = certificate.is_some();
    let mut names = f.names;
    assert(texts(names@).len() == names@.len());
    if names.len() == 0 {
        names.push(String::new());
        assert(texts(names@) =~= seq![Seq::<char>::empty()]);
    }
    let mut listens = f.listens;
    if listens.len() == 0 {
        listens.push(
            Listen { address: Socket { ip: Ip::V4(0), scope: 0, port: 80 }, tls: false, default: false },
        );
        assert(listens@ =~= seq![Listen { address: any_v4(80), tls: false, default: false }]);
    }
    let server = Server { names, routes, certificate };
    let ghost site = server@;
    p.servers.push(server);
    proof {
        assert(sites(p.servers@) =~= start.servers.push(site));
        assert(p@ =~= (Whole {
            servers: start.servers.push(site),
            goals: goals(p.targets@),
            ..start
        }));
    }
    match listen_all(p, k, f.scope.http2, certified, &listens) {
        Err(e) => Err((n.source.clone(), e)),
        Ok(()) => Ok(()),
    }
}

/// The `http` block of a configuration, where it is the only one and nothing else stands beside it but
/// empty `events`.
pub open spec fn http_of(v: Seq<Node>) -> Result<Option<Seq<Node>>, (Seq<char>, LoadProblem)>
    decreases v.len(),
{
    if v.len() == 0 {
        Ok(None)
    } else {
        match http_of(v.drop_last()) {
            Err(e) => Err(e),
            Ok(found) => {
                let n = v.last();
                if n.name == "http"@ {
                    if found is Some {
                        Err((n.source, LoadProblem::DuplicateHttp))
                    } else if n.args.len() > 0 {
                        Err((n.source, LoadProblem::HttpArguments))
                    } else {
                        match n.children {
                            None => Err((n.source, LoadProblem::Directive(Problem::RequiresBlock))),
                            Some(w) => Ok(Some(w)),
                        }
                    }
                } else if n.name == "events"@ {
                    if n.args.len() > 0 {
                        Err((n.source, LoadProblem::EventsNotEmpty))
                    } else {
                        match n.children {
                            None => Err((n.source, LoadProblem::Directive(Problem::RequiresBlock))),
                            Some(w) => if w.len() > 0 {
                                Err((n.source, LoadProblem::EventsNotEmpty))
                            } else {
                                Ok(found)
                            },
                        }
                    }
                } else {
                    Err((n.source, LoadProblem::UnsupportedTopLevel))
                }
            },
        }
    }
}

proof fn lemma_http_error(v: Seq<Node>, n: int)
    requires
        0 <= n <= v.len(),
        http_of(v.take(n)) is Err,
    ensures
        http_of(v) == http_of(v.take(n)),
    decreases v.len(),
{
    if n == v.len() {
        assert(v.take(n) =~= v);
    } else {
        assert(v.drop_last().take(n) =~= v.take(n));
        lemma_http_error(v.drop_last(), n);
    }
}

fn read_http<'a>(v: &'a Vec<Directive>) -> (r: Result<
    Option<&'a Vec<Directive>>,
    (String, LoadProblem),
>)
    ensures
        match r {
            Ok(Some(w)) => http_of(nodes(v@)) == Ok::<
                Option<Seq<Node>>,
                (Seq<char>, LoadProblem),
            >(Some(nodes(w@))),
            Ok(None) => http_of(nodes(v@)) == Ok::<Option<Seq<Node>>, (Seq<char>, LoadProblem)>(
                None,
            ),
            Err(e) => http_of(nodes(v@)) == Err::<Option<Seq<Node>>, (Seq<char>, LoadProblem)>(
                (e.0@, e.1),
            ),
        },
{
    let ghost all = nodes(v@);
    let mut found: Option<&'a Vec<Directive>> = None;
    let mut i: usize = 0;
    while i < v.len()
        invariant
            i <= v.len(),
            all == nodes(v@),
            http_of(all.take(i as int)) == Ok::<Option<Seq<Node>>, (Seq<char>, LoadProblem)>(
                match found {
                    Some(w) => Some(nodes(w@)),
                    None => None,
                },
            ),
        decreases v.len() - i,
    {
        let n = &v[i];
        proof {
            assert(all.take(i + 1).drop_last() =~= all.take(i as int));
            assert(all.take(i + 1).last() == n.node());
            assert(n.node().args.len() == n.args@.len());
            lemma_node(*n);
            if http_of(all.take(i + 1)) is Err {
                lemma_http_error(all, i + 1);
            }
        }
        if text::same(n.name.as_str(), "http") {
            if found.is_some() {
                return Err((n.source.clone(), LoadProblem::DuplicateHttp));
            }
            if n.args.len() > 0 {
                return Err((n.source.clone(), LoadProblem::HttpArguments));
            }
            match &n.children {
                None => return Err(
                    (n.source.clone(), LoadProblem::Directive(Problem::RequiresBlock)),
                ),
                Some(w) => {
                    found = Some(w);
                },
            }
        } else if text::same(n.name.as_str(), "events") {
            if n.args.len() > 0 {
                return Err((n.source.clone(), LoadProblem::EventsNotEmpty));
            }
            match &n.children {
                None => return Err(
                    (n.source.clone(), LoadProblem::Directive(Problem::RequiresBlock)),
                ),
                Some(w) => {
                    assert(nodes(w@).len() == w@.len());
                    if w.len() > 0 {
                        return Err((n.source.clone(), LoadProblem::EventsNotEmpty));
                    }
                },
            }
        } else {
            return Err((n.source.clone(), LoadProblem::UnsupportedTopLevel));
        }
        i += 1;
    }
    assert(all.take(i as int) =~= all);
    Ok(found)
}

/// The scope of the `http` block: what its directives set, servers and upstreams aside.
pub open spec fn http_scope(s: State, v: Seq<Node>, base: Seq<char>) -> Result<
    State,
    (Seq<char>, LoadProblem),
>
    decreases v.len(),
{
    if v.len() == 0 {
        Ok(s)
    } else {
        match http_scope(s, v.drop_last(), base) {
            Err(e) => Err(e),
            Ok(t) => if v.last().name == "server"@ || v.last().name == "upstream"@ {
                Ok(t)
            } else {
                match applied(t, v.last(), base, Context::Http) {
                    Ok(u) => Ok(u),
                    Err(e) => Err((v.last().source, LoadProblem::Directive(e))),
                }
            },
        }
    }
}

/// The upstreams of the `http` block, and a target for each.
pub open spec fn grouped(w: Whole, v: Seq<Node>) -> Result<Whole, (Seq<char>, LoadProblem)>
    decreases v.len(),
{
    if v.len() == 0 {
        Ok(w)
    } else {
        match grouped(w, v.drop_last()) {
            Err(e) => Err(e),
            Ok(x) => if v.last().name != "upstream"@ {
                Ok(x)
            } else {
                match group_of(v.last()) {
                    Err((source, e)) => Err((source, LoadProblem::Upstream(e))),
                    Ok((name, servers)) => if has_goal(x.goals, name) {
                        Err((v.last().source, LoadProblem::DuplicateUpstream))
                    } else {
                        Ok(
                            Whole {
                                upstreams: x.upstreams.push((name, servers)),
                                goals: x.goals.push(
                                    Goal {
                                        key: name,
                                        tls: false,
                                        hostname: name,
                                        host_header: name,
                                        source: Origin::Group(name),
                                    },
                                ),
                                ..x
                            },
                        )
                    },
                }
            },
        }
    }
}

proof fn lemma_scope_error(s: State, v: Seq<Node>, base: Seq<char>, n: int)
    requires
        0 <= n <= v.len(),
        http_scope(s, v.take(n), base) is Err,
    ensures
        http_scope(s, v, base) == http_scope(s, v.take(n), base),
    decreases v.len(),
{
    if n == v.len() {
        assert(v.take(n) =~= v);
    } else {
        assert(v.drop_last().take(n) =~= v.take(n));
        lemma_scope_error(s, v.drop_last(), base, n);
    }
}

proof fn lemma_grouped_error(w: Whole, v: Seq<Node>, n: int)
    requires
        0 <= n <= v.len(),
        grouped(w, v.take(n)) is Err,
    ensures
        grouped(w, v) == grouped(w, v.take(n)),
    decreases v.len(),
{
    if n == v.len() {
        assert(v.take(n) =~= v);
    } else {
        assert(v.drop_last().take(n) =~= v.take(n));
        lemma_grouped_error(w, v.drop_last(), n);
    }
}

proof fn lemma_served_error(w: Whole, v: Seq<Node>, scope: State, base: Seq<char>, n: int)
    requires
        0 <= n <= v.len(),
        all_served(w, v.take(n), scope, base) is Err,
    ensures
        all_served(w, v, scope, base) == all_served(w, v.take(n), scope, base),
    decreases v.len(),
{
    if n == v.len() {
        assert(v.take(n) =~= v);
    } else {
        assert(v.drop_last().take(n) =~= v.take(n));
        lemma_served_error(w, v.drop_last(), scope, base, n);
    }
}

fn read_scope(s: &mut Scope, v: &Vec<Directive>, base: &str) -> (r: Result<
    (),
    (String, LoadProblem),
>)
    requires
        old(s).wf(),
    ensures
        final(s).wf(),
        match r {
            Ok(()) => http_scope(old(s)@, nodes(v@), base@) == Ok::<
                State,
                (Seq<char>, LoadProblem),
            >(final(s)@),
            Err(e) => http_scope(old(s)@, nodes(v@), base@) == Err::<
                State,
                (Seq<char>, LoadProblem),
            >((e.0@, e.1)),
        },
{
    let ghost all = nodes(v@);
    let ghost start = s@;
    let mut i: usize = 0;
    while i < v.len()
        invariant
            i <= v.len(),
            all == nodes(v@),
            start == old(s)@,
            s.wf(),
            http_scope(start, all.take(i as int), base@) == Ok::<
                State,
                (Seq<char>, LoadProblem),
            >(s@),
        decreases v.len() - i,
    {
        let n = &v[i];
        proof {
            assert(all.take(i + 1).drop_last() =~= all.take(i as int));
            assert(all.take(i + 1).last() == n.node());
        }
        if !text::same(n.name.as_str(), "server") && !text::same(n.name.as_str(), "upstream") {
            if let Err(e) = apply::apply(s, n, base, Context::Http) {
                proof {
                    lemma_scope_error(start, all, base@, i + 1);
                }
                return Err((n.source.clone(), LoadProblem::Directive(e)));
            }
        }
        i += 1;
    }
    assert(all.take(i as int) =~= all);
    Ok(())
}

fn read_groups(p: &mut Plan, v: &Vec<Directive>) -> (r: Result<(), (String, LoadProblem)>)
    ensures
        final(p).servers == old(p).servers,
        match r {
            Ok(()) => grouped(old(p)@, nodes(v@)) == Ok::<Whole, (Seq<char>, LoadProblem)>(
                final(p)@,
            ),
            Err(e) => grouped(old(p)@, nodes(v@)) == Err::<Whole, (Seq<char>, LoadProblem)>(
                (e.0@, e.1),
            ),
        },
{
    let ghost all = nodes(v@);
    let ghost start = p@;
    let mut i: usize = 0;
    while i < v.len()
        invariant
            i <= v.len(),
            all == nodes(v@),
            start == old(p)@,
            p.servers == old(p).servers,
            grouped(start, all.take(i as int)) == Ok::<Whole, (Seq<char>, LoadProblem)>(p@),
        decreases v.len() - i,
    {
        let n = &v[i];
        proof {
            assert(all.take(i + 1).drop_last() =~= all.take(i as int));
            assert(all.take(i + 1).last() == n.node());
            if grouped(start, all.take(i + 1)) is Err {
                lemma_grouped_error(start, all, i + 1);
            }
        }
        if text::same(n.name.as_str(), "upstream") {
            let u = match group::load(n) {
                Ok(u) => u,
                Err(e) => return Err((e.0, LoadProblem::Upstream(e.1))),
            };
            assert(goals(p.targets@).len() == p.targets@.len());
            if find_target(&p.targets, u.name.as_str()) < p.targets.len() {
                return Err((n.source.clone(), LoadProblem::DuplicateUpstream));
            }
            let ghost before = p@;
            let target = Target {
                key: u.name.clone(),
                tls: false,
                hostname: u.name.clone(),
                host_header: u.name.clone(),
                source: Source::Group(u.name.clone()),
            };
            let ghost g = target@;
            let ghost d = (u.name@, group_servers(u.servers@));
            p.targets.push(target);
            p.upstreams.push(u);
            proof {
                assert(goals(p.targets@) =~= before.goals.push(g));
                assert(groups(p.upstreams@) =~= before.upstreams.push(d));
            }
        }
        i += 1;
    }
    assert(all.take(i as int) =~= all);
    Ok(())
}

fn read_servers(p: &mut Plan, v: &Vec<Directive>, scope: &Scope, base: &str) -> (r: Result<
    (),
    (String, LoadProblem),
>)
    requires
        scope.wf(),
        servers_wf(old(p).servers@),
    ensures
        match r {
            Ok(()) => all_served(old(p)@, nodes(v@), scope@, base@) == Ok::<
                Whole,
                (Seq<char>, LoadProblem),
            >(final(p)@) && servers_wf(final(p).servers@),
            Err(e) => all_served(old(p)@, nodes(v@), scope@, base@) == Err::<
                Whole,
                (Seq<char>, LoadProblem),
            >((e.0@, e.1)),
        },
{
    let ghost all = nodes(v@);
    let ghost start = p@;
    let mut i: usize = 0;
    while i < v.len()
        invariant
            i <= v.len(),
            all == nodes(v@),
            start == old(p)@,
            scope.wf(),
            servers_wf(p.servers@),
            all_served(start, all.take(i as int), scope@, base@) == Ok::<
                Whole,
                (Seq<char>, LoadProblem),
            >(p@),
        decreases v.len() - i,
    {
        let n = &v[i];
        proof {
            assert(all.take(i + 1).drop_last() =~= all.take(i as int));
            assert(all.take(i + 1).last() == n.node());
        }
        if text::same(n.name.as_str(), "server") {
            if let Err(e) = serve(p, n, scope, base) {
                proof {
                    lemma_served_error(start, all, scope@, base@, i + 1);
                }
                return Err(e);
            }
        }
        i += 1;
    }
    assert(all.take(i as int) =~= all);
    Ok(())
}

/// Whether a route anywhere runs a script.
pub open spec fn scripted(v: Seq<Site>) -> bool {
    exists|i: int, j: int|
        #![trigger v[i].routes[j]]
        0 <= i < v.len() && 0 <= j < v[i].routes.len() && v[i].routes[j].script is Some
}

fn has_scripts(v: &Vec<Server>) -> (r: bool)
    ensures
        r == scripted(sites(v@)),
{
    let ghost all = sites(v@);
    let mut i: usize = 0;
    while i < v.len()
        invariant
            i <= v.len(),
            all == sites(v@),
            forall|a: int, b: int|
                #![trigger all[a].routes[b]]
                0 <= a < i && 0 <= b < all[a].routes.len() ==> all[a].routes[b].script is None,
        decreases v.len() - i,
    {
        let routes = &v[i].routes;
        assert(all[i as int].routes == ways(routes@));
        let mut j: usize = 0;
        while j < routes.len()
            invariant
                j <= routes.len(),
                i < v.len(),
                all == sites(v@),
                all[i as int].routes == ways(routes@),
                forall|b: int|
                    0 <= b < j ==> (#[trigger] all[i as int].routes[b]).script is None,
            decreases routes.len() - j,
        {
            assert(all[i as int].routes[j as int] == routes@[j as int]@);
            if routes[j].script.is_some() {
                return true;
            }
            j += 1;
        }
        i += 1;
    }
    false
}

/// Whether a target was made for an address that names a group.
pub open spec fn carries(g: Goal, name: Seq<char>, tls: bool) -> bool {
    text::holds(g.key, "://"@) && g.hostname == name && g.tls == tls
}

/// The last target that was made for a group over a transport, or -1.
pub open spec fn carrier(v: Seq<Goal>, name: Seq<char>, tls: bool) -> int
    decreases v.len(),
{
    if v.len() == 0 || carries(v.last(), name, tls) {
        v.len() - 1
    } else {
        carrier(v.drop_last(), name, tls)
    }
}

/// The targets after the name of a group is bound to the one transport that routes use for it. A script
/// can name the group, so with scripts there may be only one.
pub open spec fn bound(v: Seq<Goal>, name: Seq<char>, scripts: bool) -> Option<Seq<Goal>> {
    let plain = carrier(v, name, false);
    let secure = carrier(v, name, true);
    let at = goal_at(v, name);
    if plain >= 0 && secure >= 0 {
        if scripts {
            None
        } else {
            Some(v)
        }
    } else if plain < 0 && secure < 0 {
        Some(v)
    } else {
        let g = v[if plain >= 0 {
            plain
        } else {
            secure
        }];
        let named = Goal {
            key: name,
            tls: g.tls,
            hostname: g.hostname,
            host_header: g.host_header,
            source: g.source,
        };
        Some(
            if at < v.len() {
                v.update(at, named)
            } else {
                v.push(named)
            },
        )
    }
}

/// The targets after every group's name is bound.
pub open spec fn all_bound(goals: Seq<Goal>, v: Seq<Node>, scripts: bool) -> Result<
    Seq<Goal>,
    (Seq<char>, LoadProblem),
>
    decreases v.len(),
{
    if v.len() == 0 {
        Ok(goals)
    } else {
        match all_bound(goals, v.drop_last(), scripts) {
            Err(e) => Err(e),
            Ok(g) => if v.last().name != "upstream"@ || v.last().args.len() == 0 {
                Ok(g)
            } else {
                match bound(g, v.last().args[0], scripts) {
                    None => Err((v.last().source, LoadProblem::AmbiguousUpstream)),
                    Some(h) => Ok(h),
                }
            },
        }
    }
}

/// What a configuration says, whose files stand in `base`.
pub open spec fn loaded(v: Seq<Node>, base: Seq<char>) -> Result<
    Whole,
    (Seq<char>, LoadProblem),
> {
    let empty = Whole {
        servers: Seq::empty(),
        hosts: Seq::empty(),
        listeners: Seq::empty(),
        defaults: Seq::empty(),
        goals: Seq::empty(),
        upstreams: Seq::empty(),
        error_log: None,
    };
    let start = State {
        settings: Values {
            root: path::joined(base, "html"@),
            ..crate::config::settings::default_values()
        },
        action: None,
        script: None,
        cert: None,
        key: None,
        http2: false,
        error_log: None,
    };
    match http_of(v) {
        Err(e) => Err(e),
        Ok(None) => Err((Seq::empty(), LoadProblem::NoHttp)),
        Ok(Some(http)) => match http_scope(start, http, base) {
            Err(e) => Err(e),
            Ok(scope) => match grouped(Whole { error_log: scope.error_log, ..empty }, http) {
                Err(e) => Err(e),
                Ok(w) => match all_served(w, http, scope, base) {
                    Err(e) => Err(e),
                    Ok(x) => if x.hosts.len() == 0 {
                        Err((Seq::empty(), LoadProblem::NoServer))
                    } else {
                        match all_bound(x.goals, http, scripted(x.servers)) {
                            Err(e) => Err(e),
                            Ok(g) => Ok(Whole { goals: g, ..x }),
                        }
                    },
                },
            },
        },
    }
}

fn find_carrier(v: &Vec<Target>, name: &str, tls: bool) -> (r: Option<usize>)
    ensures
        match r {
            Some(i) => i < v@.len() && carrier(goals(v@), name@, tls) == i,
            None => carrier(goals(v@), name@, tls) == -1,
        },
{
    let ghost all = goals(v@);
    let mut n: usize = v.len();
    assert(all.take(n as int) =~= all);
    while n > 0
        invariant
            n <= v.len(),
            all == goals(v@),
            carrier(all.take(n as int), name@, tls) == carrier(all, name@, tls),
        decreases n,
    {
        let t = &v[n - 1];
        proof {
            assert(all.take(n as int).drop_last() =~= all.take(n - 1));
            assert(all.take(n as int).last() == t@);
        }
        if text::has_text(t.key.as_str(), "://") && text::same(t.hostname.as_str(), name) && t.tls
            == tls {
            return Some(n - 1);
        }
        n -= 1;
    }
    None
}

fn bind(v: &mut Vec<Target>, name: &str, scripts: bool) -> (r: bool)
    ensures
        match bound(goals(old(v)@), name@, scripts) {
            Some(g) => r && goals(final(v)@) == g,
            None => !r,
        },
{
    let ghost before = goals(v@);
    assert(before.len() == v@.len());
    let plain = find_carrier(v, name, false);
    let secure = find_carrier(v, name, true);
    let from = match (plain, secure) {
        (Some(_), Some(_)) => return !scripts,
        (None, None) => return true,
        (Some(i), None) => i,
        (None, Some(i)) => i,
    };
    let at = find_target(v, name);
    assert(before[from as int] == v@[from as int]@);
    let t = Target {
        key: name.to_owned(),
        tls: v[from].tls,
        hostname: v[from].hostname.clone(),
        host_header: v[from].host_header.clone(),
        source: copy_source(&v[from].source),
    };
    let ghost g = t@;
    if at < v.len() {
        v.set(at, t);
        assert(goals(v@) =~= before.update(at as int, g));
    } else {
        v.push(t);
        assert(goals(v@) =~= before.push(g));
    }
    true
}

proof fn lemma_bound_error(g: Seq<Goal>, v: Seq<Node>, scripts: bool, n: int)
    requires
        0 <= n <= v.len(),
        all_bound(g, v.take(n), scripts) is Err,
    ensures
        all_bound(g, v, scripts) == all_bound(g, v.take(n), scripts),
    decreases v.len(),
{
    if n == v.len() {
        assert(v.take(n) =~= v);
    } else {
        assert(v.drop_last().take(n) =~= v.take(n));
        lemma_bound_error(g, v.drop_last(), scripts, n);
    }
}

fn bind_all(targets: &mut Vec<Target>, v: &Vec<Directive>, scripts: bool) -> (r: Result<
    (),
    (String, LoadProblem),
>)
    ensures
        match r {
            Ok(()) => all_bound(goals(old(targets)@), nodes(v@), scripts) == Ok::<
                Seq<Goal>,
                (Seq<char>, LoadProblem),
            >(goals(final(targets)@)),
            Err(e) => all_bound(goals(old(targets)@), nodes(v@), scripts) == Err::<
                Seq<Goal>,
                (Seq<char>, LoadProblem),
            >((e.0@, e.1)),
        },
{
    let ghost all = nodes(v@);
    let ghost start = goals(targets@);
    let mut i: usize = 0;
    while i < v.len()
        invariant
            i <= v.len(),
            all == nodes(v@),
            start == goals(old(targets)@),
            all_bound(start, all.take(i as int), scripts) == Ok::<
                Seq<Goal>,
                (Seq<char>, LoadProblem),
            >(goals(targets@)),
        decreases v.len() - i,
    {
        let n = &v[i];
        proof {
            assert(all.take(i + 1).drop_last() =~= all.take(i as int));
            assert(all.take(i + 1).last() == n.node());
            assert(n.node().args.len() == n.args@.len());
        }
        if text::same(n.name.as_str(), "upstream") && n.args.len() > 0 {
            assert(n.node().args[0] == n.args@[0]@);
            if !bind(targets, n.args[0].as_str(), scripts) {
                proof {
                    lemma_bound_error(start, all, scripts, i + 1);
                }
                return Err((n.source.clone(), LoadProblem::AmbiguousUpstream));
            }
        }
        i += 1;
    }
    assert(all.take(i as int) =~= all);
    Ok(())
}

/// Reads a configuration whose files stand in `base`; a problem comes with the place of the directive.
pub fn load_nodes(v: &Vec<Directive>, base: &str) -> (r: Result<Plan, (String, LoadProblem)>)
    ensures
        match r {
            Ok(p) => loaded(nodes(v@), base@) == Ok::<Whole, (Seq<char>, LoadProblem)>(p@)
                && servers_wf(p.servers@),
            Err(e) => loaded(nodes(v@), base@) == Err::<Whole, (Seq<char>, LoadProblem)>(
                (e.0@, e.1),
            ),
        },
{
    let http = match read_http(v) {
        Err(e) => return Err(e),
        Ok(None) => {
            let none = String::new();
            assert(none@ =~= Seq::<char>::empty());
            return Err((none, LoadProblem::NoHttp));
        },
        Ok(Some(h)) => h,
    };
    let mut scope = Scope::new(path::join(base, "html"));
    if let Err(e) = read_scope(&mut scope, http, base) {
        return Err(e);
    }
    let error_log = match &scope.error_log {
        Some(e) => Some(
            crate::config::settings::ErrorLog { path: e.path.clone(), level: e.level.clone() },
        ),
        None => None,
    };
    let mut p = Plan {
        servers: Vec::new(),
        hosts: Vec::new(),
        listeners: Vec::new(),
        defaults: Vec::new(),
        targets: Vec::new(),
        upstreams: Vec::new(),
        error_log,
    };
    assert(p@ =~= (Whole {
        servers: Seq::empty(),
        hosts: Seq::empty(),
        listeners: Seq::empty(),
        defaults: Seq::empty(),
        goals: Seq::empty(),
        upstreams: Seq::empty(),
        error_log: scope@.error_log,
    }));
    if let Err(e) = read_groups(&mut p, http) {
        return Err(e);
    }
    if let Err(e) = read_servers(&mut p, http, &scope, base) {
        return Err(e);
    }
    if p.hosts.len() == 0 {
        let none = String::new();
        assert(none@ =~= Seq::<char>::empty());
        return Err((none, LoadProblem::NoServer));
    }
    let scripts = has_scripts(&p.servers);
    let ghost before = p@;
    if let Err(e) = bind_all(&mut p.targets, http, scripts) {
        return Err(e);
    }
    assert(p@ =~= (Whole { goals: goals(p.targets@), ..before }));
    Ok(p)
}

// ---------------------------------------------------------------------------
// Laws
// ---------------------------------------------------------------------------

/// Among the hosts at an address there is one default and only one.
pub open spec fn one_default(v: Seq<VirtualHost>) -> bool {
    &&& forall|i: int|
        0 <= i < v.len() ==> exists|j: int|
            0 <= j < v.len() && (#[trigger] v[j]).default && v[j].listener == (
            #[trigger] v[i]).listener
    &&& forall|i: int, j: int|
        0 <= i < j < v.len() && (#[trigger] v[i]).default && (#[trigger] v[j]).default
            ==> v[i].listener != v[j].listener
}

/// Listeners in the order of their addresses, no address twice.
pub open spec fn in_order(v: Seq<Listener>) -> bool {
    forall|i: int, j: int|
        0 <= i < j < v.len() ==> crate::backend::before(
            (#[trigger] v[i]).address,
            (#[trigger] v[j]).address,
        )
}

/// Every host has a listener of its kind and a server.
pub open spec fn placed(w: Whole) -> bool {
    forall|i: int|
        0 <= i < w.hosts.len() ==> {
            &&& (#[trigger] w.hosts[i]).server < w.servers.len()
            &&& listener_at(w.listeners, w.hosts[i].listener) is Some
            &&& listener_at(w.listeners, w.hosts[i].listener)->0.tls == w.hosts[i].tls
        }
}

pub open spec fn consistent(w: Whole) -> bool {
    one_default(w.hosts) && in_order(w.listeners) && placed(w)
}

proof fn lemma_listener_in(v: Seq<Listener>, a: Socket)
    ensures
        listener_at(v, a) is Some ==> listener_at(v, a)->0.address == a && exists|i: int|
            0 <= i < v.len() && #[trigger] v[i] == listener_at(v, a)->0,
        listener_at(v, a) is None ==> forall|i: int|
            0 <= i < v.len() ==> (#[trigger] v[i]).address != a,
    decreases v.len(),
{
    if v.len() > 0 && v[0].address != a {
        let w = v.drop_first();
        lemma_listener_in(w, a);
        if listener_at(w, a) is Some {
            let i = choose|i: int| 0 <= i < w.len() && #[trigger] w[i] == listener_at(w, a)->0;
            assert(v[i + 1] == w[i]);
        } else {
            assert forall|i: int| 0 <= i < v.len() implies (#[trigger] v[i]).address != a by {
                if i > 0 {
                    assert(w[i - 1] == v[i]);
                }
            }
        }
    }
}

proof fn lemma_insert_keeps(v: Seq<Listener>, l: Listener)
    requires
        in_order(v),
        listener_at(v, l.address) is None,
    ensures
        in_order(inserted(v, l)),
        listener_at(inserted(v, l), l.address) == Some(l),
        forall|a: Socket|
            a != l.address ==> #[trigger] listener_at(inserted(v, l), a) == listener_at(v, a),
    decreases v.len(),
{
    lemma_listener_in(v, l.address);
    let n = inserted(v, l);
    if v.len() == 0 || crate::backend::before(l.address, v[0].address) {
        assert(n.drop_first() =~= v);
        assert forall|i: int, j: int| 0 <= i < j < n.len() implies crate::backend::before(
            (#[trigger] n[i]).address,
            (#[trigger] n[j]).address,
        ) by {
            if i == 0 {
                if j > 1 {
                    assert(crate::backend::before(v[0].address, v[j - 1].address));
                }
            } else {
                assert(crate::backend::before(v[i - 1].address, v[j - 1].address));
            }
        }
    } else {
        let w = v.drop_first();
        assert forall|i: int, j: int| 0 <= i < j < w.len() implies crate::backend::before(
            (#[trigger] w[i]).address,
            (#[trigger] w[j]).address,
        ) by {
            assert(crate::backend::before(v[i + 1].address, v[j + 1].address));
        }
        lemma_insert_keeps(w, l);
        let m = inserted(w, l);
        assert(n.drop_first() =~= m);
        assert(v[0].address != l.address);
        assert(crate::backend::before(v[0].address, l.address));
        assert forall|i: int, j: int| 0 <= i < j < n.len() implies crate::backend::before(
            (#[trigger] n[i]).address,
            (#[trigger] n[j]).address,
        ) by {
            if i > 0 {
                assert(crate::backend::before(m[i - 1].address, m[j - 1].address));
            } else {
                lemma_inserted_from(w, l, j - 1);
                if m[j - 1] != l {
                    let k = choose|k: int| 0 <= k < w.len() && #[trigger] w[k] == m[j - 1];
                    assert(crate::backend::before(v[0].address, v[k + 1].address));
                }
            }
        }
        assert forall|a: Socket| a != l.address implies #[trigger] listener_at(n, a)
            == listener_at(v, a) by {
            assert(listener_at(m, a) == listener_at(w, a));
        }
    }
}

proof fn lemma_inserted_from(v: Seq<Listener>, l: Listener, j: int)
    requires
        0 <= j < inserted(v, l).len(),
    ensures
        inserted(v, l)[j] == l || exists|k: int|
            0 <= k < v.len() && #[trigger] v[k] == inserted(v, l)[j],
    decreases v.len(),
{
    let n = inserted(v, l);
    if v.len() == 0 || crate::backend::before(l.address, v[0].address) {
        if j > 0 {
            assert(v[j - 1] == n[j]);
        }
    } else if j == 0 {
        assert(v[0] == n[0]);
    } else {
        lemma_inserted_from(v.drop_first(), l, j - 1);
        assert(n[j] == inserted(v.drop_first(), l)[j - 1]);
        if n[j] != l {
            let k = choose|k: int|
                0 <= k < v.drop_first().len() && #[trigger] v.drop_first()[k] == n[j];
            assert(v[k + 1] == n[j]);
        }
    }
}

#[verifier::rlimit(60)]
#[verifier::spinoff_prover]
proof fn lemma_listened_keeps(w: Whole, server: int, http2: bool, certified: bool, l: Listen)
    requires
        consistent(w),
        0 <= server < w.servers.len(),
        w.servers.len() <= usize::MAX,
    ensures
        listened(w, server, http2, certified, l) is Ok ==> {
            let x = listened(w, server, http2, certified, l)->Ok_0;
            consistent(x) && x.servers == w.servers
        },
{
    let r = listened(w, server, http2, certified, l);
    if r is Ok {
        let x = r->Ok_0;
        let a = l.address;
        let listener = Listener { address: a, tls: l.tls, http2 };
        lemma_listener_in(w.listeners, a);
        if listener_at(w.listeners, a) is None {
            lemma_insert_keeps(w.listeners, listener);
        }
        let hosts = if l.default {
            undefaulted(w.hosts, a)
        } else {
            w.hosts
        };
        let n = w.hosts.len();
        let last = x.hosts[n as int];
        assert forall|i: int| 0 <= i < x.hosts.len() implies {
            &&& (#[trigger] x.hosts[i]).server < x.servers.len()
            &&& listener_at(x.listeners, x.hosts[i].listener) is Some
            &&& listener_at(x.listeners, x.hosts[i].listener)->0.tls == x.hosts[i].tls
        } by {
            if i < n {
                let h = w.hosts[i];
                assert(x.hosts[i].server == h.server && x.hosts[i].listener == h.listener
                    && x.hosts[i].tls == h.tls);
            }
        }
        assert forall|i: int| 0 <= i < x.hosts.len() implies exists|j: int|
            0 <= j < x.hosts.len() && (#[trigger] x.hosts[j]).default && x.hosts[j].listener == (
            #[trigger] x.hosts[i]).listener by {
            if x.hosts[i].listener == a {
                if last.default {
                    assert(x.hosts[n as int].default);
                } else {
                    let k = choose|k: int| 0 <= k < n && (#[trigger] w.hosts[k]).listener == a;
                    let j = choose|j: int|
                        0 <= j < n && (#[trigger] w.hosts[j]).default && w.hosts[j].listener
                            == w.hosts[k].listener;
                    assert(x.hosts[j] == w.hosts[j]);
                    assert(x.hosts[j].default);
                }
            } else {
                assert(i < n);
                assert(x.hosts[i] == w.hosts[i]);
                let j = choose|j: int|
                    0 <= j < n && (#[trigger] w.hosts[j]).default && w.hosts[j].listener
                        == w.hosts[i].listener;
                assert(x.hosts[j] == w.hosts[j]);
                assert(x.hosts[j].default);
            }
        }
        assert forall|i: int, j: int|
            0 <= i < j < x.hosts.len() && (#[trigger] x.hosts[i]).default && (
            #[trigger] x.hosts[j]).default implies x.hosts[i].listener != x.hosts[j].listener by {
            if j < n {
                assert(x.hosts[i] == w.hosts[i]);
                assert(x.hosts[j] == w.hosts[j]);
            } else {
                if x.hosts[i].listener == a {
                    assert(w.hosts[i].listener == a);
                    assert(host_at(w.hosts, a));
                    assert(false);
                }
            }
        }
    }
}

proof fn lemma_all_listened_keeps(
    w: Whole,
    server: int,
    http2: bool,
    certified: bool,
    v: Seq<Listen>,
)
    requires
        consistent(w),
        0 <= server < w.servers.len(),
        w.servers.len() <= usize::MAX,
    ensures
        all_listened(w, server, http2, certified, v) is Ok ==> {
            let x = all_listened(w, server, http2, certified, v)->Ok_0;
            consistent(x) && x.servers == w.servers
        },
    decreases v.len(),
{
    if v.len() > 0 {
        lemma_all_listened_keeps(w, server, http2, certified, v.drop_last());
        let r = all_listened(w, server, http2, certified, v.drop_last());
        if r is Ok {
            lemma_listened_keeps(r->Ok_0, server, http2, certified, v.last());
        }
    }
}

proof fn lemma_served_keeps(w: Whole, n: Node, scope: State, base: Seq<char>)
    requires
        consistent(w),
        w.servers.len() < usize::MAX,
    ensures
        served(w, n, scope, base) is Ok ==> consistent(served(w, n, scope, base)->Ok_0) && served(
            w,
            n,
            scope,
            base,
        )->Ok_0.servers.len() == w.servers.len() + 1,
{
    if served(w, n, scope, base) is Ok {
        let v = n.children->0;
        let front = Front {
            scope: fresh_headers(scope, v),
            names: Seq::empty(),
            listens: Seq::empty(),
        };
        let f = all_fronted(front, v, base)->Ok_0;
        let t = server_routes(w.goals, v, n.source, w.servers.len(), f.scope, base)->Ok_0;
        let certificate = certificate_of(f.scope)->Ok_0;
        let names = if f.names.len() == 0 {
            seq![Seq::<char>::empty()]
        } else {
            f.names
        };
        let listens = if f.listens.len() == 0 {
            seq![Listen { address: any_v4(80), tls: false, default: false }]
        } else {
            f.listens
        };
        let next = Whole {
            servers: w.servers.push(Site { names, routes: t.routes, certificate }),
            goals: t.goals,
            ..w
        };
        assert(consistent(next)) by {
            assert forall|i: int| 0 <= i < next.hosts.len() implies {
                &&& (#[trigger] next.hosts[i]).server < next.servers.len()
                &&& listener_at(next.listeners, next.hosts[i].listener) is Some
                &&& listener_at(next.listeners, next.hosts[i].listener)->0.tls
                    == next.hosts[i].tls
            } by {
                assert(w.hosts[i] == next.hosts[i]);
            }
        }
        lemma_all_listened_keeps(
            next,
            w.servers.len() as int,
            f.scope.http2,
            certificate is Some,
            listens,
        );
    }
}

proof fn lemma_all_served_keeps(w: Whole, v: Seq<Node>, scope: State, base: Seq<char>)
    requires
        consistent(w),
        w.servers.len() + v.len() < usize::MAX,
    ensures
        all_served(w, v, scope, base) is Ok ==> consistent(all_served(w, v, scope, base)->Ok_0)
            && all_served(w, v, scope, base)->Ok_0.servers.len() <= w.servers.len() + v.len(),
    decreases v.len(),
{
    if v.len() > 0 {
        lemma_all_served_keeps(w, v.drop_last(), scope, base);
        let r = all_served(w, v.drop_last(), scope, base);
        if r is Ok && v.last().name == "server"@ {
            lemma_served_keeps(r->Ok_0, v.last(), scope, base);
        }
    }
}

proof fn lemma_grouped_hosts(w: Whole, v: Seq<Node>)
    ensures
        grouped(w, v) is Ok ==> {
            let x = grouped(w, v)->Ok_0;
            x.hosts == w.hosts && x.listeners == w.listeners && x.servers == w.servers
        },
    decreases v.len(),
{
    if v.len() > 0 {
        lemma_grouped_hosts(w, v.drop_last());
    }
}

/// In every configuration that is accepted each address has one listener and one default server, and each
/// host a server and a listener of its kind.
pub proof fn law_accepted_configurations_are_consistent(v: Seq<Node>, base: Seq<char>)
    requires
        http_of(v) is Ok && http_of(v)->Ok_0 is Some ==> http_of(v)->Ok_0->0.len() < usize::MAX,
    ensures
        loaded(v, base) is Ok ==> consistent(loaded(v, base)->Ok_0),
{
    if loaded(v, base) is Ok {
        let http = http_of(v)->Ok_0->0;
        let start = State {
            settings: Values {
                root: path::joined(base, "html"@),
                ..crate::config::settings::default_values()
            },
            action: None,
            script: None,
            cert: None,
            key: None,
            http2: false,
            error_log: None,
        };
        let scope = http_scope(start, http, base)->Ok_0;
        let empty = Whole {
            servers: Seq::empty(),
            hosts: Seq::empty(),
            listeners: Seq::empty(),
            defaults: Seq::empty(),
            goals: Seq::empty(),
            upstreams: Seq::empty(),
            error_log: scope.error_log,
        };
        lemma_grouped_hosts(empty, http);
        let w = grouped(empty, http)->Ok_0;
        assert(consistent(w));
        lemma_all_served_keeps(w, http, scope, base);
    }
}

/// A location is met by what begins with its path, or with `=` by its path alone; other forms are refused.
pub proof fn law_locations_are_met(n: Node, p: Seq<char>)
    requires
        path::absolute(p),
    ensures
        n.args == seq![p] ==> location_of(n) == Ok::<Matcher, LoadProblem>(Matcher::NginxPrefix(p)),
        n.args == seq!["="@, p] ==> location_of(n) == Ok::<Matcher, LoadProblem>(Matcher::Exact(p)),
        n.args.len() == 0 || n.args.len() > 2 ==> location_of(n) is Err,
{
    assert(seq![p][0] == p);
    assert(seq!["="@, p][0] == "="@);
    assert(seq!["="@, p][1] == p);
}

/// A server listens at the port on all addresses, or at the address, with or without TLS.
pub proof fn law_servers_listen_where_they_say(n: Node, port: u16, s: Seq<char>, a: Socket)
    requires
        n.children is None,
        text::decimal_upto(s, u16::MAX as nat) is None,
        net::parsed_socket(s) == Some(a),
        s != "ssl"@,
        s != "default_server"@,
    ensures
        n.args == seq![text::decimal(port as nat)] ==> listen_of(n) == Ok::<Listen, LoadProblem>(
            Listen { address: Socket { ip: Ip::V4(0), scope: 0, port }, tls: false, default: false },
        ),
        n.args == seq![text::decimal(port as nat), "ssl"@] ==> listen_of(n) == Ok::<Listen, LoadProblem>(
            Listen { address: Socket { ip: Ip::V4(0), scope: 0, port }, tls: true, default: false },
        ),
        n.args == seq![text::decimal(port as nat), "default_server"@] ==> listen_of(n) == Ok::<
            Listen,
            LoadProblem,
        >(Listen { address: Socket { ip: Ip::V4(0), scope: 0, port }, tls: false, default: true }),
        n.args == seq![s] ==> listen_of(n) == Ok::<Listen, LoadProblem>(
            Listen { address: a, tls: false, default: false },
        ),
        n.args.len() == 0 ==> listen_of(n) == Err::<Listen, LoadProblem>(LoadProblem::NoListenAddress),
{
    text::lemma_decimal_reads_back(port as nat);
    let d = text::decimal(port as nat);
    assert(text::spec_digit(d[0]));
    reveal_strlit("ssl");
    reveal_strlit("default_server");
    assert("ssl"@.len() != "default_server"@.len());
    assert("ssl"@[0] == 's');
    assert("default_server"@[0] == 'd');
    let one = seq![d];
    let two = seq![d, "ssl"@];
    let three = seq![d, "default_server"@];
    let four = seq![s];
    assert(one[0] == d);
    assert(two[0] == d);
    assert(two[1] == "ssl"@);
    assert(three[0] == d);
    assert(three[1] == "default_server"@);
    assert(four[0] == s);
    assert(!one.contains("ssl"@));
    assert(!one.contains("default_server"@));
    assert(two.contains("ssl"@));
    assert(!two.contains("default_server"@));
    assert(three.contains("default_server"@));
    assert(!three.contains("ssl"@));
    assert(!four.contains("ssl"@));
    assert(!four.contains("default_server"@));
}

/// The names of a server are taken in lower case and added to those before; a text that is no host is refused.
pub proof fn law_server_names_are_added(f: Front, n: Node, base: Seq<char>, h: Seq<char>)
    requires
        n.name == "server_name"@,
        n.children is None,
        n.args == seq![h],
    ensures
        value::host_accepted(h) ==> fronted(f, n, base) == Ok::<Front, LoadProblem>(
            Front { names: f.names.push(text::lowercase(h)), ..f },
        ),
        !value::host_accepted(h) ==> fronted(f, n, base) == Err::<Front, LoadProblem>(
            LoadProblem::Host(ValueError::UnsupportedHost),
        ),
{
    assert(seq![h].drop_last() =~= Seq::empty());
    assert(seq![h].last() == h);
    reveal_with_fuel(names_of, 2);
    assert(f.names + seq![text::lowercase(h)] =~= f.names.push(text::lowercase(h)));
    assert(Seq::<Seq<char>>::empty().push(text::lowercase(h)) =~= seq![text::lowercase(h)]);
}

/// A directive of a server that is no name, address or location sets what it sets.
pub proof fn law_server_directives_are_applied(f: Front, n: Node, base: Seq<char>, l: Listen, s: State)
    ensures
        n.name == "listen"@ && listen_of(n) == Ok::<Listen, LoadProblem>(l) ==> fronted(f, n, base) == Ok::<
            Front,
            LoadProblem,
        >(Front { listens: f.listens.push(l), ..f }),
        n.name == "location"@ ==> fronted(f, n, base) == Ok::<Front, LoadProblem>(f),
        n.name == "root"@ && applied(f.scope, n, base, Context::Server) == Ok::<State, Problem>(s) ==> fronted(
            f,
            n,
            base,
        ) == Ok::<Front, LoadProblem>(Front { scope: s, ..f }),
{
    reveal_strlit("listen");
    reveal_strlit("server_name");
    assert("listen"@.len() != "server_name"@.len());
    reveal_strlit("location");
    assert("listen"@.len() != "location"@.len());
    reveal_strlit("location");
    reveal_strlit("server_name");
    assert("location"@.len() != "server_name"@.len());
    reveal_strlit("root");
    reveal_strlit("server_name");
    assert("root"@.len() != "server_name"@.len());
    reveal_strlit("listen");
    assert("root"@.len() != "listen"@.len());
    reveal_strlit("location");
    assert("root"@.len() != "location"@.len());
}

/// The first server of an address is its default, until one says that it is; two may not say so.
pub proof fn law_the_first_server_is_the_default(w: Whole, server: usize, http2: bool, l: Listen, i: int)
    requires
        !l.tls,
        listener_at(w.listeners, l.address) is None || listener_at(w.listeners, l.address)->0 == (Listener {
            address: l.address,
            tls: l.tls,
            http2,
        }),
    ensures
        l.default && w.defaults.contains(l.address) ==> listened(w, server as int, http2, false, l) == Err::<
            Whole,
            LoadProblem,
        >(LoadProblem::DuplicateDefault),
        !l.default ==> {
            let x = listened(w, server as int, http2, false, l)->Ok_0;
            &&& listened(w, server as int, http2, false, l) is Ok
            &&& x.hosts.len() == w.hosts.len() + 1
            &&& x.hosts.last().server == server && x.hosts.last().listener == l.address
            &&& x.hosts.last().default <==> !host_at(w.hosts, l.address)
            &&& 0 <= i < w.hosts.len() ==> x.hosts[i] == w.hosts[i]
        },
        l.default && !w.defaults.contains(l.address) ==> {
            let x = listened(w, server as int, http2, false, l)->Ok_0;
            &&& listened(w, server as int, http2, false, l) is Ok
            &&& x.hosts.last().default
            &&& 0 <= i < w.hosts.len() && w.hosts[i].listener == l.address ==> !x.hosts[i].default
            &&& 0 <= i < w.hosts.len() && w.hosts[i].listener != l.address ==> x.hosts[i] == w.hosts[i]
            &&& x.defaults.contains(l.address)
        },
{
    if l.default && !w.defaults.contains(l.address) {
        assert(w.defaults.push(l.address).last() == l.address);
    }
}

/// A secure address needs a certificate, and servers that share an address agree on it.
pub proof fn law_secure_addresses_need_a_certificate(w: Whole, server: usize, http2: bool, l: Listen, k: Listener)
    requires
        !l.default,
    ensures
        l.tls && listener_at(w.listeners, l.address) is None ==> listened(w, server as int, http2, false, l)
            == Err::<Whole, LoadProblem>(LoadProblem::TlsWithoutCertificate),
        l.tls && listener_at(w.listeners, l.address) is None ==> listened(w, server as int, http2, true, l) is Ok,
        listener_at(w.listeners, l.address) == Some(k) && k.tls != l.tls ==> listened(
            w,
            server as int,
            http2,
            true,
            l,
        ) == Err::<Whole, LoadProblem>(LoadProblem::ConflictingListener),
        listener_at(w.listeners, l.address) == Some(k) && k.http2 != http2 ==> listened(
            w,
            server as int,
            http2,
            true,
            l,
        ) == Err::<Whole, LoadProblem>(LoadProblem::ConflictingListener),
{
}

/// A certificate goes with its key.
pub proof fn law_certificates_go_with_keys(s: State, c: Seq<char>, k: Seq<char>)
    ensures
        s.cert == Some(c) && s.key == Some(k) ==> certificate_of(s) == Ok::<
            Option<(Seq<char>, Seq<char>)>,
            LoadProblem,
        >(Some((c, k))),
        s.cert is None && s.key is None ==> certificate_of(s) == Ok::<
            Option<(Seq<char>, Seq<char>)>,
            LoadProblem,
        >(None),
        s.cert is Some && s.key is None ==> certificate_of(s) == Err::<
            Option<(Seq<char>, Seq<char>)>,
            LoadProblem,
        >(LoadProblem::CertificatePair),
        s.cert is None && s.key is Some ==> certificate_of(s) == Err::<
            Option<(Seq<char>, Seq<char>)>,
            LoadProblem,
        >(LoadProblem::CertificatePair),
{
}

/// A backend is known by its scheme and authority, and what follows is the address that requests are sent to.
pub proof fn law_addresses_are_split(authority: Seq<char>, path: Seq<char>)
    requires
        !authority.contains('/'),
    ensures
        address_path("http://"@ + authority + (seq!['/'] + path)) == Some(seq!['/'] + path),
        address_path("http://"@ + authority) is None,
        after_scheme("http://"@ + authority) == authority,
        after_scheme("https://"@ + authority) == authority,
{
    reveal_strlit("http://");
    reveal_strlit("https://");
    text::lemma_prefixed("http://"@, authority);
    text::lemma_prefixed("https://"@, authority);
    assert("https://"@[4] == 's');
    assert("http://"@[4] == ':');
    let a = authority + (seq!['/'] + path);
    let s = "http://"@ + authority + (seq!['/'] + path);
    assert(s =~= "http://"@ + a);
    text::lemma_prefixed("http://"@, a);
    assert forall|i: int| 0 <= i < authority.len() implies a[i] != '/' by {
        assert(authority.contains(a[i]));
    }
    text::lemma_position_is(a, '/', authority.len() as int);
    assert(a.skip(authority.len() as int) =~= seq!['/'] + path);
    assert forall|i: int| 0 <= i < authority.len() implies authority[i] != '/' by {
        assert(authority.contains(authority[i]));
    }
    text::lemma_position_is(authority, '/', authority.len() as int);
}

/// A backend of a group is reached as the group is; another at its host and port, by its authority.
pub proof fn law_backends_are_groups_or_hosts(v: Seq<Goal>, key: Seq<char>, p: Parts, h: Seq<char>, port: u16)
    requires
        p.host() == Some(h),
    ensures
        has_goal(v, h) ==> new_goal(v, key, p) == Ok::<Goal, LoadProblem>(
            Goal {
                key,
                tls: p.scheme == "https"@,
                hostname: h,
                host_header: h,
                source: v[goal_at(v, h)].source,
            },
        ),
        !has_goal(v, h) && p.known_port == Some(port) ==> new_goal(v, key, p) == Ok::<Goal, LoadProblem>(
            Goal {
                key,
                tls: p.scheme == "https"@,
                hostname: h,
                host_header: p.authority,
                source: Origin::Host(h, port),
            },
        ),
        !has_goal(v, h) && p.known_port is None ==> new_goal(v, key, p) == Err::<Goal, LoadProblem>(
            LoadProblem::NoPort,
        ),
{
}

/// A route has the settings of its location, does what that says, and serves files where it says nothing; a
/// location that returns is not proxied.
pub proof fn law_routes_have_the_settings_of_their_location(
    v: Seq<Goal>,
    id: Seq<char>,
    m: Matcher,
    s: State,
    status: u16,
    t: Seq<char>,
)
    ensures
        s.action is None ==> (built(v, id, m, s) matches Ok(x) && x.0.action == Deed::Static && x.1 == v),
        s.action == Some(Deed::Return { status, text: t }) ==> (built(v, id, m, s) matches Ok(x) && x.0.action
            == (Deed::Return { status, text: t })),
        built(v, id, m, s) matches Ok(x) ==> x.0.id == id && x.0.matcher == m && x.0.settings == s.settings
            && x.0.script == s.script,
{
}

/// A location may stand once, and its route is the last of its server's.
pub proof fn law_locations_stand_once(t: Trail, n: Node, server: nat, local: State, base: Seq<char>, m: Matcher)
    requires
        location_of(n) == Ok::<Matcher, LoadProblem>(m),
    ensures
        matched(t.routes, m) ==> located(t, n, server, local, base) == Err::<Trail, (Seq<char>, LoadProblem)>(
            (n.source, LoadProblem::DuplicateLocation),
        ),
        located(t, n, server, local, base) matches Ok(x) ==> x.routes.len() == t.routes.len() + 1
            && x.routes.last().matcher == m && x.routes.drop_last() == t.routes && x.routes.last().id
            == "server-"@ + text::decimal(server) + ":"@ + m.path(),
{
    if located(t, n, server, local, base) is Ok {
        let x = located(t, n, server, local, base)->Ok_0;
        assert(x.routes.drop_last() =~= t.routes);
    }
}

/// A server without a location for all paths has one, that does what the server says.
pub proof fn law_servers_have_a_route_for_all(
    goals: Seq<Goal>,
    v: Seq<Node>,
    source: Seq<char>,
    server: nat,
    local: State,
    base: Seq<char>,
)
    requires
        server_routes(goals, v, source, server, local, base) is Ok,
    ensures
        matched(server_routes(goals, v, source, server, local, base)->Ok_0.routes, Matcher::NginxPrefix("/"@)),
        local.action matches Some(Deed::Return { .. }) ==> server_routes(
            goals,
            v,
            source,
            server,
            local,
            base,
        )->Ok_0.routes.len() == 1 && server_routes(goals, v, source, server, local, base)->Ok_0.routes[0].action
            == local.action->0,
{
    let r = server_routes(goals, v, source, server, local, base)->Ok_0.routes;
    let root = Matcher::NginxPrefix("/"@);
    let t = all_located(Trail { routes: Seq::empty(), goals }, v, server, local, base)->Ok_0;
    if local.action matches Some(Deed::Return { .. }) {
        assert(r[0].matcher == root);
    } else if !matched(t.routes, root) {
        assert(r[r.len() - 1].matcher == root);
    }
}

/// A server without an address listens at port 80, and one without a name is for all.
pub proof fn law_servers_listen_at_the_usual_port(w: Whole, n: Node, scope: State, base: Seq<char>)
    requires
        n.args.len() == 0,
        n.children == Some(Seq::<Node>::empty()),
        served(w, n, scope, base) is Ok,
    ensures
        ({
            let x = served(w, n, scope, base)->Ok_0;
            &&& x.servers.len() == w.servers.len() + 1
            &&& x.servers.last().names == seq![Seq::<char>::empty()]
            &&& x.hosts.len() == w.hosts.len() + 1
            &&& x.hosts.last().listener == (Socket { ip: Ip::V4(0), scope: 0, port: 80 })
            &&& x.hosts.last().server == w.servers.len() as usize
            &&& !x.hosts.last().tls
        }),
{
    let l = Listen { address: any_v4(80), tls: false, default: false };
    assert(seq![l].drop_last() =~= Seq::empty());
    assert(seq![l].last() == l);
    reveal_with_fuel(all_listened, 2);
    reveal_with_fuel(all_fronted, 2);
}

/// A configuration has one block `http`; `events` is empty, and nothing else stands beside them.
pub proof fn law_configurations_have_one_http(v: Seq<Node>, n: Node, w: Seq<Node>)
    ensures
        http_of(v) == Ok::<Option<Seq<Node>>, (Seq<char>, LoadProblem)>(None) && n.name == "http"@ && n.args.len()
            == 0 && n.children == Some(w) ==> http_of(v.push(n)) == Ok::<
            Option<Seq<Node>>,
            (Seq<char>, LoadProblem),
        >(Some(w)),
        http_of(v) matches Ok(Some(_)) && n.name == "http"@ ==> http_of(v.push(n)) == Err::<
            Option<Seq<Node>>,
            (Seq<char>, LoadProblem),
        >((n.source, LoadProblem::DuplicateHttp)),
        http_of(v) is Ok && n.name == "events"@ && n.args.len() == 0 && n.children == Some(Seq::<Node>::empty())
            ==> http_of(v.push(n)) == http_of(v),
        http_of(v) is Ok && n.name == "user"@ ==> http_of(v.push(n)) == Err::<
            Option<Seq<Node>>,
            (Seq<char>, LoadProblem),
        >((n.source, LoadProblem::UnsupportedTopLevel)),
{
    assert(v.push(n).drop_last() =~= v);
    reveal_strlit("events");
    reveal_strlit("http");
    assert("events"@.len() != "http"@.len());
    reveal_strlit("user");
    assert("events"@.len() != "user"@.len());
    reveal_strlit("user");
    reveal_strlit("http");
    assert("user"@[0] != "http"@[0]);
}

/// A group of servers is a backend of its name, and may stand once.
pub proof fn law_groups_are_backends(w: Whole, v: Seq<Node>, n: Node, x: Whole, name: Seq<char>, servers: Seq<(Seq<char>, u32)>)
    requires
        grouped(w, v) == Ok::<Whole, (Seq<char>, LoadProblem)>(x),
        n.name == "upstream"@,
        group_of(n) == Ok::<
            (Seq<char>, Seq<(Seq<char>, u32)>),
            (Seq<char>, UpstreamError),
        >((name, servers)),
    ensures
        has_goal(x.goals, name) ==> grouped(w, v.push(n)) == Err::<Whole, (Seq<char>, LoadProblem)>(
            (n.source, LoadProblem::DuplicateUpstream),
        ),
        !has_goal(x.goals, name) ==> (grouped(w, v.push(n)) matches Ok(y) && y.upstreams == x.upstreams.push(
            (name, servers),
        ) && y.goals.len() == x.goals.len() + 1 && y.goals.last().key == name && y.goals.last().source
            == Origin::Group(name) && !y.goals.last().tls),
{
    assert(v.push(n).drop_last() =~= v);
}

} // verus!

//! Upstream blocks: the servers of a group and how requests are spread over them.
use crate::backend::{
    rules_checked, servers, Balance, Check, HealthCheck, Options, OptionsError, Origin, Rules, Server,
    Spread,
};
use crate::config::apply::Problem;
use crate::config::syntax::{lemma_node, nodes, Directive, Node};
use crate::config::value;
use crate::config::value::{duration_of, ValueError};
use crate::header;
use crate::text;
use crate::text::texts;
use crate::uri;
use crate::uri::{parsed_url, Parts, Url};
use vstd::prelude::*;

verus! {

pub const MAX_SERVERS: usize = 1024;

/// Why an upstream block was refused.
#[derive(Clone, Copy, Debug, PartialEq, Eq, Structural)]
pub enum UpstreamError {
    Directive(Problem),
    ServerArguments,
    OnlyWeight,
    NotANumber,
    InvalidWeight,
    ServerAddress,
    NoHost,
    TakesNoArguments,
    BalanceArguments,
    HashKey,
    InvalidHeaderName,
    CookieTooLong,
    HealthArguments,
    UnknownHealthOption,
    Value(ValueError),
    UnsupportedDirective,
    Options(OptionsError),
    ServerCount,
}

/// What has been read of a block so far.
#[verifier::ext_equal]
pub ghost struct Draft {
    pub origins: Seq<Server>,
    pub rules: Rules,
}

pub open spec fn empty_draft() -> Draft {
    Draft {
        origins: Seq::empty(),
        rules: Rules { balance: Spread::RoundRobin, max_inflight: 0, health: None },
    }
}

pub open spec fn bracket(c: char) -> bool {
    c == '[' || c == ']'
}

pub open spec fn unbracketed_front(s: Seq<char>) -> Seq<char>
    decreases s.len(),
{
    if s.len() > 0 && bracket(s[0]) {
        unbracketed_front(s.drop_first())
    } else {
        s
    }
}

/// A text without the brackets at its ends.
pub open spec fn unbracketed(s: Seq<char>) -> Seq<char>
{
    let t = unbracketed_front(s);
    unbracketed_back(t)
}

pub open spec fn unbracketed_back(s: Seq<char>) -> Seq<char>
    decreases s.len(),
{
    if s.len() > 0 && bracket(s.last()) {
        unbracketed_back(s.drop_last())
    } else {
        s
    }
}

fn trim_brackets(s: &str) -> (out: String)
    ensures
        out@ == unbracketed(s@),
{
    let v = text::chars(s);
    let mut a: usize = 0;
    let mut b: usize = v.len();
    assert(v@.subrange(0, v.len() as int) =~= s@);
    while a < b && (v[a] == '[' || v[a] == ']')
        invariant
            a <= b == v.len(),
            v@ == s@,
            unbracketed_front(v@.subrange(a as int, b as int)) == unbracketed_front(s@),
        decreases b - a,
    {
        assert(v@.subrange(a as int, b as int).drop_first() =~= v@.subrange(a + 1, b as int));
        a += 1;
    }
    while a < b && (v[b - 1] == '[' || v[b - 1] == ']')
        invariant
            a <= b <= v.len(),
            v@ == s@,
            unbracketed_back(v@.subrange(a as int, b as int)) == unbracketed(s@),
        decreases b,
    {
        assert(v@.subrange(a as int, b as int).drop_last() =~= v@.subrange(a as int, b - 1));
        b -= 1;
    }
    text::slice(&v, a, b)
}

/// The weight that a `server` line states.
pub open spec fn weight_of(n: Node) -> Result<u32, UpstreamError> {
    if n.args.len() < 2 {
        Ok(1)
    } else if !text::starts(n.args[1], "weight="@) {
        Err(UpstreamError::OnlyWeight)
    } else {
        match text::decimal_upto(n.args[1].skip("weight="@.len() as int), u32::MAX as nat) {
            None => Err(UpstreamError::NotANumber),
            Some(w) => if 1 <= w <= 65535 {
                Ok(w as u32)
            } else {
                Err(UpstreamError::InvalidWeight)
            },
        }
    }
}

/// The server that a line names, where its address reads as `parts` after `http://`.
pub open spec fn server_read(parts: Option<Parts>, weight: u32) -> Result<Server, UpstreamError> {
    match parts {
        None => Err(UpstreamError::ServerAddress),
        Some(p) => if p.path != "/"@ || p.query is Some || p.fragment is Some || p.username.len() > 0
            || p.password is Some {
            Err(UpstreamError::ServerAddress)
        } else {
            match (p.host_text, p.known_port) {
                (Some(h), Some(port)) => Ok(Server { host: unbracketed(h), port, weight }),
                _ => Err(UpstreamError::NoHost),
            }
        },
    }
}

/// The server that a line names, where its address was read as `url`.
pub fn read_server(url: &Option<Url>, weight: u32) -> (r: Result<Origin, UpstreamError>)
    ensures
        match r {
            Ok(o) => server_read(uri::url_view(*url), weight) == Ok::<Server, UpstreamError>(o@),
            Err(e) => server_read(uri::url_view(*url), weight) == Err::<Server, UpstreamError>(e),
        },
{
    match url {
        None => Err(UpstreamError::ServerAddress),
        Some(u) => {
            if !text::same(u.path.as_str(), "/") || u.query.is_some() || u.fragment.is_some()
                || !u.username.as_str().is_empty() || u.password.is_some() {
                return Err(UpstreamError::ServerAddress);
            }
            match (&u.host_text, u.known_port) {
                (Some(h), Some(port)) => Ok(
                    Origin { host: trim_brackets(h.as_str()), port, weight },
                ),
                _ => Err(UpstreamError::NoHost),
            }
        },
    }
}

/// How requests are spread; `keys` are the keys among the named ones that can be read.
pub open spec fn balance_of(args: Seq<Seq<char>>, keys: Seq<Seq<char>>) -> Result<Spread, UpstreamError> {
    if args.len() == 1 && args[0] == "round_robin"@ {
        Ok(Spread::RoundRobin)
    } else if args.len() == 1 && args[0] == "least_conn"@ {
        Ok(Spread::LeastConnections)
    } else if args.len() == 2 && args[0] == "hash"@ {
        if keys.contains(args[1]) {
            Ok(Spread::Hash(args[1]))
        } else {
            Err(UpstreamError::HashKey)
        }
    } else if args.len() == 2 && args[0] == "sticky"@ {
        if !header::valid_name(args[1]) {
            Err(UpstreamError::InvalidHeaderName)
        } else if text::byte_len(args[1]) > 64 {
            Err(UpstreamError::CookieTooLong)
        } else {
            Ok(Spread::Sticky(args[1]))
        }
    } else {
        Err(UpstreamError::BalanceArguments)
    }
}

fn read_balance(args: &Vec<String>, keys: &Vec<String>) -> (r: Result<Balance, UpstreamError>)
    ensures
        match r {
            Ok(b) => balance_of(texts(args@), texts(keys@)) == Ok::<Spread, UpstreamError>(b@),
            Err(e) => balance_of(texts(args@), texts(keys@)) == Err::<Spread, UpstreamError>(e),
        },
{
    proof {
        assert(texts(args@).len() == args@.len());
        assert forall|i: int| 0 <= i < args@.len() implies texts(args@)[i]
            == #[trigger] args@[i]@ by {}
    }
    if args.len() == 1 && text::same(args[0].as_str(), "round_robin") {
        Ok(Balance::RoundRobin)
    } else if args.len() == 1 && text::same(args[0].as_str(), "least_conn") {
        Ok(Balance::LeastConnections)
    } else if args.len() == 2 && text::same(args[0].as_str(), "hash") {
        if text::contains(keys, args[1].as_str()) {
            Ok(Balance::Hash(args[1].clone()))
        } else {
            Err(UpstreamError::HashKey)
        }
    } else if args.len() == 2 && text::same(args[0].as_str(), "sticky") {
        if header::name(args[1].as_str()).is_none() {
            Err(UpstreamError::InvalidHeaderName)
        } else if text::len(args[1].as_str()) > 64 {
            Err(UpstreamError::CookieTooLong)
        } else {
            Ok(Balance::Sticky(args[1].clone()))
        }
    } else {
        Err(UpstreamError::BalanceArguments)
    }
}

/// A check with one more option.
pub open spec fn health_option(c: Check, s: Seq<char>) -> Result<Check, UpstreamError> {
    if text::starts(s, "interval="@) {
        match duration_of(s.skip("interval="@.len() as int)) {
            Ok(x) => Ok(Check { interval: x, ..c }),
            Err(e) => Err(UpstreamError::Value(e)),
        }
    } else if text::starts(s, "timeout="@) {
        match duration_of(s.skip("timeout="@.len() as int)) {
            Ok(x) => Ok(Check { timeout: x, ..c }),
            Err(e) => Err(UpstreamError::Value(e)),
        }
    } else if text::starts(s, "status="@) {
        match text::decimal_upto(s.skip("status="@.len() as int), u16::MAX as nat) {
            Some(x) => Ok(Check { status: x as u16, ..c }),
            None => Err(UpstreamError::NotANumber),
        }
    } else {
        Err(UpstreamError::UnknownHealthOption)
    }
}

/// The check that a path and options describe.
pub open spec fn health_of(args: Seq<Seq<char>>) -> Result<Check, UpstreamError>
    decreases args.len(),
{
    if args.len() <= 1 {
        Ok(Check { path: args[0], interval: 10000, timeout: 1000, status: 200 })
    } else {
        match health_of(args.drop_last()) {
            Err(e) => Err(e),
            Ok(c) => health_option(c, args.last()),
        }
    }
}

proof fn lemma_health_error(args: Seq<Seq<char>>, n: int)
    requires
        1 <= n <= args.len(),
        health_of(args.take(n)) is Err,
    ensures
        health_of(args) == health_of(args.take(n)),
    decreases args.len(),
{
    if n == args.len() {
        assert(args.take(n) =~= args);
    } else {
        assert(args.drop_last().take(n) =~= args.take(n));
        lemma_health_error(args.drop_last(), n);
    }
}

fn read_option(c: &mut HealthCheck, s: &str) -> (r: Result<(), UpstreamError>)
    ensures
        match r {
            Ok(()) => health_option(old(c)@, s@) == Ok::<Check, UpstreamError>(final(c)@),
            Err(e) => health_option(old(c)@, s@) == Err::<Check, UpstreamError>(e),
        },
{
    if let Some(v) = text::strip_prefix(s, "interval=") {
        match value::duration(v) {
            Ok(x) => {
                c.interval = x;
                Ok(())
            },
            Err(e) => Err(UpstreamError::Value(e)),
        }
    } else if let Some(v) = text::strip_prefix(s, "timeout=") {
        match value::duration(v) {
            Ok(x) => {
                c.timeout = x;
                Ok(())
            },
            Err(e) => Err(UpstreamError::Value(e)),
        }
    } else if let Some(v) = text::strip_prefix(s, "status=") {
        match text::parse_u16(v) {
            Some(x) => {
                c.status = x;
                Ok(())
            },
            None => Err(UpstreamError::NotANumber),
        }
    } else {
        Err(UpstreamError::UnknownHealthOption)
    }
}

fn read_health(args: &Vec<String>) -> (r: Result<HealthCheck, UpstreamError>)
    requires
        args@.len() >= 1,
    ensures
        match r {
            Ok(h) => health_of(texts(args@)) == Ok::<Check, UpstreamError>(h@),
            Err(e) => health_of(texts(args@)) == Err::<Check, UpstreamError>(e),
        },
{
    let ghost all = texts(args@);
    let mut check = HealthCheck {
        path: args[0].clone(),
        interval: 10000,
        timeout: 1000,
        status: 200,
    };
    let mut i: usize = 1;
    assert(all.take(1)[0] == args@[0]@);
    while i < args.len()
        invariant
            1 <= i <= args.len(),
            all == texts(args@),
            health_of(all.take(i as int)) == Ok::<Check, UpstreamError>(check@),
        decreases args.len() - i,
    {
        proof {
            assert(all.take(i + 1).drop_last() =~= all.take(i as int));
            assert(all.take(i + 1).last() == args@[i as int]@);
        }
        if let Err(e) = read_option(&mut check, args[i].as_str()) {
            proof {
                lemma_health_error(all, i + 1);
            }
            return Err(e);
        }
        i += 1;
    }
    assert(all.take(i as int) =~= all);
    Ok(check)
}

/// The draft after one more line of the block.
pub open spec fn drafted(d: Draft, n: Node, keys: Seq<Seq<char>>) -> Result<Draft, UpstreamError> {
    if n.children is Some {
        Err(UpstreamError::Directive(Problem::TakesNoBlock))
    } else if n.name == "server"@ {
        if !(1 <= n.args.len() <= 2) {
            Err(UpstreamError::ServerArguments)
        } else {
            match weight_of(n) {
                Err(e) => Err(e),
                Ok(w) => match server_read(parsed_url("http://"@ + n.args[0]), w) {
                    Err(e) => Err(e),
                    Ok(s) => Ok(Draft { origins: d.origins.push(s), ..d }),
                },
            }
        }
    } else if n.name == "least_conn"@ || n.name == "ip_hash"@ {
        if n.args.len() > 0 {
            Err(UpstreamError::TakesNoArguments)
        } else {
            Ok(
                Draft {
                    rules: Rules {
                        balance: if n.name == "least_conn"@ {
                            Spread::LeastConnections
                        } else {
                            Spread::Hash("ip"@)
                        },
                        ..d.rules
                    },
                    ..d
                },
            )
        }
    } else if n.name == "rgnix_balance"@ {
        match balance_of(n.args, keys) {
            Err(e) => Err(e),
            Ok(b) => Ok(Draft { rules: Rules { balance: b, ..d.rules }, ..d }),
        }
    } else if n.name == "rgnix_max_inflight"@ {
        if n.args.len() != 1 {
            Err(UpstreamError::Directive(Problem::ExpectsOneArgument))
        } else {
            match text::decimal_upto(n.args[0], usize::MAX as nat) {
                None => Err(UpstreamError::NotANumber),
                Some(x) => Ok(Draft { rules: Rules { max_inflight: x as usize, ..d.rules }, ..d }),
            }
        }
    } else if n.name == "rgnix_health_check"@ {
        if !(1 <= n.args.len() <= 4) {
            Err(UpstreamError::HealthArguments)
        } else {
            match health_of(n.args) {
                Err(e) => Err(e),
                Ok(c) => Ok(Draft { rules: Rules { health: Some(c), ..d.rules }, ..d }),
            }
        }
    } else {
        Err(UpstreamError::UnsupportedDirective)
    }
}

/// The draft after some lines, or the first problem with the place of its line.
pub open spec fn all_drafted(v: Seq<Node>, keys: Seq<Seq<char>>) -> Result<Draft, (Seq<char>, UpstreamError)>
    decreases v.len(),
{
    if v.len() == 0 {
        Ok(empty_draft())
    } else {
        match all_drafted(v.drop_last(), keys) {
            Err(e) => Err(e),
            Ok(d) => match drafted(d, v.last(), keys) {
                Ok(x) => Ok(x),
                Err(e) => Err((v.last().source, e)),
            },
        }
    }
}

/// What an upstream block says.
pub open spec fn upstream_of(n: Node, keys: Seq<Seq<char>>) -> Result<(Seq<char>, Draft), (Seq<char>, UpstreamError)> {
    if n.args.len() != 1 {
        Err((n.source, UpstreamError::Directive(Problem::ExpectsOneArgument)))
    } else {
        match n.children {
            None => Err((n.source, UpstreamError::Directive(Problem::RequiresBlock))),
            Some(v) => match all_drafted(v, keys) {
                Err(e) => Err(e),
                Ok(d) => match rules_checked(d.rules) {
                    Err(e) => Err((n.source, UpstreamError::Options(e))),
                    Ok(()) => if d.origins.len() == 0 || d.origins.len() > MAX_SERVERS {
                        Err((n.source, UpstreamError::ServerCount))
                    } else {
                        Ok((n.args[0], d))
                    },
                },
            },
        }
    }
}

/// A group of servers under a name.
#[derive(Debug)]
pub struct Upstream {
    pub name: String,
    pub origins: Vec<Origin>,
    pub options: Options,
}

impl Upstream {
    pub open spec fn draft(&self) -> Draft {
        Draft { origins: servers(self.origins@), rules: self.options@ }
    }
}

/// The weight that a `server` line states.
pub fn read_weight(n: &Directive) -> (r: Result<u32, UpstreamError>)
    ensures
        r == weight_of(n.node()),
{
    proof {
        assert(n.node().args.len() == n.args@.len());
        assert forall|i: int| 0 <= i < n.args@.len() implies n.node().args[i]
            == #[trigger] n.args@[i]@ by {}
    }
    if n.args.len() < 2 {
        return Ok(1);
    }
    match text::strip_prefix(n.args[1].as_str(), "weight=") {
        None => Err(UpstreamError::OnlyWeight),
        Some(w) => match text::parse_u32(w) {
            None => Err(UpstreamError::NotANumber),
            Some(w) => if 1 <= w && w <= 65535 {
                Ok(w)
            } else {
                Err(UpstreamError::InvalidWeight)
            },
        },
    }
}

fn draft_line(u: &mut Upstream, n: &Directive, keys: &Vec<String>) -> (r: Result<(), UpstreamError>)
    ensures
        final(u).name == old(u).name,
        match r {
            Ok(()) => drafted(old(u).draft(), n.node(), texts(keys@)) == Ok::<Draft, UpstreamError>(
                final(u).draft(),
            ),
            Err(e) => drafted(old(u).draft(), n.node(), texts(keys@)) == Err::<Draft, UpstreamError>(e),
        },
{
    let name = n.name.as_str();
    proof {
        assert(n.node().args.len() == n.args@.len());
        assert forall|i: int| 0 <= i < n.args@.len() implies n.node().args[i]
            == #[trigger] n.args@[i]@ by {}
    }
    if n.children.is_some() {
        return Err(UpstreamError::Directive(Problem::TakesNoBlock));
    }
    if text::same(name, "server") {
        if n.args.len() < 1 || n.args.len() > 2 {
            return Err(UpstreamError::ServerArguments);
        }
        let weight = match read_weight(n) {
            Ok(w) => w,
            Err(e) => return Err(e),
        };
        let url = uri::parse(text::concat("http://", n.args[0].as_str()).as_str());
        match read_server(&url, weight) {
            Err(e) => return Err(e),
            Ok(o) => {
                let ghost x = o@;
                let ghost before = servers(u.origins@);
                u.origins.push(o);
                assert(servers(u.origins@) =~= before.push(x));
            },
        }
    } else if text::same(name, "least_conn") || text::same(name, "ip_hash") {
        if n.args.len() > 0 {
            return Err(UpstreamError::TakesNoArguments);
        }
        u.options.balance = if text::same(name, "least_conn") {
            Balance::LeastConnections
        } else {
            Balance::Hash("ip".to_owned())
        };
    } else if text::same(name, "rgnix_balance") {
        match read_balance(&n.args, keys) {
            Err(e) => return Err(e),
            Ok(b) => {
                u.options.balance = b;
            },
        }
    } else if text::same(name, "rgnix_max_inflight") {
        if n.args.len() != 1 {
            return Err(UpstreamError::Directive(Problem::ExpectsOneArgument));
        }
        match text::parse_usize(n.args[0].as_str()) {
            None => return Err(UpstreamError::NotANumber),
            Some(x) => {
                u.options.max_inflight = x;
            },
        }
    } else if text::same(name, "rgnix_health_check") {
        if n.args.len() < 1 || n.args.len() > 4 {
            return Err(UpstreamError::HealthArguments);
        }
        match read_health(&n.args) {
            Err(e) => return Err(e),
            Ok(h) => {
                u.options.health = Some(h);
            },
        }
    } else {
        return Err(UpstreamError::UnsupportedDirective);
    }
    Ok(())
}

proof fn lemma_draft_error(v: Seq<Node>, keys: Seq<Seq<char>>, n: int)
    requires
        0 <= n <= v.len(),
        all_drafted(v.take(n), keys) is Err,
    ensures
        all_drafted(v, keys) == all_drafted(v.take(n), keys),
    decreases v.len(),
{
    if n == v.len() {
        assert(v.take(n) =~= v);
    } else {
        assert(v.drop_last().take(n) =~= v.take(n));
        lemma_draft_error(v.drop_last(), keys, n);
    }
}

/// Reads an upstream block; a problem comes with the place of its line. The keys that requests are spread
/// by are read elsewhere: `keys` are those that can be read.
pub fn load(n: &Directive, keys: &Vec<String>) -> (r: Result<Upstream, (String, UpstreamError)>)
    ensures
        match r {
            Ok(u) => upstream_of(n.node(), texts(keys@)) == Ok::<(Seq<char>, Draft), (Seq<char>, UpstreamError)>(
                (u.name@, u.draft()),
            ),
            Err(e) => upstream_of(n.node(), texts(keys@)) == Err::<
                (Seq<char>, Draft),
                (Seq<char>, UpstreamError),
            >((e.0@, e.1)),
        },
{
    assert(n.node().args.len() == n.args@.len());
    if n.args.len() != 1 {
        return Err(
            (n.source.clone(), UpstreamError::Directive(Problem::ExpectsOneArgument)),
        );
    }
    assert(n.node().args[0] == n.args@[0]@);
    let block = match &n.children {
        Some(b) => b,
        None => return Err((n.source.clone(), UpstreamError::Directive(Problem::RequiresBlock))),
    };
    proof {
        lemma_node(*n);
    }
    let ghost all = nodes(block@);
    let mut u = Upstream {
        name: n.args[0].clone(),
        origins: Vec::new(),
        options: Options::default(),
    };
    assert(u.draft() =~= empty_draft());
    let mut i: usize = 0;
    while i < block.len()
        invariant
            i <= block.len(),
            all == nodes(block@),
            n.node().children == Some(all),
            n.node().args.len() == 1,
            u.name@ == n.node().args[0],
            all_drafted(all.take(i as int), texts(keys@)) == Ok::<Draft, (Seq<char>, UpstreamError)>(u.draft()),
        decreases block.len() - i,
    {
        proof {
            assert(all.take(i + 1).drop_last() =~= all.take(i as int));
            assert(all.take(i + 1).last() == block@[i as int].node());
        }
        if let Err(e) = draft_line(&mut u, &block[i], keys) {
            proof {
                lemma_draft_error(all, texts(keys@), i + 1);
            }
            return Err((block[i].source.clone(), e));
        }
        i += 1;
    }
    assert(all.take(i as int) =~= all);
    if let Err(e) = u.options.validate() {
        return Err((n.source.clone(), UpstreamError::Options(e)));
    }
    assert(u.draft().origins.len() == u.origins@.len());
    if u.origins.len() == 0 || u.origins.len() > MAX_SERVERS {
        return Err((n.source.clone(), UpstreamError::ServerCount));
    }
    Ok(u)
}

/// A server has the weight that it is given, 1 where it is given none; one of 0 or above 65535 is refused.
pub proof fn law_servers_have_their_weight(n: Node, w: u32)
    ensures
        n.args.len() == 1 ==> weight_of(n) == Ok::<u32, UpstreamError>(1),
        n.args.len() == 2 && n.args[1] == "weight="@ + text::decimal(w as nat) ==> {
            &&& 1 <= w <= 65535 ==> weight_of(n) == Ok::<u32, UpstreamError>(w)
            &&& w == 0 || w > 65535 ==> weight_of(n) == Err::<u32, UpstreamError>(
                UpstreamError::InvalidWeight,
            )
        },
        n.args.len() == 2 && !text::starts(n.args[1], "weight="@) ==> weight_of(n) == Err::<
            u32,
            UpstreamError,
        >(UpstreamError::OnlyWeight),
{
    text::lemma_decimal_reads_back(w as nat);
    text::lemma_prefixed("weight="@, text::decimal(w as nat));
}

/// A server is a host with a port, and nothing else.
pub proof fn law_servers_are_hosts_and_ports(p: Parts, weight: u32)
    ensures
        p.path == "/"@ && p.query is None && p.fragment is None && p.username.len() == 0 && p.password
            is None && p.host_text is Some && p.known_port is Some ==> (server_read(Some(p), weight)
            matches Ok(s) && s.port == p.known_port->0 && s.weight == weight && s.host == unbracketed(
            p.host_text->0,
        )),
        p.path != "/"@ || p.query is Some || p.fragment is Some || p.username.len() > 0 ==> server_read(
            Some(p),
            weight,
        ) is Err,
        p.host_text is None || p.known_port is None ==> server_read(Some(p), weight) is Err,
        server_read(None, weight) is Err,
{
}

/// A host without brackets is as it stands, and one in brackets is what stands between them.
pub proof fn law_brackets_are_taken_off(s: Seq<char>)
    requires
        s.len() > 0,
        !bracket(s[0]),
        !bracket(s.last()),
    ensures
        unbracketed(s) == s,
        unbracketed(seq!['['] + s + seq![']']) == s,
{
    let t = seq!['['] + s + seq![']'];
    assert(t.drop_first() =~= s + seq![']']);
    assert((s + seq![']'])[0] == s[0]);
    assert((s + seq![']']).drop_last() =~= s);
    reveal_with_fuel(unbracketed_front, 3);
    reveal_with_fuel(unbracketed_back, 3);
}

/// The names of the ways to balance.
pub proof fn law_balances_are_named(k: Seq<char>, keys: Seq<Seq<char>>)
    ensures
        balance_of(seq!["round_robin"@], keys) == Ok::<Spread, UpstreamError>(Spread::RoundRobin),
        balance_of(seq!["least_conn"@], keys) == Ok::<Spread, UpstreamError>(Spread::LeastConnections),
        keys.contains(k) ==> balance_of(seq!["hash"@, k], keys) == Ok::<Spread, UpstreamError>(
            Spread::Hash(k),
        ),
        !keys.contains(k) ==> balance_of(seq!["hash"@, k], keys) is Err,
        header::valid_name(k) && text::byte_len(k) <= 64 ==> balance_of(seq!["sticky"@, k], keys) == Ok::<
            Spread,
            UpstreamError,
        >(Spread::Sticky(k)),
        !header::valid_name(k) || text::byte_len(k) > 64 ==> balance_of(seq!["sticky"@, k], keys) is Err,
        balance_of(Seq::empty(), keys) is Err,
{
    reveal_strlit("round_robin");
    reveal_strlit("least_conn");
    assert("round_robin"@.len() != "least_conn"@.len());
    reveal_strlit("hash");
    reveal_strlit("sticky");
    assert("hash"@.len() != "sticky"@.len());
    assert(seq!["round_robin"@][0] == "round_robin"@);
    assert(seq!["least_conn"@][0] == "least_conn"@);
    assert(seq!["hash"@, k][0] == "hash"@);
    assert(seq!["hash"@, k][1] == k);
    assert(seq!["sticky"@, k][0] == "sticky"@);
    assert(seq!["sticky"@, k][1] == k);
}

/// A check of health asks for its path, every ten seconds for one second, and for a status of 200, unless its
/// options say otherwise.
pub proof fn law_checks_are_as_configured(path: Seq<char>, c: Check, s: Seq<char>, ms: u64, status: u16)
    ensures
        health_of(seq![path]) == Ok::<Check, UpstreamError>(
            Check { path, interval: 10000, timeout: 1000, status: 200 },
        ),
        duration_of(s) == Ok::<u64, ValueError>(ms) ==> {
            &&& health_option(c, "interval="@ + s) == Ok::<Check, UpstreamError>(Check { interval: ms, ..c })
            &&& health_option(c, "timeout="@ + s) == Ok::<Check, UpstreamError>(Check { timeout: ms, ..c })
        },
        health_option(c, "status="@ + text::decimal(status as nat)) == Ok::<Check, UpstreamError>(
            Check { status, ..c },
        ),
{
    reveal_strlit("interval=");
    reveal_strlit("timeout=");
    reveal_strlit("status=");
    text::lemma_prefixed("interval="@, s);
    text::lemma_prefixed("timeout="@, s);
    text::lemma_prefixed("status="@, text::decimal(status as nat));
    text::lemma_decimal_reads_back(status as nat);
    assert("interval="@[0] == 'i');
    assert("timeout="@[0] == 't');
    assert("status="@[0] == 's');
}

/// Each directive of an upstream sets what it names, and nothing else.
pub proof fn law_upstream_directives_set_what_they_name(
    d: Draft,
    n: Node,
    keys: Seq<Seq<char>>,
    s: Server,
    x: usize,
)
    requires
        n.children is None,
    ensures
        n.name == "server"@ && 1 <= n.args.len() <= 2 && weight_of(n) is Ok && server_read(
            parsed_url("http://"@ + n.args[0]),
            weight_of(n)->Ok_0,
        ) == Ok::<Server, UpstreamError>(s) ==> drafted(d, n, keys) == Ok::<Draft, UpstreamError>(
            Draft { origins: d.origins.push(s), ..d },
        ),
        n.name == "least_conn"@ && n.args.len() == 0 ==> drafted(d, n, keys) == Ok::<Draft, UpstreamError>(
            Draft { rules: Rules { balance: Spread::LeastConnections, ..d.rules }, ..d },
        ),
        n.name == "ip_hash"@ && n.args.len() == 0 ==> drafted(d, n, keys) == Ok::<Draft, UpstreamError>(
            Draft { rules: Rules { balance: Spread::Hash("ip"@), ..d.rules }, ..d },
        ),
        n.name == "rgnix_max_inflight"@ && n.args == seq![text::decimal(x as nat)] ==> drafted(d, n, keys)
            == Ok::<Draft, UpstreamError>(Draft { rules: Rules { max_inflight: x, ..d.rules }, ..d }),
        n.name == "rgnix_balance"@ && balance_of(n.args, keys) is Ok ==> drafted(d, n, keys) == Ok::<
            Draft,
            UpstreamError,
        >(Draft { rules: Rules { balance: balance_of(n.args, keys)->Ok_0, ..d.rules }, ..d }),
        n.name == "rgnix_health_check"@ && 1 <= n.args.len() <= 4 && health_of(n.args) is Ok ==> drafted(
            d,
            n,
            keys,
        ) == Ok::<Draft, UpstreamError>(
            Draft { rules: Rules { health: Some(health_of(n.args)->Ok_0), ..d.rules }, ..d },
        ),
{
    reveal_strlit("least_conn");
    reveal_strlit("server");
    assert("least_conn"@.len() != "server"@.len());
    reveal_strlit("ip_hash");
    assert("least_conn"@.len() != "ip_hash"@.len());
    reveal_strlit("ip_hash");
    reveal_strlit("server");
    assert("ip_hash"@.len() != "server"@.len());
    reveal_strlit("rgnix_max_inflight");
    reveal_strlit("server");
    assert("rgnix_max_inflight"@.len() != "server"@.len());
    reveal_strlit("least_conn");
    assert("rgnix_max_inflight"@.len() != "least_conn"@.len());
    reveal_strlit("ip_hash");
    assert("rgnix_max_inflight"@.len() != "ip_hash"@.len());
    reveal_strlit("rgnix_balance");
    assert("rgnix_max_inflight"@.len() != "rgnix_balance"@.len());
    reveal_strlit("rgnix_balance");
    reveal_strlit("server");
    assert("rgnix_balance"@.len() != "server"@.len());
    reveal_strlit("least_conn");
    assert("rgnix_balance"@.len() != "least_conn"@.len());
    reveal_strlit("ip_hash");
    assert("rgnix_balance"@.len() != "ip_hash"@.len());
    reveal_strlit("rgnix_health_check");
    reveal_strlit("server");
    assert("rgnix_health_check"@.len() != "server"@.len());
    reveal_strlit("least_conn");
    assert("rgnix_health_check"@.len() != "least_conn"@.len());
    reveal_strlit("ip_hash");
    assert("rgnix_health_check"@.len() != "ip_hash"@.len());
    reveal_strlit("rgnix_balance");
    assert("rgnix_health_check"@.len() != "rgnix_balance"@.len());
    reveal_strlit("rgnix_max_inflight");
    assert("rgnix_health_check"@[6] != "rgnix_max_inflight"@[6]);
    text::lemma_decimal_reads_back(x as nat);
}

/// An upstream has the name that it is given and its servers in their order, and is refused without one or with
/// more than 1024 of them.
pub proof fn law_upstreams_have_servers(n: Node, keys: Seq<Seq<char>>)
    ensures
        upstream_of(n, keys) matches Ok(u) ==> u.0 == n.args[0] && 1 <= u.1.origins.len() <= 1024,
        n.args.len() != 1 ==> upstream_of(n, keys) is Err,
        n.children is None ==> upstream_of(n, keys) is Err,
        n.children == Some(Seq::<Node>::empty()) ==> upstream_of(n, keys) is Err,
{
}

} // verus!

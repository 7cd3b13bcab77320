//! What of a configuration can be taken over, and the configuration that comes out.
use crate::config::syntax::{lemma_node, nodes, Directive, Node};
use crate::diagnostics::preflight::{insert_id, inserted};
use crate::path;
use crate::text;
use crate::text::texts;
use vstd::prelude::*;

verus! {

// ---------------------------------------------------------------------------
// Directives
// ---------------------------------------------------------------------------

/// Directives of the process rather than of requests.
pub open spec fn of_process(name: Seq<char>) -> bool {
    ||| name == "user"@
    ||| name == "worker_processes"@
    ||| name == "worker_connections"@
    ||| name == "pid"@
    ||| name == "daemon"@
    ||| name == "master_process"@
    ||| name == "worker_rlimit_nofile"@
    ||| name == "multi_accept"@
    ||| name == "use"@
}

fn is_of_process(name: &str) -> (r: bool)
    ensures
        r == of_process(name@),
{
    text::same(name, "user") || text::same(name, "worker_processes") || text::same(
        name,
        "worker_connections",
    ) || text::same(name, "pid") || text::same(name, "daemon") || text::same(
        name,
        "master_process",
    ) || text::same(name, "worker_rlimit_nofile") || text::same(name, "multi_accept")
        || text::same(name, "use")
}

/// The directives that are known.
pub open spec fn known() -> Seq<Seq<char>> {
    text::words_of(
        "http server upstream events listen server_name location root alias try_files index types default_type proxy_http_version proxy_ssl_certificate proxy_ssl_certificate_key proxy_ssl_name proxy_ssl_trusted_certificate proxy_ssl_verify proxy_ssl_server_name proxy_pass return proxy_set_header add_header client_max_body_size rgnix_request_body rgnix_request_body_timeout proxy_connect_timeout proxy_read_timeout proxy_send_timeout keepalive_timeout ssl_certificate ssl_certificate_key http2 rgnix_script access_log rgnix_log_rotation error_log set_real_ip_from real_ip_header real_ip_recursive allow deny least_conn ip_hash rgnix_balance rgnix_max_inflight rgnix_health_check rgnix_limit_rate rgnix_limit_conn gzip gzip_types gzip_min_length gzip_comp_level brotli brotli_comp_level rgnix_auth_request rgnix_jwt ssl_client_certificate ssl_verify_client rgnix_log_query rgnix_log_client rgnix_log_referer rgnix_log_redact rgnix_log_fields"@,
    )
}

fn known_names() -> (v: Vec<String>)
    ensures
        texts(v@) == known(),
{
    text::split_whitespace(
        "http server upstream events listen server_name location root alias try_files index types default_type proxy_http_version proxy_ssl_certificate proxy_ssl_certificate_key proxy_ssl_name proxy_ssl_trusted_certificate proxy_ssl_verify proxy_ssl_server_name proxy_pass return proxy_set_header add_header client_max_body_size rgnix_request_body rgnix_request_body_timeout proxy_connect_timeout proxy_read_timeout proxy_send_timeout keepalive_timeout ssl_certificate ssl_certificate_key http2 rgnix_script access_log rgnix_log_rotation error_log set_real_ip_from real_ip_header real_ip_recursive allow deny least_conn ip_hash rgnix_balance rgnix_max_inflight rgnix_health_check rgnix_limit_rate rgnix_limit_conn gzip gzip_types gzip_min_length gzip_comp_level brotli brotli_comp_level rgnix_auth_request rgnix_jwt ssl_client_certificate ssl_verify_client rgnix_log_query rgnix_log_client rgnix_log_referer rgnix_log_redact rgnix_log_fields",
    )
}

/// Directives whose meaning has to be compared by requests.
pub open spec fn reviewed(name: Seq<char>) -> bool {
    ||| name == "proxy_pass"@
    ||| name == "proxy_set_header"@
    ||| name == "add_header"@
    ||| name == "location"@
    ||| name == "root"@
    ||| name == "try_files"@
}

fn is_reviewed(name: &str) -> (r: bool)
    ensures
        r == reviewed(name@),
{
    text::same(name, "proxy_pass") || text::same(name, "proxy_set_header") || text::same(
        name,
        "add_header",
    ) || text::same(name, "location") || text::same(name, "root") || text::same(name, "try_files")
}

/// Directives whose first argument is the path of a file.
pub open spec fn of_files(name: Seq<char>) -> bool {
    ||| name == "root"@
    ||| name == "alias"@
    ||| name == "ssl_certificate"@
    ||| name == "ssl_certificate_key"@
    ||| name == "rgnix_script"@
    ||| name == "proxy_ssl_certificate"@
    ||| name == "proxy_ssl_certificate_key"@
    ||| name == "proxy_ssl_trusted_certificate"@
    ||| name == "ssl_client_certificate"@
    ||| name == "access_log"@
    ||| name == "error_log"@
}

fn is_of_files(name: &str) -> (r: bool)
    ensures
        r == of_files(name@),
{
    text::same(name, "root") || text::same(name, "alias") || text::same(name, "ssl_certificate")
        || text::same(name, "ssl_certificate_key") || text::same(name, "rgnix_script")
        || text::same(name, "proxy_ssl_certificate") || text::same(
        name,
        "proxy_ssl_certificate_key",
    ) || text::same(name, "proxy_ssl_trusted_certificate") || text::same(
        name,
        "ssl_client_certificate",
    ) || text::same(name, "access_log") || text::same(name, "error_log")
}

/// A location by a regular expression, by a name, or inside another one.
pub open spec fn odd_location(n: Node, context: Seq<char>) -> bool {
    n.name == "location"@ && (context == "location"@ || (n.args.len() > 0 && (n.args[0] == "~"@
        || n.args[0] == "~*"@ || n.args[0] == "^~"@ || n.args[0] == "@"@)))
}

fn is_odd_location(d: &Directive, context: &str) -> (r: bool)
    ensures
        r == odd_location(d.node(), context@),
{
    if !text::same(d.name.as_str(), "location") {
        return false;
    }
    if text::same(context, "location") {
        return true;
    }
    if d.args.len() == 0 {
        return false;
    }
    let a = d.args[0].as_str();
    text::same(a, "~") || text::same(a, "~*") || text::same(a, "^~") || text::same(a, "@")
}

/// What was noticed about a directive.
#[derive(Clone, Copy, Debug, PartialEq, Eq, Structural)]
pub enum Concern {
    /// The process is set up elsewhere; whether that was accepted.
    Process(bool),
    /// The directive is not known.
    Unknown,
    /// The location cannot be taken over.
    Location,
    /// The meaning has to be compared by requests.
    Review,
}

impl Concern {
    pub open spec fn spec_blocks(self) -> bool {
        self == Concern::Process(false) || self is Unknown || self is Location
    }

    /// Whether it has to be settled by hand.
    pub fn blocks(&self) -> (r: bool)
        ensures
            r == self.spec_blocks(),
    {
        match self {
            Concern::Process(accepted) => !*accepted,
            Concern::Unknown => true,
            Concern::Location => true,
            Concern::Review => false,
        }
    }
}

#[derive(Debug)]
pub struct Finding {
    pub source: String,
    pub directive: String,
    pub concern: Concern,
}

/// What a `Finding` holds.
#[verifier::ext_equal]
pub ghost struct Hint {
    pub source: Seq<char>,
    pub directive: Seq<char>,
    pub concern: Concern,
}

impl View for Finding {
    type V = Hint;

    open spec fn view(&self) -> Hint {
        Hint { source: self.source@, directive: self.directive@, concern: self.concern }
    }
}

pub open spec fn hints(v: Seq<Finding>) -> Seq<Hint> {
    Seq::new(v.len(), |i: int| v[i]@)
}

// ---------------------------------------------------------------------------
// The walk
// ---------------------------------------------------------------------------

/// The first argument with the path made whole, where it is one.
pub open spec fn placed_args(n: Node, base: Seq<char>) -> Seq<Seq<char>> {
    if of_files(n.name) && n.args.len() > 0 && n.args[0] != "off"@ && n.args[0] != "stderr"@
        && !n.args[0].contains('$') {
        n.args.update(0, path::joined(base, n.args[0]))
    } else {
        n.args
    }
}

/// An argument that names a file of keys, with the path made whole.
pub open spec fn placed_key(arg: Seq<char>, base: Seq<char>) -> Seq<char> {
    let k = "jwks="@.len() as int;
    if text::starts(arg, "jwks="@) && !text::starts(arg.skip(k), "https://"@) {
        "jwks="@ + path::joined(base, arg.skip(k))
    } else {
        arg
    }
}

/// The arguments with the paths made whole.
pub open spec fn final_args(n: Node, base: Seq<char>) -> Seq<Seq<char>> {
    let v = placed_args(n, base);
    if n.name == "rgnix_jwt"@ {
        Seq::new(v.len(), |i: int| placed_key(v[i], base))
    } else {
        v
    }
}

/// What is noticed about a directive itself.
pub open spec fn noticed(n: Node, context: Seq<char>) -> Seq<Hint> {
    let hint = |c: Concern| Hint { source: n.source, directive: n.name, concern: c };
    let a = if context != "types"@ && !known().contains(n.name) {
        seq![hint(Concern::Unknown)]
    } else {
        Seq::empty()
    };
    let b = if odd_location(n, context) {
        a.push(hint(Concern::Location))
    } else {
        a
    };
    if reviewed(n.name) {
        b.push(hint(Concern::Review))
    } else {
        b
    }
}

/// What comes of a walk through directives.
#[verifier::ext_equal]
pub ghost struct Walk {
    pub nodes: Seq<Node>,
    /// The names of the directives that were met, in order.
    pub met: Seq<Seq<char>>,
    pub findings: Seq<Hint>,
}

pub open spec fn both(a: Walk, b: Walk) -> Walk {
    Walk { nodes: a.nodes + b.nodes, met: a.met + b.met, findings: a.findings + b.findings }
}

/// What comes of one directive, and of those in its block.
pub open spec fn walked_one(n: Node, context: Seq<char>, accept: bool, base: Seq<char>) -> Walk
    decreases n, 0nat,
{
    if of_process(n.name) && (context == "main"@ || context == "events"@) {
        Walk {
            nodes: if accept {
                Seq::empty()
            } else {
                seq![n]
            },
            met: seq![n.name],
            findings: seq![
                Hint {
                    source: n.source,
                    directive: n.name,
                    concern: Concern::Process(accept),
                },
            ],
        }
    } else {
        match n.children {
            None => Walk {
                nodes: seq![Node { args: final_args(n, base), ..n }],
                met: seq![n.name],
                findings: noticed(n, context),
            },
            Some(inner) => {
                let w = walked(inner, n.name, accept, base);
                Walk {
                    nodes: seq![
                        Node { args: final_args(n, base), children: Some(w.nodes), ..n },
                    ],
                    met: seq![n.name] + w.met,
                    findings: noticed(n, context) + w.findings,
                }
            },
        }
    }
}

/// What comes of directives.
pub open spec fn walked(v: Seq<Node>, context: Seq<char>, accept: bool, base: Seq<char>) -> Walk
    decreases v, 1nat,
{
    if v.len() == 0 {
        Walk { nodes: Seq::empty(), met: Seq::empty(), findings: Seq::empty() }
    } else {
        both(
            walked_one(v[0], context, accept, base),
            walked(v.drop_first(), context, accept, base),
        )
    }
}

fn place_args(d: &Directive, base: &str) -> (out: Vec<String>)
    ensures
        texts(out@) == placed_args(d.node(), base@),
{
    let mut out = text::copy_all(&d.args);
    if is_of_files(d.name.as_str()) && out.len() > 0 {
        let first = &d.args[0];
        if !text::same(first.as_str(), "off") && !text::same(first.as_str(), "stderr")
            && !text::has_char(first.as_str(), '$') {
            let ghost before = texts(out@);
            let p = path::join(base, first.as_str());
            let ghost x = p@;
            out.set(0, p);
            assert(texts(out@) =~= before.update(0, x));
        }
    }
    out
}

fn place_key(arg: &str, base: &str) -> (out: String)
    ensures
        out@ == placed_key(arg@, base@),
{
    match text::strip_prefix(arg, "jwks=") {
        Some(p) => if text::starts_with(p, "https://") {
            arg.to_owned()
        } else {
            text::concat("jwks=", path::join(base, p).as_str())
        },
        None => arg.to_owned(),
    }
}

fn finish_args(d: &Directive, base: &str) -> (out: Vec<String>)
    ensures
        texts(out@) == final_args(d.node(), base@),
{
    let v = place_args(d, base);
    if !text::same(d.name.as_str(), "rgnix_jwt") {
        return v;
    }
    let ghost all = texts(v@);
    let mut out: Vec<String> = Vec::new();
    let mut i: usize = 0;
    while i < v.len()
        invariant
            i <= v.len(),
            all == texts(v@),
            texts(out@) == Seq::new(i as nat, |j: int| placed_key(all[j], base@)),
        decreases v.len() - i,
    {
        let ghost before = texts(out@);
        let a = place_key(v[i].as_str(), base);
        let ghost x = a@;
        out.push(a);
        proof {
            assert(texts(out@) =~= before.push(x));
            assert(before.push(x) =~= Seq::new(
                (i + 1) as nat,
                |j: int| placed_key(all[j], base@),
            ));
        }
        i += 1;
    }
    assert(texts(out@) =~= final_args(d.node(), base@));
    out
}

fn add(v: &mut Vec<Finding>, d: &Directive, concern: Concern)
    ensures
        hints(final(v)@) == hints(old(v)@).push(
            Hint { source: d.source@, directive: d.name@, concern },
        ),
{
    let ghost before = hints(v@);
    let f = Finding { source: d.source.clone(), directive: d.name.clone(), concern };
    let ghost x = f@;
    v.push(f);
    assert(hints(v@) =~= before.push(x));
}

fn notice(d: &Directive, context: &str, findings: &mut Vec<Finding>)
    ensures
        hints(final(findings)@) == hints(old(findings)@) + noticed(d.node(), context@),
{
    let ghost start = hints(findings@);
    let ghost n = d.node();
    if !text::same(context, "types") {
        let names = known_names();
        if !text::contains(&names, d.name.as_str()) {
            self::add(findings, d, Concern::Unknown);
        }
    }
    let ghost a = if context@ != "types"@ && !known().contains(n.name) {
        seq![Hint { source: n.source, directive: n.name, concern: Concern::Unknown }]
    } else {
        Seq::empty()
    };
    assert(hints(findings@) =~= start + a);
    if is_odd_location(d, context) {
        self::add(findings, d, Concern::Location);
    }
    let ghost b = if odd_location(n, context@) {
        a.push(Hint { source: n.source, directive: n.name, concern: Concern::Location })
    } else {
        a
    };
    assert(hints(findings@) =~= start + b);
    if is_reviewed(d.name.as_str()) {
        self::add(findings, d, Concern::Review);
    }
    assert(hints(findings@) =~= start + noticed(n, context@));
}

/// The directives that a walk keeps of one, with what was met and noticed added.
fn walk_one(
    d: &Directive,
    context: &str,
    accept: bool,
    base: &str,
    met: &mut Vec<String>,
    findings: &mut Vec<Finding>,
) -> (out: Option<Directive>)
    ensures
        ({
            let w = walked_one(d.node(), context@, accept, base@);
            &&& match out {
                Some(n) => w.nodes == seq![n.node()],
                None => w.nodes.len() == 0,
            }
            &&& texts(final(met)@) == texts(old(met)@) + w.met
            &&& hints(final(findings)@) == hints(old(findings)@) + w.findings
        }),
    decreases d.node(), 0nat,
{
    let ghost names = texts(met@);
    let ghost found = hints(findings@);
    met.push(d.name.clone());
    assert(texts(met@) =~= names + seq![d.name@]);
    if is_of_process(d.name.as_str()) && (text::same(context, "main") || text::same(
        context,
        "events",
    )) {
        self::add(findings, d, Concern::Process(accept));
        assert(hints(findings@) =~= found + seq![
            Hint { source: d.source@, directive: d.name@, concern: Concern::Process(accept) },
        ]);
        if accept {
            return None;
        }
        return Some(d.copy());
    }
    notice(d, context, findings);
    let args = finish_args(d, base);
    match &d.children {
        None => Some(
            Directive {
                name: d.name.clone(),
                args,
                children: None,
                source: d.source.clone(),
            },
        ),
        Some(inner) => {
            proof {
                lemma_node(*d);
                assert(decreases_to!(d.node() => d.node().children->0));
            }
            let children = walk(inner, d.name.as_str(), accept, base, met, findings);
            let out = Directive {
                name: d.name.clone(),
                args,
                children: Some(children),
                source: d.source.clone(),
            };
            proof {
                lemma_node(out);
                let w = walked(nodes(inner@), d.name@, accept, base@);
                assert(texts(met@) =~= names + (seq![d.name@] + w.met));
                assert(hints(findings@) =~= found + (noticed(d.node(), context@) + w.findings));
            }
            Some(out)
        },
    }
}

/// The directives that a walk keeps, with what was met and noticed added.
pub fn walk(
    v: &Vec<Directive>,
    context: &str,
    accept: bool,
    base: &str,
    met: &mut Vec<String>,
    findings: &mut Vec<Finding>,
) -> (out: Vec<Directive>)
    ensures
        ({
            let w = walked(nodes(v@), context@, accept, base@);
            &&& nodes(out@) == w.nodes
            &&& texts(final(met)@) == texts(old(met)@) + w.met
            &&& hints(final(findings)@) == hints(old(findings)@) + w.findings
        }),
    decreases nodes(v@), 1nat,
{
    let ghost all = nodes(v@);
    let ghost whole = walked(all, context@, accept, base@);
    let ghost names = texts(met@);
    let ghost found = hints(findings@);
    let mut out: Vec<Directive> = Vec::new();
    let mut i: usize = 0;
    proof {
        assert(all.skip(0) =~= all);
        assert(nodes(out@) + whole.nodes =~= whole.nodes);
    }
    while i < v.len()
        invariant
            i <= v.len(),
            all == nodes(v@),
            whole == walked(all, context@, accept, base@),
            nodes(out@) + walked(all.skip(i as int), context@, accept, base@).nodes == whole.nodes,
            texts(met@) + walked(all.skip(i as int), context@, accept, base@).met == names
                + whole.met,
            hints(findings@) + walked(all.skip(i as int), context@, accept, base@).findings == found
                + whole.findings,
        decreases v.len() - i,
    {
        let ghost rest = all.skip(i as int);
        let ghost first = walked_one(v@[i as int].node(), context@, accept, base@);
        let ghost more = walked(all.skip(i + 1), context@, accept, base@);
        let ghost done = nodes(out@);
        let ghost m = texts(met@);
        let ghost f = hints(findings@);
        proof {
            assert(rest.drop_first() =~= all.skip(i + 1));
            assert(rest[0] == v@[i as int].node());
            assert(walked(rest, context@, accept, base@) == both(first, more));
            assert(decreases_to!(nodes(v@) => nodes(v@)[i as int]));
        }
        let kept = walk_one(&v[i], context, accept, base, met, findings);
        if let Some(n) = kept {
            let ghost x = n.node();
            out.push(n);
            assert(nodes(out@) =~= done.push(x));
        }
        proof {
            assert(nodes(out@) =~= done + first.nodes);
            assert(nodes(out@) + more.nodes =~= done + (first.nodes + more.nodes));
            assert(texts(met@) + more.met =~= m + (first.met + more.met));
            assert(hints(findings@) + more.findings =~= f + (first.findings + more.findings));
        }
        i += 1;
    }
    proof {
        let none = walked(all.skip(i as int), context@, accept, base@);
        assert(all.skip(i as int) =~= Seq::empty());
        assert(nodes(out@) + none.nodes =~= nodes(out@));
        assert(texts(met@) + none.met =~= texts(met@));
        assert(hints(findings@) + none.findings =~= hints(findings@));
    }
    out
}

// ---------------------------------------------------------------------------
// Writing
// ---------------------------------------------------------------------------

/// A character as it is written inside quotes.
pub open spec fn quoted_char(c: char) -> Seq<char> {
    if c == '\\' {
        seq!['\\', '\\']
    } else if c == '"' {
        seq!['\\', '"']
    } else if c == '\n' {
        seq!['\\', 'n']
    } else if c == '\r' {
        seq!['\\', 'r']
    } else if c == '\t' {
        seq!['\\', 't']
    } else {
        seq![c]
    }
}

/// A text as it is written inside quotes.
pub open spec fn quoted(s: Seq<char>) -> Seq<char>
    decreases s.len(),
{
    if s.len() == 0 {
        Seq::empty()
    } else {
        quoted(s.drop_last()) + quoted_char(s.last())
    }
}

/// Arguments as they are written.
pub open spec fn written_args(v: Seq<Seq<char>>) -> Seq<char>
    decreases v.len(),
{
    if v.len() == 0 {
        Seq::empty()
    } else {
        written_args(v.drop_last()) + " \""@ + quoted(v.last()) + "\""@
    }
}

/// A directive as it is written, each line behind `indent`.
pub open spec fn written_one(n: Node, indent: Seq<char>) -> Seq<char>
    decreases n, 0nat,
{
    let head = indent + n.name + written_args(n.args);
    match n.children {
        None => head + ";\n"@,
        Some(inner) => head + " {\n"@ + written(inner, indent + "    "@) + indent + "}\n"@,
    }
}

/// Directives as they are written.
pub open spec fn written(v: Seq<Node>, indent: Seq<char>) -> Seq<char>
    decreases v, 1nat,
{
    if v.len() == 0 {
        Seq::empty()
    } else {
        written_one(v[0], indent) + written(v.drop_first(), indent)
    }
}

fn quote(s: &str, out: &mut String)
    ensures
        final(out)@ == old(out)@ + quoted(s@),
{
    let v = text::chars(s);
    let ghost start = out@;
    let mut i: usize = 0;
    assert(start + quoted(v@.take(0)) =~= start);
    while i < v.len()
        invariant
            i <= v.len(),
            v@ == s@,
            out@ == start + quoted(v@.take(i as int)),
        decreases v.len() - i,
    {
        let ghost before = out@;
        assert(v@.take(i + 1).drop_last() =~= v@.take(i as int));
        let c = v[i];
        if c == '\\' {
            out.push('\\');
            out.push('\\');
        } else if c == '"' {
            out.push('\\');
            out.push('"');
        } else if c == '\n' {
            out.push('\\');
            out.push('n');
        } else if c == '\r' {
            out.push('\\');
            out.push('r');
        } else if c == '\t' {
            out.push('\\');
            out.push('t');
        } else {
            out.push(c);
        }
        proof {
            assert(out@ =~= before + quoted_char(c));
            assert(out@ =~= start + (quoted(v@.take(i as int)) + quoted_char(c)));
        }
        i += 1;
    }
    assert(v@.take(i as int) =~= v@);
}

fn write_args(v: &Vec<String>, out: &mut String)
    ensures
        final(out)@ == old(out)@ + written_args(texts(v@)),
{
    let ghost start = out@;
    let ghost all = texts(v@);
    let mut i: usize = 0;
    assert(start + written_args(all.take(0)) =~= start);
    while i < v.len()
        invariant
            i <= v.len(),
            all == texts(v@),
            out@ == start + written_args(all.take(i as int)),
        decreases v.len() - i,
    {
        assert(all.take(i + 1).drop_last() =~= all.take(i as int));
        out.append(" \"");
        quote(v[i].as_str(), out);
        out.append("\"");
        assert(out@ =~= start + (written_args(all.take(i as int)) + " \""@ + quoted(
            v@[i as int]@,
        ) + "\""@));
        i += 1;
    }
    assert(all.take(i as int) =~= all);
}

fn render_one(d: &Directive, indent: &str, out: &mut String)
    ensures
        final(out)@ == old(out)@ + written_one(d.node(), indent@),
    decreases d.node(), 0nat,
{
    let ghost start = out@;
    let ghost head = indent@ + d.name@ + written_args(texts(d.args@));
    out.append(indent);
    out.append(d.name.as_str());
    write_args(&d.args, out);
    assert(out@ =~= start + head);
    match &d.children {
        None => {
            out.append(";\n");
            assert(out@ =~= start + (head + ";\n"@));
        },
        Some(inner) => {
            proof {
                lemma_node(*d);
                assert(decreases_to!(d.node() => d.node().children->0));
            }
            out.append(" {\n");
            let deeper = text::concat(indent, "    ");
            render(inner, deeper.as_str(), out);
            out.append(indent);
            out.append("}\n");
            assert(out@ =~= start + (head + " {\n"@ + written(nodes(inner@), deeper@) + indent@
                + "}\n"@));
        },
    }
}

/// Writes directives, each line behind `indent`.
pub fn render(v: &Vec<Directive>, indent: &str, out: &mut String)
    ensures
        final(out)@ == old(out)@ + written(nodes(v@), indent@),
    decreases nodes(v@), 1nat,
{
    let ghost all = nodes(v@);
    let ghost start = out@;
    let ghost whole = written(all, indent@);
    let mut i: usize = 0;
    assert(all.skip(0) =~= all);
    while i < v.len()
        invariant
            i <= v.len(),
            all == nodes(v@),
            whole == written(all, indent@),
            out@ + written(all.skip(i as int), indent@) == start + whole,
        decreases v.len() - i,
    {
        let ghost before = out@;
        let ghost rest = all.skip(i as int);
        let ghost first = written_one(v@[i as int].node(), indent@);
        let ghost more = written(all.skip(i + 1), indent@);
        proof {
            assert(rest.drop_first() =~= all.skip(i + 1));
            assert(rest[0] == v@[i as int].node());
            assert(written(rest, indent@) == first + more);
            assert(decreases_to!(nodes(v@) => nodes(v@)[i as int]));
        }
        render_one(&v[i], indent, out);
        assert(out@ + more =~= before + (first + more));
        i += 1;
    }
    proof {
        assert(all.skip(i as int) =~= Seq::empty());
        assert(out@ + written(all.skip(i as int), indent@) =~= out@);
    }
}

// ---------------------------------------------------------------------------
// The assessment
// ---------------------------------------------------------------------------

/// The index of the first `http` block.
pub open spec fn http_at(v: Seq<Node>) -> int
    decreases v.len(),
{
    if v.len() == 0 {
        0
    } else if v[0].name == "http"@ {
        0
    } else {
        1 + http_at(v.drop_first())
    }
}

/// The directives with the root that files are served from by default written out in the `http` block.
pub open spec fn rooted(v: Seq<Node>, root: Seq<char>, source: Seq<char>) -> Seq<Node> {
    let k = http_at(v);
    if k < v.len() && v[k].children is Some {
        let first = Node { name: "root"@, args: seq![root], children: None, source };
        v.update(k, Node { children: Some(seq![first] + v[k].children->0), ..v[k] })
    } else {
        v
    }
}

fn find_http(v: &Vec<Directive>) -> (k: usize)
    ensures
        k == http_at(nodes(v@)),
        k <= v@.len(),
{
    let ghost all = nodes(v@);
    let mut i: usize = 0;
    assert(all.skip(0) =~= all);
    while i < v.len() && !text::same(v[i].name.as_str(), "http")
        invariant
            i <= v.len(),
            all == nodes(v@),
            http_at(all) == i + http_at(all.skip(i as int)),
        decreases v.len() - i,
    {
        assert(all.skip(i as int).drop_first() =~= all.skip(i + 1));
        assert(all.skip(i as int)[0] == v@[i as int].node());
        i += 1;
    }
    proof {
        if i < v.len() {
            assert(all.skip(i as int)[0] == v@[i as int].node());
        }
    }
    i
}

/// Writes the root that files are served from by default out in the `http` block.
pub fn add_root(v: &mut Vec<Directive>, root: &str, source: &str)
    ensures
        nodes(final(v)@) == rooted(nodes(old(v)@), root@, source@),
{
    let ghost all = nodes(v@);
    let k = find_http(v);
    if k >= v.len() {
        return;
    }
    assert(all[k as int] == v@[k as int].node());
    if v[k].children.is_none() {
        return;
    }
    let mut args: Vec<String> = Vec::new();
    args.push(root.to_owned());
    assert(texts(args@) =~= seq![root@]);
    let first = Directive {
        name: "root".to_owned(),
        args,
        children: None,
        source: source.to_owned(),
    };
    let mut copy = v[k].copy();
    let ghost old_copy = copy;
    proof {
        lemma_node(copy);
    }
    let mut inner = match copy.children {
        Some(c) => c,
        None => Vec::new(),
    };
    let ghost before = nodes(inner@);
    let ghost x = first.node();
    inner.insert(0, first);
    assert(nodes(inner@) =~= seq![x] + before);
    let n = Directive {
        name: copy.name,
        args: copy.args,
        children: Some(inner),
        source: copy.source,
    };
    proof {
        lemma_node(n);
    }
    let ghost y = n.node();
    v.set(k, n);
    assert(nodes(v@) =~= all.update(k as int, y));
}

/// How often a name was met.
pub open spec fn met_count(v: Seq<Seq<char>>, name: Seq<char>) -> nat
    decreases v.len(),
{
    if v.len() == 0 {
        0
    } else {
        met_count(v.drop_last(), name) + if v.last() == name {
            1nat
        } else {
            0nat
        }
    }
}

/// The names in order, each once.
pub open spec fn names_of(v: Seq<Seq<char>>) -> Seq<Seq<char>>
    decreases v.len(),
{
    if v.len() == 0 {
        Seq::empty()
    } else {
        inserted(names_of(v.drop_last()), v.last())
    }
}

/// How often each name was met, in the order of the names.
pub open spec fn inventory_of(v: Seq<Seq<char>>) -> Seq<(Seq<char>, nat)> {
    Seq::new(names_of(v).len(), |i: int| (names_of(v)[i], met_count(v, names_of(v)[i])))
}

proof fn lemma_met_count(v: Seq<Seq<char>>, name: Seq<char>)
    ensures
        met_count(v, name) <= v.len(),
    decreases v.len(),
{
    if v.len() > 0 {
        lemma_met_count(v.drop_last(), name);
    }
}

fn count_met(v: &Vec<String>, name: &str) -> (n: usize)
    ensures
        n == met_count(texts(v@), name@),
{
    let ghost all = texts(v@);
    let mut n: usize = 0;
    let mut i: usize = 0;
    while i < v.len()
        invariant
            i <= v.len(),
            all == texts(v@),
            n == met_count(all.take(i as int), name@),
        decreases v.len() - i,
    {
        proof {
            lemma_met_count(all.take(i as int), name@);
            assert(all.take(i + 1).drop_last() =~= all.take(i as int));
        }
        if text::same(v[i].as_str(), name) {
            n += 1;
        }
        i += 1;
    }
    assert(all.take(i as int) =~= all);
    n
}

pub open spec fn counts(v: Seq<(String, usize)>) -> Seq<(Seq<char>, nat)> {
    Seq::new(v.len(), |i: int| (v[i].0@, v[i].1 as nat))
}

/// How often each name was met.
pub fn inventory(met: &Vec<String>) -> (out: Vec<(String, usize)>)
    ensures
        counts(out@) == inventory_of(texts(met@)),
{
    let ghost all = texts(met@);
    let mut names: Vec<String> = Vec::new();
    let mut i: usize = 0;
    assert(texts(names@) =~= Seq::empty());
    while i < met.len()
        invariant
            i <= met.len(),
            all == texts(met@),
            texts(names@) == names_of(all.take(i as int)),
        decreases met.len() - i,
    {
        assert(all.take(i + 1).drop_last() =~= all.take(i as int));
        insert_id(&mut names, met[i].as_str());
        i += 1;
    }
    assert(all.take(i as int) =~= all);
    let mut out: Vec<(String, usize)> = Vec::new();
    let mut k: usize = 0;
    while k < names.len()
        invariant
            k <= names.len(),
            all == texts(met@),
            texts(names@) == names_of(all),
            counts(out@) == inventory_of(all).take(k as int),
        decreases names.len() - k,
    {
        let ghost before = counts(out@);
        let n = count_met(met, names[k].as_str());
        out.push((names[k].clone(), n));
        proof {
            let x = (names@[k as int]@, n as nat);
            assert(counts(out@) =~= before.push(x));
            assert(texts(names@)[k as int] == names@[k as int]@);
            assert(inventory_of(all).take(k + 1) =~= inventory_of(all).take(k as int).push(x));
        }
        k += 1;
    }
    assert(inventory_of(all).take(k as int) =~= inventory_of(all));
    out
}

/// What comes of a configuration.
#[derive(Debug)]
pub struct Assessment {
    pub nodes: Vec<Directive>,
    pub inventory: Vec<(String, usize)>,
    pub findings: Vec<Finding>,
    /// The configuration that comes out, as it is written.
    pub candidate: String,
}

/// What comes of a configuration whose file is in the directory `base`.
pub fn assess(v: Vec<Directive>, base: &str, accept: bool) -> (r: Assessment)
    ensures
        ({
            let start = rooted(
                nodes(v@),
                path::joined(base@, "html"@),
                "migration: explicit original default root"@,
            );
            let w = walked(start, "main"@, accept, base@);
            &&& nodes(r.nodes@) == w.nodes
            &&& counts(r.inventory@) == inventory_of(w.met)
            &&& hints(r.findings@) == w.findings
            &&& r.candidate@ == written(w.nodes, Seq::empty())
        }),
{
    let mut v = v;
    let root = path::join(base, "html");
    add_root(&mut v, root.as_str(), "migration: explicit original default root");
    let mut met: Vec<String> = Vec::new();
    let mut findings: Vec<Finding> = Vec::new();
    let ghost w = walked(nodes(v@), "main"@, accept, base@);
    assert(texts(met@) + w.met =~= w.met);
    assert(hints(findings@) + w.findings =~= w.findings);
    let kept = walk(&v, "main", accept, base, &mut met, &mut findings);
    let mut candidate = String::new();
    proof {
        reveal_strlit("");
        assert(""@ =~= Seq::<char>::empty());
    }
    render(&kept, "", &mut candidate);
    assert(candidate@ =~= written(w.nodes, Seq::empty()));
    Assessment { nodes: kept, inventory: inventory(&met), findings, candidate }
}

impl Assessment {
    pub open spec fn spec_compatible(&self) -> bool {
        forall|i: int|
            0 <= i < self.findings@.len() ==> !(#[trigger] self.findings@[i]).concern.spec_blocks()
    }

    /// Whether nothing has to be settled by hand.
    pub fn compatible(&self) -> (r: bool)
        ensures
            r == self.spec_compatible(),
    {
        let mut i: usize = 0;
        while i < self.findings.len()
            invariant
                i <= self.findings.len(),
                forall|j: int|
                    0 <= j < i ==> !(#[trigger] self.findings@[j]).concern.spec_blocks(),
            decreases self.findings.len() - i,
        {
            if self.findings[i].concern.blocks() {
                return false;
            }
            i += 1;
        }
        true
    }
}

/// A directive that sets up the process is left out where that is accepted, and keeps the configuration back
/// where it is not.
pub proof fn law_process_directives_are_left_out(n: Node, accept: bool, base: Seq<char>)
    requires
        n.name == "user"@ || n.name == "worker_processes"@ || n.name == "worker_connections"@ || n.name == "pid"@
            || n.name == "daemon"@ || n.name == "master_process"@ || n.name == "worker_rlimit_nofile"@ || n.name
            == "multi_accept"@ || n.name == "use"@,
    ensures
        walked_one(n, "main"@, accept, base).nodes == if accept {
            Seq::<Node>::empty()
        } else {
            seq![n]
        },
        walked_one(n, "events"@, accept, base).nodes == walked_one(n, "main"@, accept, base).nodes,
        walked_one(n, "main"@, accept, base).findings.len() == 1,
        walked_one(n, "main"@, accept, base).findings[0].concern.spec_blocks() <==> !accept,
        walked_one(n, "main"@, accept, base).findings[0].directive == n.name,
        walked_one(n, "main"@, accept, base).findings[0].source == n.source,
{
}

/// A directive outside the types whose name is not known keeps the configuration back.
pub proof fn law_unknown_directives_block(n: Node, context: Seq<char>, accept: bool, base: Seq<char>)
    requires
        context != "types"@,
        !known().contains(n.name),
        !of_process(n.name),
    ensures
        walked_one(n, context, accept, base).findings.contains(
            Hint { source: n.source, directive: n.name, concern: Concern::Unknown },
        ),
        Concern::Unknown.spec_blocks(),
{
    let h = Hint { source: n.source, directive: n.name, concern: Concern::Unknown };
    assert(noticed(n, context)[0] == h);
    assert(walked_one(n, context, accept, base).findings[0] == h);
}

/// A location inside a location, and one that is matched by an expression or named, keeps the configuration
/// back.
pub proof fn law_odd_locations_block(n: Node, context: Seq<char>, accept: bool, base: Seq<char>)
    requires
        n.name == "location"@,
        context == "location"@ || (n.args.len() > 0 && (n.args[0] == "~"@ || n.args[0] == "~*"@ || n.args[0] == "^~"@
            || n.args[0] == "@"@)),
    ensures
        walked_one(n, context, accept, base).findings.contains(
            Hint { source: n.source, directive: n.name, concern: Concern::Location },
        ),
        Concern::Location.spec_blocks(),
{
    reveal_strlit("location");
    reveal_strlit("user");
    assert("location"@.len() != "user"@.len());
    reveal_strlit("worker_processes");
    assert("location"@.len() != "worker_processes"@.len());
    reveal_strlit("worker_connections");
    assert("location"@.len() != "worker_connections"@.len());
    reveal_strlit("pid");
    assert("location"@.len() != "pid"@.len());
    reveal_strlit("daemon");
    assert("location"@.len() != "daemon"@.len());
    reveal_strlit("master_process");
    assert("location"@.len() != "master_process"@.len());
    reveal_strlit("worker_rlimit_nofile");
    assert("location"@.len() != "worker_rlimit_nofile"@.len());
    reveal_strlit("multi_accept");
    assert("location"@.len() != "multi_accept"@.len());
    reveal_strlit("use");
    assert("location"@.len() != "use"@.len());
    let h = Hint { source: n.source, directive: n.name, concern: Concern::Location };
    let k: int = if context != "types"@ && !known().contains(n.name) {
        1
    } else {
        0
    };
    assert(noticed(n, context)[k] == h);
    assert(walked_one(n, context, accept, base).findings[k] == h);
}

/// A plain location is no obstacle.
pub proof fn law_plain_locations_pass(n: Node, context: Seq<char>, i: int)
    requires
        context != "location"@,
        n.args.len() > 0 ==> n.args[0] != "~"@ && n.args[0] != "~*"@ && n.args[0] != "^~"@ && n.args[0] != "@"@,
        known().contains(n.name),
        0 <= i < noticed(n, context).len(),
    ensures
        noticed(n, context)[i].concern == Concern::Review,
        !Concern::Review.spec_blocks(),
{
}

/// What a directive does with a request is compared by requests: it is named, and keeps nothing back.
pub proof fn law_doubtful_directives_are_named(n: Node, context: Seq<char>)
    ensures
        noticed(n, context).contains(Hint { source: n.source, directive: n.name, concern: Concern::Review }) <==> (n.name
            == "proxy_pass"@ || n.name == "proxy_set_header"@ || n.name == "add_header"@ || n.name == "location"@ || n.name
            == "root"@ || n.name == "try_files"@),
        !Concern::Review.spec_blocks(),
        !Concern::Process(true).spec_blocks(),
        Concern::Process(false).spec_blocks(),
{
    let h = Hint { source: n.source, directive: n.name, concern: Concern::Review };
    let v = noticed(n, context);
    if reviewed(n.name) {
        assert(v[v.len() - 1] == h);
    }
}

/// The file that a directive names is looked for below the directory of the configuration; every other
/// argument stays as it is written.
pub proof fn law_files_are_looked_for_below(n: Node, base: Seq<char>, k: int)
    requires
        0 <= k < n.args.len(),
        n.name != "rgnix_jwt"@,
    ensures
        final_args(n, base).len() == n.args.len(),
        k > 0 ==> final_args(n, base)[k] == n.args[k],
        n.args[0] == "off"@ || n.args[0] == "stderr"@ || n.args[0].contains('$') ==> final_args(n, base) == n.args,
        n.name == "proxy_pass"@ || n.name == "return"@ || n.name == "index"@ || n.name == "listen"@ || n.name
            == "server_name"@ ==> final_args(n, base) == n.args,
        (n.name == "root"@ || n.name == "alias"@ || n.name == "ssl_certificate"@ || n.name == "ssl_certificate_key"@
            || n.name == "rgnix_script"@ || n.name == "proxy_ssl_certificate"@ || n.name == "proxy_ssl_certificate_key"@
            || n.name == "proxy_ssl_trusted_certificate"@ || n.name == "ssl_client_certificate"@ || n.name
            == "access_log"@ || n.name == "error_log"@) && n.args[0].len() > 0 && n.args[0][0] != '/' && n.args[0]
            != "off"@ && n.args[0] != "stderr"@ && !n.args[0].contains('$') && base.len() > 0 && base.last() != '/'
            ==> final_args(n, base)[0] == base + "/"@ + n.args[0],
{
    if n.name == "proxy_pass"@ {
        reveal_strlit("proxy_pass");
        reveal_strlit("root");
        assert("proxy_pass"@.len() != "root"@.len());
        reveal_strlit("alias");
        assert("proxy_pass"@.len() != "alias"@.len());
        reveal_strlit("ssl_certificate");
        assert("proxy_pass"@.len() != "ssl_certificate"@.len());
        reveal_strlit("ssl_certificate_key");
        assert("proxy_pass"@.len() != "ssl_certificate_key"@.len());
        reveal_strlit("rgnix_script");
        assert("proxy_pass"@.len() != "rgnix_script"@.len());
        reveal_strlit("proxy_ssl_certificate");
        assert("proxy_pass"@.len() != "proxy_ssl_certificate"@.len());
        reveal_strlit("proxy_ssl_certificate_key");
        assert("proxy_pass"@.len() != "proxy_ssl_certificate_key"@.len());
        reveal_strlit("proxy_ssl_trusted_certificate");
        assert("proxy_pass"@.len() != "proxy_ssl_trusted_certificate"@.len());
        reveal_strlit("ssl_client_certificate");
        assert("proxy_pass"@.len() != "ssl_client_certificate"@.len());
        reveal_strlit("access_log");
        assert("proxy_pass"@[0] != "access_log"@[0]);
        reveal_strlit("error_log");
        assert("proxy_pass"@.len() != "error_log"@.len());
    }
    if n.name == "return"@ {
        reveal_strlit("return");
        reveal_strlit("root");
        assert("return"@.len() != "root"@.len());
        reveal_strlit("alias");
        assert("return"@.len() != "alias"@.len());
        reveal_strlit("ssl_certificate");
        assert("return"@.len() != "ssl_certificate"@.len());
        reveal_strlit("ssl_certificate_key");
        assert("return"@.len() != "ssl_certificate_key"@.len());
        reveal_strlit("rgnix_script");
        assert("return"@.len() != "rgnix_script"@.len());
        reveal_strlit("proxy_ssl_certificate");
        assert("return"@.len() != "proxy_ssl_certificate"@.len());
        reveal_strlit("proxy_ssl_certificate_key");
        assert("return"@.len() != "proxy_ssl_certificate_key"@.len());
        reveal_strlit("proxy_ssl_trusted_certificate");
        assert("return"@.len() != "proxy_ssl_trusted_certificate"@.len());
        reveal_strlit("ssl_client_certificate");
        assert("return"@.len() != "ssl_client_certificate"@.len());
        reveal_strlit("access_log");
        assert("return"@.len() != "access_log"@.len());
        reveal_strlit("error_log");
        assert("return"@.len() != "error_log"@.len());
    }
    if n.name == "index"@ {
        reveal_strlit("index");
        reveal_strlit("root");
        assert("index"@.len() != "root"@.len());
        reveal_strlit("alias");
        assert("index"@[0] != "alias"@[0]);
        reveal_strlit("ssl_certificate");
        assert("index"@.len() != "ssl_certificate"@.len());
        reveal_strlit("ssl_certificate_key");
        assert("index"@.len() != "ssl_certificate_key"@.len());
        reveal_strlit("rgnix_script");
        assert("index"@.len() != "rgnix_script"@.len());
        reveal_strlit("proxy_ssl_certificate");
        assert("index"@.len() != "proxy_ssl_certificate"@.len());
        reveal_strlit("proxy_ssl_certificate_key");
        assert("index"@.len() != "proxy_ssl_certificate_key"@.len());
        reveal_strlit("proxy_ssl_trusted_certificate");
        assert("index"@.len() != "proxy_ssl_trusted_certificate"@.len());
        reveal_strlit("ssl_client_certificate");
        assert("index"@.len() != "ssl_client_certificate"@.len());
        reveal_strlit("access_log");
        assert("index"@.len() != "access_log"@.len());
        reveal_strlit("error_log");
        assert("index"@.len() != "error_log"@.len());
    }
    if n.name == "listen"@ {
        reveal_strlit("listen");
        reveal_strlit("root");
        assert("listen"@.len() != "root"@.len());
        reveal_strlit("alias");
        assert("listen"@.len() != "alias"@.len());
        reveal_strlit("ssl_certificate");
        assert("listen"@.len() != "ssl_certificate"@.len());
        reveal_strlit("ssl_certificate_key");
        assert("listen"@.len() != "ssl_certificate_key"@.len());
        reveal_strlit("rgnix_script");
        assert("listen"@.len() != "rgnix_script"@.len());
        reveal_strlit("proxy_ssl_certificate");
        assert("listen"@.len() != "proxy_ssl_certificate"@.len());
        reveal_strlit("proxy_ssl_certificate_key");
        assert("listen"@.len() != "proxy_ssl_certificate_key"@.len());
        reveal_strlit("proxy_ssl_trusted_certificate");
        assert("listen"@.len() != "proxy_ssl_trusted_certificate"@.len());
        reveal_strlit("ssl_client_certificate");
        assert("listen"@.len() != "ssl_client_certificate"@.len());
        reveal_strlit("access_log");
        assert("listen"@.len() != "access_log"@.len());
        reveal_strlit("error_log");
        assert("listen"@.len() != "error_log"@.len());
    }
    if n.name == "server_name"@ {
        reveal_strlit("server_name");
        reveal_strlit("root");
        assert("server_name"@.len() != "root"@.len());
        reveal_strlit("alias");
        assert("server_name"@.len() != "alias"@.len());
        reveal_strlit("ssl_certificate");
        assert("server_name"@.len() != "ssl_certificate"@.len());
        reveal_strlit("ssl_certificate_key");
        assert("server_name"@.len() != "ssl_certificate_key"@.len());
        reveal_strlit("rgnix_script");
        assert("server_name"@.len() != "rgnix_script"@.len());
        reveal_strlit("proxy_ssl_certificate");
        assert("server_name"@.len() != "proxy_ssl_certificate"@.len());
        reveal_strlit("proxy_ssl_certificate_key");
        assert("server_name"@.len() != "proxy_ssl_certificate_key"@.len());
        reveal_strlit("proxy_ssl_trusted_certificate");
        assert("server_name"@.len() != "proxy_ssl_trusted_certificate"@.len());
        reveal_strlit("ssl_client_certificate");
        assert("server_name"@.len() != "ssl_client_certificate"@.len());
        reveal_strlit("access_log");
        assert("server_name"@.len() != "access_log"@.len());
        reveal_strlit("error_log");
        assert("server_name"@.len() != "error_log"@.len());
    }
}

/// Keys in a file are looked for below the directory of the configuration, keys at an address are not.
pub proof fn law_keys_are_looked_for_below(base: Seq<char>, p: Seq<char>)
    requires
        base.len() > 0,
        base.last() != '/',
        p.len() > 0,
        p[0] != '/',
    ensures
        !text::starts(p, "https://"@) ==> placed_key("jwks="@ + p, base) == "jwks="@ + base + "/"@ + p,
        text::starts(p, "https://"@) ==> placed_key("jwks="@ + p, base) == "jwks="@ + p,
        !text::starts(p, "jwks="@) ==> placed_key(p, base) == p,
{
    text::lemma_prefixed("jwks="@, p);
    assert("jwks="@ + (base + "/"@ + p) =~= "jwks="@ + base + "/"@ + p);
}

/// Every directive is met, in the order of the file, and what is found at each is kept.
pub proof fn law_every_directive_is_met(v: Seq<Node>, context: Seq<char>, accept: bool, base: Seq<char>, i: int)
    requires
        0 <= i < v.len(),
    ensures
        walked(v, context, accept, base).met.contains(v[i].name),
        forall|h: Hint|
            walked_one(v[i], context, accept, base).findings.contains(h) ==> #[trigger] walked(
                v,
                context,
                accept,
                base,
            ).findings.contains(h),
        forall|n: Node|
            walked_one(v[i], context, accept, base).nodes.contains(n) ==> #[trigger] walked(
                v,
                context,
                accept,
                base,
            ).nodes.contains(n),
    decreases v.len(),
{
    let a = walked_one(v[0], context, accept, base);
    let b = walked(v.drop_first(), context, accept, base);
    let w = walked(v, context, accept, base);
    if i == 0 {
        assert(a.met[0] == v[0].name);
        assert(w.met[0] == v[0].name);
        assert forall|h: Hint| a.findings.contains(h) implies #[trigger] w.findings.contains(h) by {
            let k = choose|k: int| 0 <= k < a.findings.len() && a.findings[k] == h;
            assert(w.findings[k] == h);
        }
        assert forall|n: Node| a.nodes.contains(n) implies #[trigger] w.nodes.contains(n) by {
            let k = choose|k: int| 0 <= k < a.nodes.len() && a.nodes[k] == n;
            assert(w.nodes[k] == n);
        }
    } else {
        law_every_directive_is_met(v.drop_first(), context, accept, base, i - 1);
        assert(v.drop_first()[i - 1] == v[i]);
        let m = choose|m: int| 0 <= m < b.met.len() && b.met[m] == v[i].name;
        assert(w.met[a.met.len() + m] == v[i].name);
        let one = walked_one(v[i], context, accept, base);
        assert forall|h: Hint| one.findings.contains(h) implies #[trigger] w.findings.contains(h) by {
            assert(b.findings.contains(h));
            let k = choose|k: int| 0 <= k < b.findings.len() && b.findings[k] == h;
            assert(w.findings[a.findings.len() + k] == h);
        }
        assert forall|n: Node| one.nodes.contains(n) implies #[trigger] w.nodes.contains(n) by {
            assert(b.nodes.contains(n));
            let k = choose|k: int| 0 <= k < b.nodes.len() && b.nodes[k] == n;
            assert(w.nodes[a.nodes.len() + k] == n);
        }
    }
}

/// The first block for HTTP gets the default root in front of what it holds; nothing else changes.
pub proof fn law_default_roots_stand_first(v: Seq<Node>, root: Seq<char>, source: Seq<char>, k: int)
    requires
        0 <= k < v.len(),
        v[k].name == "http"@,
        v[k].children is Some,
        forall|i: int| 0 <= i < k ==> (#[trigger] v[i]).name != "http"@,
    ensures
        rooted(v, root, source).len() == v.len(),
        forall|i: int| 0 <= i < v.len() && i != k ==> #[trigger] rooted(v, root, source)[i] == v[i],
        rooted(v, root, source)[k].name == "http"@,
        rooted(v, root, source)[k].children is Some,
        rooted(v, root, source)[k].children->0.len() == v[k].children->0.len() + 1,
        rooted(v, root, source)[k].children->0[0].name == "root"@,
        rooted(v, root, source)[k].children->0[0].args == seq![root],
        rooted(v, root, source)[k].children->0.skip(1) == v[k].children->0,
{
    lemma_http_at(v, k);
    let w = rooted(v, root, source)[k].children->0;
    assert(w.skip(1) =~= v[k].children->0);
}

proof fn lemma_http_at(v: Seq<Node>, k: int)
    requires
        0 <= k < v.len(),
        v[k].name == "http"@,
        forall|i: int| 0 <= i < k ==> (#[trigger] v[i]).name != "http"@,
    ensures
        http_at(v) == k,
    decreases v.len(),
{
    if k > 0 {
        assert(v[0].name != "http"@);
        assert forall|i: int| 0 <= i < k - 1 implies (#[trigger] v.drop_first()[i]).name != "http"@ by {
            assert(v.drop_first()[i] == v[i + 1]);
        }
        lemma_http_at(v.drop_first(), k - 1);
    }
}

/// The inventory holds each name that was met once, with the number of times that it was.
pub proof fn law_inventories_count_directives(v: Seq<Seq<char>>, name: Seq<char>, other: Seq<char>)
    ensures
        met_count(v.push(name), name) == met_count(v, name) + 1,
        other != name ==> met_count(v.push(name), other) == met_count(v, other),
        met_count(Seq::empty(), name) == 0,
        names_of(v).contains(name) <==> v.contains(name),
        inventory_of(v).contains((name, met_count(v, name))) <==> v.contains(name),
{
    assert(v.push(name).drop_last() =~= v);
    lemma_names(v, name);
    let w = inventory_of(v);
    let e = (name, met_count(v, name));
    if v.contains(name) {
        let k = choose|k: int| 0 <= k < names_of(v).len() && names_of(v)[k] == name;
        assert(w[k] == e);
    }
    if w.contains(e) {
        let k = choose|k: int| 0 <= k < w.len() && w[k] == e;
        assert(names_of(v)[k] == name);
    }
}

proof fn lemma_names(v: Seq<Seq<char>>, name: Seq<char>)
    ensures
        names_of(v).contains(name) <==> v.contains(name),
    decreases v.len(),
{
    if v.len() > 0 {
        lemma_names(v.drop_last(), name);
        crate::diagnostics::preflight::law_identifiers_are_inserted(names_of(v.drop_last()), v.last(), name);
        if v.contains(name) && v.last() != name {
            let k = choose|k: int| 0 <= k < v.len() && v[k] == name;
            assert(v.drop_last()[k] == name);
        }
        if v.drop_last().contains(name) {
            let k = choose|k: int| 0 <= k < v.drop_last().len() && v.drop_last()[k] == name;
            assert(v[k] == name);
        }
        assert(v[v.len() - 1] == v.last());
    }
}

} // verus!

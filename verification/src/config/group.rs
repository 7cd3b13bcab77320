//! The groups of servers in a configuration, by the `upstream` blocks that name them.
use crate::config::apply::Problem;
use crate::config::syntax::{lemma_node, nodes, Directive, Node};
use crate::config::upstream::{read_weight, weight_of, UpstreamError};
use crate::net::{parse_socket, parsed_socket};
use crate::text;
use vstd::prelude::*;

verus! {

/// The port of a server that names none.
pub const DEFAULT_PORT: u16 = 80;

/// How often a character occurs.
pub open spec fn occurrences(s: Seq<char>, c: char) -> nat
    decreases s.len(),
{
    if s.len() == 0 {
        0
    } else {
        occurrences(s.drop_last(), c) + if s.last() == c {
            1nat
        } else {
            0nat
        }
    }
}

fn count(s: &str, c: char) -> (n: usize)
    ensures
        n == occurrences(s@, c),
{
    let v = text::chars(s);
    let mut n: usize = 0;
    let mut i: usize = 0;
    while i < v.len()
        invariant
            i <= v.len(),
            v@ == s@,
            n <= i,
            n == occurrences(s@.take(i as int), c),
        decreases v.len() - i,
    {
        assert(s@.take(i + 1).drop_last() =~= s@.take(i as int));
        if v[i] == c {
            n += 1;
        }
        i += 1;
    }
    assert(s@.take(i as int) =~= s@);
    n
}

/// A host with its port, the usual one where it names none.
pub open spec fn addressed(s: Seq<char>, port: u16) -> Seq<char> {
    if parsed_socket(s) is Some || (!text::starts(s, "["@) && occurrences(s, ':') == 1) {
        s
    } else {
        s + ":"@ + text::decimal(port as nat)
    }
}

/// A host with its port, the usual one where it names none.
pub fn authority_with_port(s: &str, port: u16) -> (out: String)
    ensures
        out@ == addressed(s@, port),
{
    if parse_socket(s).is_some() || (!text::starts_with(s, "[") && count(s, ':') == 1) {
        s.to_owned()
    } else {
        text::concat3(s, ":", text::decimal_string(port as u64).as_str())
    }
}

/// A server of a group: where it is looked up, and its weight.
#[derive(Debug)]
pub struct GroupServer {
    pub address: String,
    pub weight: u32,
}

pub open spec fn group_servers(v: Seq<GroupServer>) -> Seq<(Seq<char>, u32)> {
    Seq::new(v.len(), |i: int| (v[i].address@, v[i].weight))
}

/// A group of servers under a name.
#[derive(Debug)]
pub struct Group {
    pub name: String,
    pub servers: Vec<GroupServer>,
}

/// The server that a line of a group names.
pub open spec fn server_of(n: Node) -> Result<(Seq<char>, u32), UpstreamError> {
    if n.name != "server"@ || n.children is Some || n.args.len() < 1 || n.args.len() > 2 {
        Err(UpstreamError::ServerArguments)
    } else {
        match weight_of(n) {
            Err(e) => Err(e),
            Ok(w) => Ok((addressed(n.args[0], DEFAULT_PORT), w)),
        }
    }
}

/// The servers of a group, or the first problem with the place of its line.
pub open spec fn servers_of(v: Seq<Node>) -> Result<Seq<(Seq<char>, u32)>, (Seq<char>, UpstreamError)>
    decreases v.len(),
{
    if v.len() == 0 {
        Ok(Seq::empty())
    } else {
        match servers_of(v.drop_last()) {
            Err(e) => Err(e),
            Ok(w) => match server_of(v.last()) {
                Err(e) => Err((v.last().source, e)),
                Ok(x) => Ok(w.push(x)),
            },
        }
    }
}

/// What an `upstream` block says: it has a name, and at least one server.
pub open spec fn group_of(n: Node) -> Result<
    (Seq<char>, Seq<(Seq<char>, u32)>),
    (Seq<char>, UpstreamError),
> {
    if n.args.len() != 1 {
        Err((n.source, UpstreamError::Directive(Problem::ExpectsOneArgument)))
    } else {
        match n.children {
            None => Err((n.source, UpstreamError::Directive(Problem::RequiresBlock))),
            Some(v) => match servers_of(v) {
                Err(e) => Err(e),
                Ok(w) => if w.len() == 0 {
                    Err((n.source, UpstreamError::ServerCount))
                } else {
                    Ok((n.args[0], w))
                },
            },
        }
    }
}

proof fn lemma_servers_error(v: Seq<Node>, i: int)
    requires
        0 <= i <= v.len(),
        servers_of(v.take(i)) is Err,
    ensures
        servers_of(v) == servers_of(v.take(i)),
    decreases v.len(),
{
    if i < v.len() {
        assert(v.drop_last().take(i) =~= v.take(i));
        lemma_servers_error(v.drop_last(), i);
    } else {
        assert(v.take(i) =~= v);
    }
}

fn read_server(n: &Directive) -> (r: Result<GroupServer, UpstreamError>)
    ensures
        match r {
            Ok(s) => server_of(n.node()) == Ok::<(Seq<char>, u32), UpstreamError>((s.address@, s.weight)),
            Err(e) => server_of(n.node()) == Err::<(Seq<char>, u32), UpstreamError>(e),
        },
{
    assert(n.node().args.len() == n.args@.len());
    if !text::same(n.name.as_str(), "server") || n.children.is_some() || n.args.len() < 1 || n.args.len()
        > 2 {
        return Err(UpstreamError::ServerArguments);
    }
    match read_weight(n) {
        Err(e) => Err(e),
        Ok(weight) => {
            assert(n.node().args[0] == n.args@[0]@);
            Ok(GroupServer { address: authority_with_port(n.args[0].as_str(), DEFAULT_PORT), weight })
        },
    }
}

pub open spec fn group_result(r: Result<Group, (String, UpstreamError)>) -> Result<
    (Seq<char>, Seq<(Seq<char>, u32)>),
    (Seq<char>, UpstreamError),
> {
    match r {
        Ok(g) => Ok((g.name@, group_servers(g.servers@))),
        Err(e) => Err((e.0@, e.1)),
    }
}

/// Reads an `upstream` block.
pub fn load(n: &Directive) -> (r: Result<Group, (String, UpstreamError)>)
    ensures
        group_result(r) == group_of(n.node()),
{
    assert(n.node().args.len() == n.args@.len());
    if n.args.len() != 1 {
        return Err((n.source.clone(), UpstreamError::Directive(Problem::ExpectsOneArgument)));
    }
    assert(n.node().args[0] == n.args@[0]@);
    proof {
        lemma_node(*n);
    }
    let v = match &n.children {
        None => return Err((n.source.clone(), UpstreamError::Directive(Problem::RequiresBlock))),
        Some(v) => v,
    };
    let ghost all = nodes(v@);
    let mut servers: Vec<GroupServer> = Vec::new();
    let mut i: usize = 0;
    assert(group_servers(servers@) =~= Seq::empty());
    while i < v.len()
        invariant
            i <= v.len(),
            all == nodes(v@),
            n.node().args.len() == 1,
            n.node().children == Some(all),
            servers_of(all.take(i as int)) == Ok::<Seq<(Seq<char>, u32)>, (Seq<char>, UpstreamError)>(
                group_servers(servers@),
            ),
        decreases v.len() - i,
    {
        proof {
            assert(all.take(i + 1).drop_last() =~= all.take(i as int));
            assert(all.take(i + 1).last() == v@[i as int].node());
        }
        let ghost before = group_servers(servers@);
        match read_server(&v[i]) {
            Err(e) => {
                proof {
                    lemma_servers_error(all, i + 1);
                }
                return Err((v[i].source.clone(), e));
            },
            Ok(s) => {
                let ghost x = (s.address@, s.weight);
                servers.push(s);
                assert(group_servers(servers@) =~= before.push(x));
            },
        }
        i += 1;
    }
    assert(all.take(i as int) =~= all);
    if servers.len() == 0 {
        return Err((n.source.clone(), UpstreamError::ServerCount));
    }
    Ok(Group { name: n.args[0].clone(), servers })
}

/// An address without a port gets the one given, and one with a port stays.
pub proof fn law_addresses_get_a_port(s: Seq<char>, port: u16)
    ensures
        parsed_socket(s) is Some ==> addressed(s, port) == s,
        parsed_socket(s) is None && occurrences(s, ':') == 0 ==> addressed(s, port) == s + ":"@
            + text::decimal(port as nat),
        !text::starts(s, "["@) && occurrences(s, ':') == 1 ==> addressed(s, port) == s,
        parsed_socket(s) is None && text::starts(s, "["@) ==> addressed(s, port) == s + ":"@
            + text::decimal(port as nat),
{
}

/// The servers of a group stand in their order, each with its address and its weight.
pub proof fn law_groups_hold_their_servers(v: Seq<Node>, i: int)
    requires
        servers_of(v) is Ok,
        0 <= i < v.len(),
    ensures
        servers_of(v)->Ok_0.len() == v.len(),
        servers_of(v)->Ok_0[i].0 == addressed(v[i].args[0], 80),
        weight_of(v[i]) == Ok::<u32, UpstreamError>(servers_of(v)->Ok_0[i].1),
        v[i].name == "server"@,
    decreases v.len(),
{
    let l = v.drop_last();
    if i < l.len() {
        assert(l[i] == v[i]);
        law_groups_hold_their_servers(l, i);
    } else {
        lemma_count(l);
    }
}

proof fn lemma_count(v: Seq<Node>)
    requires
        servers_of(v) is Ok,
    ensures
        servers_of(v)->Ok_0.len() == v.len(),
    decreases v.len(),
{
    if v.len() > 0 {
        lemma_count(v.drop_last());
    }
}

/// A group has the name that it is given, and at least one server.
pub proof fn law_groups_are_named(n: Node)
    ensures
        group_of(n) matches Ok(g) ==> n.args == seq![g.0] && g.1.len() > 0,
        n.children == Some(Seq::<Node>::empty()) ==> group_of(n) is Err,
{
}

} // verus!

//! Network addresses as plain numbers.
use crate::text;
use vstd::arithmetic::power2::pow2;
use vstd::prelude::*;

verus! {

/// An IP address: its bits, most significant first.
#[derive(Clone, Copy, Debug, PartialEq, Eq, Structural)]
pub enum Ip {
    V4(u32),
    V6(u128),
}

/// The addresses that share the first `prefix` bits of `address`.
#[derive(Clone, Copy, Debug, PartialEq, Eq, Structural)]
pub struct Network {
    pub address: Ip,
    pub prefix: u8,
}

/// An address with a port.
#[derive(Clone, Copy, Debug, PartialEq, Eq, Structural)]
pub struct Socket {
    pub ip: Ip,
    pub scope: u32,
    pub port: u16,
}

impl Network {
    /// The prefix is not longer than the address.
    pub open spec fn valid(self) -> bool {
        match self.address {
            Ip::V4(_) => self.prefix <= 32,
            Ip::V6(_) => self.prefix <= 128,
        }
    }

    /// Whether the first `prefix` bits of `ip` are those of the network's address.
    pub open spec fn holds(self, ip: Ip) -> bool {
        match (self.address, ip) {
            (Ip::V4(a), Ip::V4(b)) => a as nat / pow2((32 - self.prefix) as nat) == b as nat / pow2(
                (32 - self.prefix) as nat,
            ),
            (Ip::V6(a), Ip::V6(b)) => a as nat / pow2((128 - self.prefix) as nat) == b as nat
                / pow2((128 - self.prefix) as nat),
            _ => false,
        }
    }

    /// `ipnet`'s `contains`, on IPv4 and IPv6 networks: whether an address lies between the first
    /// and the last address of the network, that is, whether it shares the network's prefix.
    /// An address of the other family is in no network.
    #[verifier::external_body]
    pub(crate) fn contains(&self, ip: Ip) -> (r: bool)
        requires
            self.valid(),
        ensures
            r == self.holds(ip),
    {
        match (self.address, ip) {
            (Ip::V4(a), Ip::V4(b)) => ipnet::Ipv4Net::new_assert(a.into(), self.prefix).contains(
                &ipnet::Ipv4Net::new_assert(b.into(), 32).addr(),
            ),
            (Ip::V6(a), Ip::V6(b)) => ipnet::Ipv6Net::new_assert(a.into(), self.prefix).contains(
                &ipnet::Ipv6Net::new_assert(b.into(), 128).addr(),
            ),
            _ => false,
        }
    }
}

/// What `str::parse` makes of a text as an IP address.
pub uninterp spec fn parsed_ip(s: Seq<char>) -> Option<Ip>;

/// `str::parse` for the standard library's IP address type.
#[verifier::external_body]
pub(crate) fn parse_ip(s: &str) -> (r: Option<Ip>)
    ensures
        r == parsed_ip(s@),
{
    match ipnet::IpNet::new(s.parse().ok()?, 0).ok()? {
        ipnet::IpNet::V4(n) => Some(Ip::V4(n.addr().into())),
        ipnet::IpNet::V6(n) => Some(Ip::V6(n.addr().into())),
    }
}

/// How the standard library writes an IP address.
pub uninterp spec fn ip_text(ip: Ip) -> Seq<char>;

/// `to_string` of the standard library's IP address types.
#[verifier::external_body]
pub(crate) fn ip_string(ip: Ip) -> (out: String)
    ensures
        out@ == ip_text(ip),
{
    match ip {
        Ip::V4(a) => ipnet::Ipv4Net::new_assert(a.into(), 32).addr().to_string(),
        Ip::V6(a) => ipnet::Ipv6Net::new_assert(a.into(), 128).addr().to_string(),
    }
}

/// What `ipnet` makes of a text as an address, `/` and a prefix length.
pub uninterp spec fn parsed_cidr(s: Seq<char>) -> Option<Network>;

/// `str::parse` for `ipnet::IpNet`; a network that it gives has a prefix no longer than its address.
#[verifier::external_body]
pub(crate) fn parse_cidr(s: &str) -> (r: Option<Network>)
    ensures
        r == parsed_cidr(s@),
        r is Some ==> r->0.valid(),
{
    match s.parse().ok()? {
        ipnet::IpNet::V4(n) => Some(
            Network { address: Ip::V4(n.addr().into()), prefix: n.prefix_len() },
        ),
        ipnet::IpNet::V6(n) => Some(
            Network { address: Ip::V6(n.addr().into()), prefix: n.prefix_len() },
        ),
    }
}

/// The network of one address.
pub open spec fn single(ip: Ip) -> Network {
    Network {
        address: ip,
        prefix: match ip {
            Ip::V4(_) => 32,
            Ip::V6(_) => 128,
        },
    }
}

/// The network that a text stands for: one with a prefix length, or a single address.
pub open spec fn network_of(s: Seq<char>) -> Option<Network> {
    match parsed_cidr(s) {
        Some(n) => Some(n),
        None => match parsed_ip(s) {
            Some(ip) => Some(single(ip)),
            None => None,
        },
    }
}

/// A network, written with a prefix length or as a single address.
pub fn network(value: &str) -> (r: Option<Network>)
    ensures
        r == network_of(value@),
        r is Some ==> r->0.valid(),
{
    match parse_cidr(value) {
        Some(n) => Some(n),
        None => match parse_ip(value) {
            Some(ip) => {
                let prefix: u8 = match ip {
                    Ip::V4(_) => 32,
                    Ip::V6(_) => 128,
                };
                Some(Network { address: ip, prefix })
            },
            None => None,
        },
    }
}

/// A number of decimal digits without a sign, up to `max`.
pub open spec fn digits_upto(s: Seq<char>, max: nat) -> Option<nat> {
    if s.len() > 0 && text::all_digits(s) && text::digits_value(s) <= max {
        Some(text::digits_value(s))
    } else {
        None
    }
}

/// The address and scope inside the brackets of an IPv6 socket address.
pub open spec fn scoped(s: Seq<char>) -> Option<(Ip, nat)> {
    match text::split_once_spec(s, '%') {
        None => match parsed_ip(s) {
            Some(Ip::V6(a)) => Some((Ip::V6(a), 0)),
            _ => None,
        },
        Some((a, scope)) => match (parsed_ip(a), digits_upto(scope, u32::MAX as nat)) {
            (Some(Ip::V6(a)), Some(n)) => Some((Ip::V6(a), n)),
            _ => None,
        },
    }
}

/// The socket address that a text stands for: `1.2.3.4:80` or `[::1]:80`.
pub open spec fn parsed_socket(s: Seq<char>) -> Option<Socket> {
    let p = text::last_position(s, ':');
    if p < 0 {
        None
    } else {
        let host = s.take(p);
        let found: Option<(Ip, nat)> = if host.len() >= 2 && host[0] == '[' && host.last() == ']' {
            scoped(host.subrange(1, host.len() - 1))
        } else {
            match parsed_ip(host) {
                Some(Ip::V4(a)) => Some((Ip::V4(a), 0)),
                _ => None,
            }
        };
        match (found, digits_upto(s.skip(p + 1), 65535)) {
            (Some((ip, scope)), Some(port)) => Some(
                Socket { ip, scope: scope as u32, port: port as u16 },
            ),
            _ => None,
        }
    }
}

fn digits(v: &Vec<char>, from: usize, max: u64) -> (r: Option<u64>)
    requires
        from <= v.len(),
    ensures
        match r {
            Some(n) => digits_upto(v@.skip(from as int), max as nat) == Some(n as nat) && n <= max,
            None => digits_upto(v@.skip(from as int), max as nat) is None,
        },
{
    text::parse_digits(v, from, max)
}

/// The socket address that a text stands for.
pub fn parse_socket(s: &str) -> (r: Option<Socket>)
    ensures
        r == parsed_socket(s@),
{
    let v = text::chars(s);
    let p = match text::rfind(&v, ':') {
        Some(p) => p,
        None => return None,
    };
    let port = digits(&v, p + 1, 65535);
    let found: Option<(Ip, u32)> = if p >= 2 && v[0] == '[' && v[p - 1] == ']' {
        let inner = text::slice(&v, 1, p - 1);
        assert(inner@ =~= v@.take(p as int).subrange(1, p - 1));
        match text::split_once(inner.as_str(), '%') {
            None => match parse_ip(inner.as_str()) {
                Some(Ip::V6(a)) => Some((Ip::V6(a), 0)),
                _ => None,
            },
            Some((a, scope)) => {
                let w = text::chars(scope.as_str());
                assert(w@.skip(0) =~= scope@);
                match (parse_ip(a.as_str()), digits(&w, 0, u32::MAX as u64)) {
                    (Some(Ip::V6(a)), Some(n)) => Some((Ip::V6(a), n as u32)),
                    _ => None,
                }
            },
        }
    } else {
        let host = text::slice(&v, 0, p);
        assert(host@ =~= v@.take(p as int));
        match parse_ip(host.as_str()) {
            Some(Ip::V4(a)) => Some((Ip::V4(a), 0)),
            _ => None,
        }
    };
    match (found, port) {
        (Some((ip, scope)), Some(port)) => Some(Socket { ip, scope, port: port as u16 }),
        _ => None,
    }
}

/// How the standard library writes a socket address.
pub open spec fn socket_text(a: Socket) -> Seq<char> {
    let port = text::decimal(a.port as nat);
    match a.ip {
        Ip::V4(_) => ip_text(a.ip) + ":"@ + port,
        Ip::V6(_) => if a.scope == 0 {
            "["@ + ip_text(a.ip) + "]:"@ + port
        } else {
            "["@ + ip_text(a.ip) + "%"@ + text::decimal(a.scope as nat) + "]:"@ + port
        },
    }
}

/// A socket address as a text.
pub fn socket_string(a: Socket) -> (out: String)
    ensures
        out@ == socket_text(a),
{
    let ip = ip_string(a.ip);
    let port = text::decimal_string(a.port as u64);
    match a.ip {
        Ip::V4(_) => text::concat3(ip.as_str(), ":", port.as_str()),
        Ip::V6(_) => {
            let open = text::concat("[", ip.as_str());
            if a.scope == 0 {
                text::concat3(open.as_str(), "]:", port.as_str())
            } else {
                let scope = text::decimal_string(a.scope as u64);
                let inner = text::concat3(open.as_str(), "%", scope.as_str());
                text::concat3(inner.as_str(), "]:", port.as_str())
            }
        },
    }
}

/// A network of one address holds that alone, one without a prefix all of its kind, and none an address of the
/// other kind.
pub proof fn law_networks_hold_their_addresses(a: u32, b: u32, x: u128, y: u128, n: u8)
    ensures
        (Network { address: Ip::V4(a), prefix: 32 }).holds(Ip::V4(b)) <==> a == b,
        (Network { address: Ip::V6(x), prefix: 128 }).holds(Ip::V6(y)) <==> x == y,
        (Network { address: Ip::V4(a), prefix: 0 }).holds(Ip::V4(b)),
        (Network { address: Ip::V4(a), prefix: 24 }).holds(Ip::V4(b)) <==> a / 256 == b / 256,
        (Network { address: Ip::V4(a), prefix: 16 }).holds(Ip::V4(b)) <==> a / 65536 == b / 65536,
        !(Network { address: Ip::V4(a), prefix: n }).holds(Ip::V6(y)),
        !(Network { address: Ip::V6(x), prefix: n }).holds(Ip::V4(b)),
        (Network { address: Ip::V4(a), prefix: n }).holds(Ip::V4(a)),
{
    vstd::arithmetic::power2::lemma2_to64();
    assert(pow2(0) == 1);
    assert(a as nat / 1 == a);
    assert(b as nat / 1 == b);
    assert(x as nat / 1 == x);
    assert(y as nat / 1 == y);
    assert(pow2(32) == 0x1_0000_0000);
    assert(a as nat / 0x1_0000_0000 == 0);
    assert(b as nat / 0x1_0000_0000 == 0);
}

/// An address alone is the network of itself.
pub proof fn law_addresses_are_networks(s: Seq<char>, n: Network, a: u32, x: u128)
    ensures
        parsed_cidr(s) == Some(n) ==> network_of(s) == Some(n),
        parsed_cidr(s) is None && parsed_ip(s) == Some(Ip::V4(a)) ==> network_of(s) == Some(
            Network { address: Ip::V4(a), prefix: 32 },
        ),
        parsed_cidr(s) is None && parsed_ip(s) == Some(Ip::V6(x)) ==> network_of(s) == Some(
            Network { address: Ip::V6(x), prefix: 128 },
        ),
        parsed_cidr(s) is None && parsed_ip(s) is None ==> network_of(s) is None,
{
}

/// The text of an address is the address and the port; one of the newer kind stands in brackets.
pub proof fn law_sockets_are_written(a: u32, x: u128, port: u16)
    ensures
        socket_text(Socket { ip: Ip::V4(a), scope: 0, port }) == ip_text(Ip::V4(a)) + ":"@ + text::decimal(
            port as nat,
        ),
        socket_text(Socket { ip: Ip::V6(x), scope: 0, port }) == "["@ + ip_text(Ip::V6(x)) + "]:"@
            + text::decimal(port as nat),
{
}

proof fn lemma_last_colon(s: Seq<char>, p: int)
    requires
        -1 <= p < s.len(),
        p >= 0 ==> s[p] == ':',
        forall|i: int| p < i < s.len() ==> s[i] != ':',
    ensures
        text::last_position(s, ':') == p,
    decreases s.len(),
{
    if s.len() > 0 && p < s.len() - 1 {
        assert(s[s.len() - 1] != ':');
        let t = s.drop_last();
        assert(forall|i: int| p < i < t.len() ==> t[i] == s[i]);
        lemma_last_colon(t, p);
    }
}

/// An address and a port are read as such.
pub proof fn law_sockets_are_read(h: Seq<char>, a: u32, x: u128, port: u16)
    ensures
        parsed_ip(h) == Some(Ip::V4(a)) && h.len() > 0 && h[0] != '[' ==> parsed_socket(
            h + seq![':'] + text::decimal(port as nat),
        ) == Some(Socket { ip: Ip::V4(a), scope: 0, port }),
        parsed_ip(h) == Some(Ip::V6(x)) && !h.contains('%') ==> parsed_socket(
            seq!['['] + h + seq![']', ':'] + text::decimal(port as nat),
        ) == Some(Socket { ip: Ip::V6(x), scope: 0, port }),
        !h.contains(':') ==> parsed_socket(h) is None,
{
    text::lemma_decimal_reads_back(port as nat);
    let d = text::decimal(port as nat);
    assert forall|i: int| 0 <= i < d.len() implies d[i] != ':' by {
        assert(text::spec_digit(d[i]));
    }
    let s = h + seq![':'] + d;
    assert forall|i: int| h.len() < i < s.len() implies s[i] != ':' by {
        assert(s[i] == d[i - h.len() - 1]);
    }
    lemma_last_colon(s, h.len() as int);
    assert(s.take(h.len() as int) =~= h);
    assert(s.skip(h.len() as int + 1) =~= d);
    let b = seq!['['] + h + seq![']'];
    let t = seq!['['] + h + seq![']', ':'] + d;
    assert(t[b.len() as int] == ':');
    assert forall|i: int| b.len() < i < t.len() implies t[i] != ':' by {
        assert(t[i] == d[i - b.len() - 1]);
    }
    lemma_last_colon(t, b.len() as int);
    assert(t.take(b.len() as int) =~= b);
    assert(t.skip(b.len() as int + 1) =~= d);
    assert(b.subrange(1, b.len() - 1) =~= h);
    if !h.contains('%') {
        assert forall|i: int| 0 <= i < h.len() implies h[i] != '%' by {
            assert(h.contains(h[i]));
        }
        text::lemma_position_is(h, '%', h.len() as int);
    }
    if !h.contains(':') {
        assert forall|i: int| 0 <= i < h.len() implies h[i] != ':' by {
            assert(h.contains(h[i]));
        }
        lemma_last_colon(h, -1);
    }
}

} // verus!

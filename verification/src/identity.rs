//! Whose request it is: the client's address behind trusted proxies, and access rules on it.
use crate::header;
use crate::header::{values, visible_text, Field, Headers};
use crate::net;
use crate::net::{Ip, Network};
use crate::text;
use crate::text::split_spec;
use vstd::prelude::*;

verus! {

pub const MAX_RULES: usize = 256;

pub const MAX_CHAIN_BYTES: usize = 8192;

pub const MAX_CHAIN: usize = 64;

/// Lets a network in or keeps it out; no network stands for every address.
#[derive(Clone, Copy, Debug)]
pub struct AccessRule {
    pub network: Option<Network>,
    pub allow: bool,
}

#[derive(Debug)]
pub struct IdentityPolicy {
    pub trusted: Vec<Network>,
    pub header: String,
    pub recursive: bool,
    pub access: Vec<AccessRule>,
}

#[derive(Clone, Copy, Debug, PartialEq, Eq, Structural)]
pub enum IdentityError {
    TooManyRules,
    InvalidHeaderName,
    ProxyProtocolWithoutTrustedProxy,
}

impl Default for IdentityPolicy {
    fn default() -> (r: Self)
        ensures
            r.trusted@.len() == 0,
            r.access@.len() == 0,
            r.header@ == "x-real-ip"@,
            !r.recursive,
    {
        IdentityPolicy {
            trusted: Vec::new(),
            header: "x-real-ip".to_owned(),
            recursive: false,
            access: Vec::new(),
        }
    }
}

pub open spec fn trusts_in(trusted: Seq<Network>, ip: Ip) -> bool {
    exists|i: int| 0 <= i < trusted.len() && (#[trigger] trusted[i]).holds(ip)
}

/// Whether a rule speaks of an address.
pub open spec fn rule_matches(r: AccessRule, ip: Ip) -> bool {
    match r.network {
        Some(n) => n.holds(ip),
        None => true,
    }
}

/// The first rule that speaks of an address decides; without one it is let in.
pub open spec fn allowed_by(rules: Seq<AccessRule>, ip: Ip) -> bool
    decreases rules.len(),
{
    if rules.len() == 0 {
        true
    } else if rule_matches(rules[0], ip) {
        rules[0].allow
    } else {
        allowed_by(rules.drop_first(), ip)
    }
}

/// The address that a hop names: bare, in brackets, or with a port.
pub open spec fn hop_address(s: Seq<char>) -> Option<Ip> {
    match net::parsed_ip(s) {
        Some(ip) => Some(ip),
        None => match net::parsed_socket(s) {
            Some(a) => Some(a.ip),
            None => if s.len() >= 2 && s[0] == '[' && s.last() == ']' {
                net::parsed_ip(s.subrange(1, s.len() - 1))
            } else {
                None
            },
        },
    }
}

/// A text without the quotes around it, where it has them on both sides.
pub open spec fn unquoted(s: Seq<char>) -> Seq<char> {
    if s.len() >= 2 && s[0] == '"' && s.last() == '"' {
        s.subrange(1, s.len() - 1)
    } else {
        s
    }
}

/// The values of the `for` parameters of an element of a `Forwarded` field.
pub open spec fn for_values(parts: Seq<Seq<char>>) -> Seq<Seq<char>>
    decreases parts.len(),
{
    if parts.len() == 0 {
        Seq::empty()
    } else {
        let before = for_values(parts.drop_last());
        match text::split_once_spec(text::trim_spec(parts.last()), '=') {
            Some((k, v)) => if text::lowercase(k) == text::lowercase("for"@) {
                before.push(v)
            } else {
                before
            },
            None => before,
        }
    }
}

/// The address that one element of the field names.
pub open spec fn hop_of(header: Seq<char>, hop: Seq<char>) -> Option<Ip> {
    if header == "forwarded"@ {
        let named = for_values(split_spec(hop, ';'));
        if named.len() == 1 {
            hop_address(unquoted(text::trim_spec(named[0])))
        } else {
            None
        }
    } else {
        hop_address(unquoted(text::trim_spec(hop)))
    }
}

/// The addresses of some elements; nothing where one of them names none.
pub open spec fn hops_of(header: Seq<char>, hops: Seq<Seq<char>>) -> Option<Seq<Ip>>
    decreases hops.len(),
{
    if hops.len() == 0 {
        Some(Seq::empty())
    } else {
        match (hops_of(header, hops.drop_last()), hop_of(header, hops.last())) {
            (Some(a), Some(ip)) => Some(a.push(ip)),
            _ => None,
        }
    }
}

pub open spec fn total_len(v: Seq<Seq<u8>>) -> nat
    decreases v.len(),
{
    if v.len() == 0 {
        0
    } else {
        total_len(v.drop_last()) + v.last().len()
    }
}

/// The addresses that the fields name, in order; nothing where a part of them is malformed.
pub open spec fn chain_of(header: Seq<char>, fields: Seq<Seq<u8>>) -> Option<Seq<Ip>>
    decreases fields.len(),
{
    if fields.len() == 0 {
        Some(Seq::empty())
    } else {
        match (chain_of(header, fields.drop_last()), visible_text(fields.last())) {
            (Some(a), Some(s)) => match hops_of(header, split_spec(s, ',')) {
                Some(b) => Some(a + b),
                None => None,
            },
            _ => None,
        }
    }
}

/// The chain where it is well formed and within the limits.
pub open spec fn accepted_chain(header: Seq<char>, fields: Seq<Seq<u8>>) -> Option<Seq<Ip>> {
    if total_len(fields) > MAX_CHAIN_BYTES {
        None
    } else {
        match chain_of(header, fields) {
            Some(c) => if c.len() <= MAX_CHAIN {
                Some(c)
            } else {
                None
            },
            None => None,
        }
    }
}

/// The address reached from `peer` by going back along the chain while each hop is trusted.
pub open spec fn walked(trusted: Seq<Network>, chain: Seq<Ip>, peer: Ip) -> Ip
    decreases chain.len(),
{
    if chain.len() == 0 || !trusts_in(trusted, peer) {
        peer
    } else {
        walked(trusted, chain.drop_last(), chain.last())
    }
}

impl IdentityPolicy {
    /// The networks of the policy have prefixes that fit their addresses.
    pub open spec fn valid_networks(&self) -> bool {
        &&& forall|i: int| 0 <= i < self.trusted@.len() ==> (#[trigger] self.trusted@[i]).valid()
        &&& forall|i: int|
            0 <= i < self.access@.len() && (#[trigger] self.access@[i]).network is Some
                ==> self.access@[i].network->0.valid()
    }

    /// The client that a request comes from, by its socket peer, the header fields and the address
    /// that the PROXY protocol gave.
    pub open spec fn resolved(&self, peer: Ip, fields: Seq<Field>, proxy: Option<Ip>) -> Ip {
        if !trusts_in(self.trusted@, peer) {
            peer
        } else if self.header@ == "proxy_protocol"@ {
            match proxy {
                Some(ip) => ip,
                None => peer,
            }
        } else {
            match accepted_chain(self.header@, values(fields, self.header@)) {
                None => peer,
                Some(chain) => if self.recursive {
                    walked(self.trusted@, chain, peer)
                } else if chain.len() > 0 {
                    chain.last()
                } else {
                    peer
                },
            }
        }
    }

    pub fn trusts(&self, ip: Ip) -> (r: bool)
        requires
            self.valid_networks(),
        ensures
            r == trusts_in(self.trusted@, ip),
    {
        let mut i: usize = 0;
        while i < self.trusted.len()
            invariant
                i <= self.trusted.len(),
                self.valid_networks(),
                forall|j: int| 0 <= j < i ==> !(#[trigger] self.trusted@[j]).holds(ip),
            decreases self.trusted.len() - i,
        {
            if self.trusted[i].contains(ip) {
                return true;
            }
            i += 1;
        }
        false
    }

    pub fn allows(&self, ip: Ip) -> (r: bool)
        requires
            self.valid_networks(),
        ensures
            r == allowed_by(self.access@, ip),
    {
        let mut i: usize = 0;
        assert(self.access@.skip(0) =~= self.access@);
        while i < self.access.len()
            invariant
                i <= self.access.len(),
                self.valid_networks(),
                allowed_by(self.access@.skip(i as int), ip) == allowed_by(self.access@, ip),
            decreases self.access.len() - i,
        {
            let rule = self.access[i];
            let hit = match rule.network {
                Some(n) => n.contains(ip),
                None => true,
            };
            if hit {
                return rule.allow;
            }
            assert(self.access@.skip(i as int).drop_first() =~= self.access@.skip(i + 1));
            i += 1;
        }
        true
    }

    pub fn validate(&self) -> (r: Result<(), IdentityError>)
        ensures
            r == self.validity(),
    {
        if !(self.trusted.len() <= MAX_RULES && self.access.len() <= MAX_RULES) {
            return Err(IdentityError::TooManyRules);
        }
        match header::name(self.header.as_str()) {
            Some(_) => Ok(()),
            None => Err(IdentityError::InvalidHeaderName),
        }
    }

    pub open spec fn validity(&self) -> Result<(), IdentityError> {
        if self.trusted@.len() > MAX_RULES || self.access@.len() > MAX_RULES {
            Err(IdentityError::TooManyRules)
        } else if !header::valid_name(self.header@) {
            Err(IdentityError::InvalidHeaderName)
        } else {
            Ok(())
        }
    }

    /// Only a trusted socket peer may assert another identity. A malformed chain is discarded as a
    /// whole, so it cannot bypass a trusted-hop boundary.
    pub fn resolve(&self, peer: Ip, headers: &Headers, proxy: Option<Ip>) -> (r: Ip)
        requires
            self.valid_networks(),
        ensures
            r == self.resolved(peer, headers.fields@, proxy),
    {
        if !self.trusts(peer) {
            return peer;
        }
        if text::same(self.header.as_str(), "proxy_protocol") {
            return match proxy {
                Some(ip) => ip,
                None => peer,
            };
        }
        let chain = match read_chain(
            self.header.as_str(),
            &headers.all(self.header.as_str()),
            Ghost(values(headers.fields@, self.header@)),
        ) {
            Some(c) => c,
            None => return peer,
        };
        if !self.recursive {
            return if chain.len() > 0 {
                chain[chain.len() - 1]
            } else {
                peer
            };
        }
        let mut selected = peer;
        let mut n: usize = chain.len();
        assert(chain@.take(n as int) =~= chain@);
        while n > 0 && self.trusts(selected)
            invariant
                n <= chain.len(),
                self.valid_networks(),
                walked(self.trusted@, chain@.take(n as int), selected) == walked(
                    self.trusted@,
                    chain@,
                    peer,
                ),
            decreases n,
        {
            assert(chain@.take(n as int).drop_last() =~= chain@.take(n - 1));
            selected = chain[n - 1];
            n -= 1;
        }
        selected
    }

    /// The scheme of a request: what a trusted peer says in one well-formed field, else by the
    /// connection.
    pub open spec fn scheme_of(&self, peer: Ip, fields: Seq<Field>, tls: bool) -> Seq<char> {
        let said = values(fields, "x-forwarded-proto"@);
        if trusts_in(self.trusted@, peer) && said.len() == 1 && (visible_text(said[0]) == Some(
            "http"@,
        ) || visible_text(said[0]) == Some("https"@)) {
            visible_text(said[0])->0
        } else if tls {
            "https"@
        } else {
            "http"@
        }
    }

    pub fn scheme(&self, peer: Ip, headers: &Headers, tls: bool) -> (r: &'static str)
        requires
            self.valid_networks(),
        ensures
            r@ == self.scheme_of(peer, headers.fields@, tls),
    {
        if self.trusts(peer) {
            let said = headers.all("x-forwarded-proto");
            if said.len() == 1 {
                match header::to_text(said[0]) {
                    Some(s) => {
                        if text::same(s.as_str(), "http") {
                            return "http";
                        }
                        if text::same(s.as_str(), "https") {
                            return "https";
                        }
                    },
                    None => {},
                }
            }
        }
        if tls {
            "https"
        } else {
            "http"
        }
    }
}

fn parse_address(value: &str) -> (r: Option<Ip>)
    ensures
        r == hop_address(value@),
{
    if let Some(ip) = net::parse_ip(value) {
        return Some(ip);
    }
    if let Some(a) = net::parse_socket(value) {
        return Some(a.ip);
    }
    let v = text::chars(value);
    if v.len() >= 2 && v[0] == '[' && v[v.len() - 1] == ']' {
        let inner = text::slice(&v, 1, v.len() - 1);
        net::parse_ip(inner.as_str())
    } else {
        None
    }
}

fn unquote(s: &str) -> (out: String)
    ensures
        out@ == unquoted(s@),
{
    let v = text::chars(s);
    if v.len() >= 2 && v[0] == '"' && v[v.len() - 1] == '"' {
        text::slice(&v, 1, v.len() - 1)
    } else {
        s.to_owned()
    }
}

fn read_hop(header: &str, hop: &str) -> (r: Option<Ip>)
    ensures
        r == hop_of(header@, hop@),
{
    if text::same(header, "forwarded") {
        let parts = text::split(hop, ';');
        let ghost all = text::texts(parts@);
        let mut named: Vec<String> = Vec::new();
        let mut i: usize = 0;
        while i < parts.len()
            invariant
                i <= parts.len(),
                all == text::texts(parts@),
                text::texts(named@) == for_values(all.take(i as int)),
            decreases parts.len() - i,
        {
            proof {
                assert(all.take(i + 1).drop_last() =~= all.take(i as int));
                assert(all.take(i + 1).last() == parts@[i as int]@);
            }
            let ghost before = text::texts(named@);
            match text::split_once(text::trim(parts[i].as_str()), '=') {
                Some((k, v)) => {
                    if text::same_ignoring_case(k.as_str(), "for") {
                        let ghost added = v@;
                        named.push(v);
                        assert(text::texts(named@) =~= before.push(added));
                    }
                },
                None => {},
            }
            i += 1;
        }
        assert(all.take(i as int) =~= all);
        assert(text::texts(named@).len() == named.len());
        if named.len() == 1 {
            assert(text::texts(named@)[0] == named@[0]@);
            parse_address(unquote(text::trim(named[0].as_str())).as_str())
        } else {
            None
        }
    } else {
        parse_address(unquote(text::trim(hop)).as_str())
    }
}

/// Nothing can be read of a list of elements when one at its front cannot.
proof fn lemma_hops_prefix(header: Seq<char>, hops: Seq<Seq<char>>, n: int)
    requires
        0 <= n <= hops.len(),
        hops_of(header, hops.take(n)) is None,
    ensures
        hops_of(header, hops) is None,
    decreases hops.len(),
{
    if n == hops.len() {
        assert(hops.take(n) =~= hops);
    } else {
        assert(hops.drop_last().take(n) =~= hops.take(n));
        lemma_hops_prefix(header, hops.drop_last(), n);
    }
}

proof fn lemma_hops_len(header: Seq<char>, hops: Seq<Seq<char>>)
    ensures
        hops_of(header, hops) is Some ==> hops_of(header, hops)->0.len() == hops.len(),
    decreases hops.len(),
{
    if hops.len() > 0 {
        lemma_hops_len(header, hops.drop_last());
    }
}

proof fn lemma_chain_prefix(header: Seq<char>, fields: Seq<Seq<u8>>, n: int)
    requires
        0 <= n <= fields.len(),
    ensures
        chain_of(header, fields.take(n)) is None ==> chain_of(header, fields) is None,
        chain_of(header, fields) is Some ==> chain_of(header, fields.take(n)) is Some
            && chain_of(header, fields.take(n))->0.len() <= chain_of(header, fields)->0.len(),
        total_len(fields.take(n)) <= total_len(fields),
    decreases fields.len(),
{
    if n == fields.len() {
        assert(fields.take(n) =~= fields);
    } else {
        assert(fields.drop_last().take(n) =~= fields.take(n));
        lemma_chain_prefix(header, fields.drop_last(), n);
    }
}

/// The addresses that one field value names, at most `room` of them.
fn read_hops(header: &str, value: &str, room: usize) -> (r: Option<Vec<Ip>>)
    ensures
        ({
            let spec = hops_of(header@, split_spec(value@, ','));
            match r {
                Some(v) => spec == Some(v@) && v@.len() <= room,
                None => spec is None || spec->0.len() > room,
            }
        }),
{
    let hops = text::split(value, ',');
    let ghost all = text::texts(hops@);
    let mut out: Vec<Ip> = Vec::new();
    let mut i: usize = 0;
    while i < hops.len()
        invariant
            i <= hops.len(),
            all == text::texts(hops@),
            all == split_spec(value@, ','),
            hops_of(header@, all.take(i as int)) == Some(out@),
            out@.len() == i,
            i <= room,
        decreases hops.len() - i,
    {
        proof {
            assert(all.take(i + 1).drop_last() =~= all.take(i as int));
            assert(all.take(i + 1).last() == hops@[i as int]@);
            lemma_hops_len(header@, all);
        }
        match read_hop(header, hops[i].as_str()) {
            Some(ip) => {
                out.push(ip);
            },
            None => {
                proof {
                    lemma_hops_prefix(header@, all, i + 1);
                }
                return None;
            },
        }
        if i == room {
            return None;
        }
        i += 1;
    }
    assert(all.take(i as int) =~= all);
    Some(out)
}

fn read_chain(header: &str, fields: &Vec<&Vec<u8>>, all: Ghost<Seq<Seq<u8>>>) -> (r: Option<
    Vec<Ip>,
>)
    requires
        fields@.len() == all@.len(),
        forall|i: int| 0 <= i < fields@.len() ==> (#[trigger] fields@[i])@ == all@[i],
    ensures
        match r {
            Some(v) => accepted_chain(header@, all@) == Some(v@),
            None => accepted_chain(header@, all@) is None,
        },
{
    let mut chain: Vec<Ip> = Vec::new();
    let mut bytes: usize = 0;
    let mut i: usize = 0;
    while i < fields.len()
        invariant
            i <= fields.len(),
            fields@.len() == all@.len(),
            forall|j: int| 0 <= j < fields@.len() ==> (#[trigger] fields@[j])@ == all@[j],
            chain_of(header@, all@.take(i as int)) == Some(chain@),
            chain@.len() <= MAX_CHAIN,
            bytes == total_len(all@.take(i as int)),
            bytes <= MAX_CHAIN_BYTES,
        decreases fields.len() - i,
    {
        proof {
            assert(all@.take(i + 1).drop_last() =~= all@.take(i as int));
            assert(all@.take(i + 1).last() == fields@[i as int]@);
            lemma_chain_prefix(header@, all@, i + 1);
        }
        let value = fields[i];
        if value.len() > MAX_CHAIN_BYTES - bytes {
            return None;
        }
        bytes += value.len();
        let s = match header::to_text(value) {
            Some(s) => s,
            None => return None,
        };
        match read_hops(header, s.as_str(), MAX_CHAIN - chain.len()) {
            Some(mut more) => {
                let ghost before = chain@;
                let ghost added = more@;
                chain.append(&mut more);
                assert(chain@ =~= before + added);
            },
            None => {
                return None;
            },
        }
        i += 1;
    }
    assert(all@.take(i as int) =~= all@);
    Some(chain)
}

/// How the proxy is told, when it starts, who may vouch for clients.
#[derive(Debug)]
pub struct Forwarding {
    pub trusted_proxy: Vec<Network>,
    pub real_ip_header: String,
    pub real_ip_recursive: bool,
    pub proxy_protocol: bool,
}

impl Forwarding {
    /// The policy that it amounts to.
    pub fn policy(&self) -> (r: Result<IdentityPolicy, IdentityError>)
        ensures
            match r {
                Ok(p) => {
                    &&& p.trusted@ == self.trusted_proxy@
                    &&& p.header@ == text::lowercase(self.real_ip_header@)
                    &&& p.recursive == self.real_ip_recursive
                    &&& p.access@ == Seq::<AccessRule>::empty()
                    &&& p.validity() is Ok
                    &&& !self.proxy_protocol || self.trusted_proxy@.len() > 0
                },
                Err(e) => e == if self.trusted_proxy@.len() > MAX_RULES {
                    IdentityError::TooManyRules
                } else if !header::valid_name(text::lowercase(self.real_ip_header@)) {
                    IdentityError::InvalidHeaderName
                } else {
                    IdentityError::ProxyProtocolWithoutTrustedProxy
                } && (self.trusted_proxy@.len() > MAX_RULES || !header::valid_name(
                    text::lowercase(self.real_ip_header@),
                ) || (self.proxy_protocol && self.trusted_proxy@.len() == 0)),
            },
    {
        let mut trusted: Vec<Network> = Vec::new();
        let mut i: usize = 0;
        while i < self.trusted_proxy.len()
            invariant
                i <= self.trusted_proxy.len(),
                trusted@ =~= self.trusted_proxy@.take(i as int),
            decreases self.trusted_proxy.len() - i,
        {
            trusted.push(self.trusted_proxy[i]);
            i += 1;
        }
        assert(self.trusted_proxy@.take(i as int) =~= self.trusted_proxy@);
        let policy = IdentityPolicy {
            trusted,
            header: text::to_lowercase(self.real_ip_header.as_str()),
            recursive: self.real_ip_recursive,
            access: Vec::new(),
        };
        match policy.validate() {
            Err(e) => return Err(e),
            Ok(_) => {},
        }
        if self.proxy_protocol && self.trusted_proxy.len() == 0 {
            return Err(IdentityError::ProxyProtocolWithoutTrustedProxy);
        }
        Ok(policy)
    }
}

// ---------------------------------------------------------------------------
// Laws
// ---------------------------------------------------------------------------

/// A peer that is not trusted is the client, whatever the request says.
pub proof fn law_untrusted_peers_are_the_client(
    policy: IdentityPolicy,
    peer: Ip,
    fields: Seq<Field>,
    proxy: Option<Ip>,
    tls: bool,
)
    requires
        !trusts_in(policy.trusted@, peer),
    ensures
        policy.resolved(peer, fields, proxy) == peer,
        policy.scheme_of(peer, fields, tls) == if tls {
            "https"@
        } else {
            "http"@
        },
{
}

/// The address at place `k` of a chain with the peer at its end.
pub open spec fn hop_at(chain: Seq<Ip>, peer: Ip, k: int) -> Ip {
    if k < chain.len() {
        chain[k]
    } else {
        peer
    }
}

/// The walk along a chain passes trusted hops only, and goes on until one is not trusted or the chain ends.
pub proof fn law_walks_pass_trusted_hops_only(trusted: Seq<Network>, chain: Seq<Ip>, peer: Ip)
    ensures
        exists|k: int|
            0 <= k <= chain.len() && walked(trusted, chain, peer) == #[trigger] hop_at(
                chain,
                peer,
                k,
            ) && (forall|j: int| k < j <= chain.len() ==> trusts_in(trusted, #[trigger] hop_at(chain, peer, j)))
                && (k > 0 ==> !trusts_in(trusted, hop_at(chain, peer, k))),
    decreases chain.len(),
{
    if chain.len() == 0 || !trusts_in(trusted, peer) {
        assert(hop_at(chain, peer, chain.len() as int) == peer);
    } else {
        let rest = chain.drop_last();
        let last = chain.last();
        law_walks_pass_trusted_hops_only(trusted, rest, last);
        let k = choose|k: int|
            0 <= k <= rest.len() && walked(trusted, rest, last) == #[trigger] hop_at(rest, last, k)
                && (forall|j: int|
                k < j <= rest.len() ==> trusts_in(trusted, #[trigger] hop_at(rest, last, j))) && (k
                > 0 ==> !trusts_in(trusted, hop_at(rest, last, k)));
        assert(hop_at(chain, peer, k) == hop_at(rest, last, k));
        assert forall|j: int| k < j <= chain.len() implies trusts_in(
            trusted,
            #[trigger] hop_at(chain, peer, j),
        ) by {
            if j < chain.len() {
                assert(hop_at(rest, last, j) == hop_at(chain, peer, j));
            }
        }
    }
}

/// The first rule that is for an address decides on it.
pub proof fn law_the_first_rule_decides(rules: Seq<AccessRule>, ip: Ip, k: int)
    requires
        0 <= k < rules.len(),
        rules[k].network matches Some(n) ==> n.holds(ip),
        forall|j: int|
            0 <= j < k ==> (#[trigger] rules[j]).network is Some && !rules[j].network->0.holds(ip),
    ensures
        allowed_by(rules, ip) == rules[k].allow,
    decreases k,
{
    if k > 0 {
        assert(rules[0].network is Some);
        let rest = rules.drop_first();
        assert forall|j: int| 0 <= j < k - 1 implies (#[trigger] rest[j]).network is Some
            && !rest[j].network->0.holds(ip) by {
            assert(rules[j + 1].network is Some);
        }
        law_the_first_rule_decides(rest, ip, k - 1);
    }
}

/// An address that no rule is for is let in.
pub proof fn law_addresses_without_a_rule_are_let_in(rules: Seq<AccessRule>, ip: Ip)
    requires
        forall|j: int|
            0 <= j < rules.len() ==> (#[trigger] rules[j]).network is Some && !rules[j].network->0.holds(
                ip,
            ),
    ensures
        allowed_by(rules, ip),
    decreases rules.len(),
{
    if rules.len() > 0 {
        assert(rules[0].network is Some);
        let rest = rules.drop_first();
        assert forall|j: int| 0 <= j < rest.len() implies (#[trigger] rest[j]).network is Some
            && !rest[j].network->0.holds(ip) by {
            assert(rules[j + 1].network is Some);
        }
        law_addresses_without_a_rule_are_let_in(rest, ip);
    }
}

/// Behind a trusted peer the client is the last address of the chain, and with the recursive walk the last
/// one that is not trusted itself; a chain that cannot be read leaves the peer.
pub proof fn law_trusted_peers_name_the_client(
    policy: IdentityPolicy,
    peer: Ip,
    fields: Seq<Field>,
    proxy: Option<Ip>,
    chain: Seq<Ip>,
)
    requires
        trusts_in(policy.trusted@, peer),
        policy.header@ != "proxy_protocol"@,
    ensures
        accepted_chain(policy.header@, values(fields, policy.header@)) is None ==> policy.resolved(
            peer,
            fields,
            proxy,
        ) == peer,
        accepted_chain(policy.header@, values(fields, policy.header@)) == Some(chain) && chain.len() > 0
            && !policy.recursive ==> policy.resolved(peer, fields, proxy) == chain.last(),
        accepted_chain(policy.header@, values(fields, policy.header@)) == Some(chain) && chain.len() > 0
            && policy.recursive && !trusts_in(policy.trusted@, chain.last()) ==> policy.resolved(
            peer,
            fields,
            proxy,
        ) == chain.last(),
        accepted_chain(policy.header@, values(fields, policy.header@)) == Some(chain) && chain.len() == 0
            ==> policy.resolved(peer, fields, proxy) == peer,
{
    if chain.len() > 0 {
        reveal_with_fuel(walked, 3);
    }
}

/// The walk goes on over a hop that is trusted to the one before it.
pub proof fn law_walks_go_over_trusted_hops(trusted: Seq<Network>, chain: Seq<Ip>, last: Ip, peer: Ip)
    requires
        trusts_in(trusted, peer),
    ensures
        walked(trusted, chain.push(last), peer) == walked(trusted, chain, last),
{
    assert(chain.push(last).drop_last() =~= chain);
}

/// Behind a trusted proxy that speaks the proxy protocol the client is the address that it names.
pub proof fn law_proxies_name_the_client(policy: IdentityPolicy, peer: Ip, fields: Seq<Field>, client: Ip)
    requires
        trusts_in(policy.trusted@, peer),
        policy.header@ == "proxy_protocol"@,
    ensures
        policy.resolved(peer, fields, Some(client)) == client,
        policy.resolved(peer, fields, None) == peer,
{
}

/// A trusted peer may say which scheme a client used; two words, or another word, say nothing.
pub proof fn law_trusted_peers_name_the_scheme(policy: IdentityPolicy, peer: Ip, fields: Seq<Field>, tls: bool)
    requires
        trusts_in(policy.trusted@, peer),
    ensures
        ({
            let said = values(fields, "x-forwarded-proto"@);
            let own = if tls {
                "https"@
            } else {
                "http"@
            };
            &&& said.len() == 1 && visible_text(said[0]) == Some("https"@) ==> policy.scheme_of(
                peer,
                fields,
                tls,
            ) == "https"@
            &&& said.len() == 1 && visible_text(said[0]) == Some("http"@) ==> policy.scheme_of(
                peer,
                fields,
                tls,
            ) == "http"@
            &&& said.len() != 1 ==> policy.scheme_of(peer, fields, tls) == own
        }),
{
}

/// A chain is read hop by hop, in the order in which it is written; one hop that is no address spoils it.
pub proof fn law_chains_are_read_in_order(header: Seq<char>, hops: Seq<Seq<char>>)
    ensures
        hops_of(header, hops) is Some <==> forall|i: int|
            0 <= i < hops.len() ==> hop_of(header, #[trigger] hops[i]) is Some,
        hops_of(header, hops) is Some ==> hops_of(header, hops)->0.len() == hops.len() && forall|i: int|
            0 <= i < hops.len() ==> Some(#[trigger] hops_of(header, hops)->0[i]) == hop_of(
                header,
                hops[i],
            ),
    decreases hops.len(),
{
    if hops.len() > 0 {
        let rest = hops.drop_last();
        law_chains_are_read_in_order(header, rest);
        assert(forall|i: int| 0 <= i < rest.len() ==> rest[i] == hops[i]);
        if hops_of(header, hops) is Some {
            assert forall|i: int| 0 <= i < hops.len() implies hop_of(header, #[trigger] hops[i]) is Some by {
                if i < rest.len() {
                    assert(hop_of(header, rest[i]) is Some);
                }
            }
        }
        if forall|i: int| 0 <= i < hops.len() ==> hop_of(header, #[trigger] hops[i]) is Some {
            assert(hop_of(header, hops[hops.len() - 1]) is Some);
            assert forall|i: int| 0 <= i < rest.len() implies hop_of(header, #[trigger] rest[i]) is Some by {
                assert(hop_of(header, hops[i]) is Some);
            }
        }
    }
}

/// A plain address is a hop, with or without quotes around it.
pub proof fn law_addresses_are_hops(header: Seq<char>, s: Seq<char>)
    requires
        header != "forwarded"@,
        net::parsed_ip(s) is Some,
        text::trim_spec(s) == s,
        text::trim_spec(seq!['"'] + s + seq!['"']) == seq!['"'] + s + seq!['"'],
        s.len() > 0 && s[0] != '"',
    ensures
        hop_of(header, s) == net::parsed_ip(s),
        hop_of(header, seq!['"'] + s + seq!['"']) == net::parsed_ip(s),
{
    let q = seq!['"'] + s + seq!['"'];
    assert(q.subrange(1, q.len() - 1) =~= s);
}

/// Quotes around a value are taken off, and only where they stand on both sides.
pub proof fn law_quotes_are_taken_off(s: Seq<char>)
    ensures
        unquoted(seq!['"'] + s + seq!['"']) == s,
        s.len() > 0 && s[0] != '"' ==> unquoted(s) == s,
        s.len() > 0 && s.last() != '"' ==> unquoted(s) == s,
{
    let q = seq!['"'] + s + seq!['"'];
    assert(q.subrange(1, q.len() - 1) =~= s);
}

/// A policy with too many rules is refused, as is one that reads a field whose name is none.
pub proof fn law_policies_are_checked(p: IdentityPolicy)
    ensures
        p.trusted@.len() > MAX_RULES ==> p.validity() == Err::<(), IdentityError>(IdentityError::TooManyRules),
        p.access@.len() > MAX_RULES ==> p.validity() == Err::<(), IdentityError>(IdentityError::TooManyRules),
        p.trusted@.len() <= MAX_RULES && p.access@.len() <= MAX_RULES && !header::valid_name(p.header@) ==> p.validity()
            == Err::<(), IdentityError>(IdentityError::InvalidHeaderName),
        p.trusted@.len() <= MAX_RULES && p.access@.len() <= MAX_RULES && header::valid_name(p.header@)
            ==> p.validity() is Ok,
{
}

} // verus!

//! URLs as the `url` crate reads them, and request targets.
use crate::net;
use crate::text;
use vstd::prelude::*;

verus! {

/// The parts of a URL.
#[derive(Debug)]
pub struct Url {
    pub scheme: String,
    pub username: String,
    pub password: Option<String>,
    /// The host as it is written, an address of the newer family in brackets.
    pub host_text: Option<String>,
    pub port: Option<u16>,
    /// The port, or the usual one of the scheme.
    pub known_port: Option<u16>,
    pub path: String,
    pub query: Option<String>,
    pub fragment: Option<String>,
    /// The host and, where it is not the usual one, the port.
    pub authority: String,
    /// All of it, as it is written.
    pub whole: String,
}

/// What a `Url` holds.
#[verifier::ext_equal]
pub ghost struct Parts {
    pub scheme: Seq<char>,
    pub username: Seq<char>,
    pub password: Option<Seq<char>>,
    pub host_text: Option<Seq<char>>,
    pub port: Option<u16>,
    pub known_port: Option<u16>,
    pub path: Seq<char>,
    pub query: Option<Seq<char>>,
    pub fragment: Option<Seq<char>>,
    pub authority: Seq<char>,
    pub whole: Seq<char>,
}

impl View for Url {
    type V = Parts;

    open spec fn view(&self) -> Parts {
        Parts {
            scheme: self.scheme@,
            username: self.username@,
            password: text::opt(self.password),
            host_text: text::opt(self.host_text),
            port: self.port,
            known_port: self.known_port,
            path: self.path@,
            query: text::opt(self.query),
            fragment: text::opt(self.fragment),
            authority: self.authority@,
            whole: self.whole@,
        }
    }
}

pub open spec fn url_view(u: Option<Url>) -> Option<Parts> {
    match u {
        Some(u) => Some(u@),
        None => None,
    }
}

/// What the `url` crate makes of a text.
pub uninterp spec fn parsed_url(s: Seq<char>) -> Option<Parts>;

/// `Url::parse` of the `url` crate, and the accessors of what it gives.
#[verifier::external_body]
pub(crate) fn parse(s: &str) -> (r: Option<Url>)
    ensures
        url_view(r) == parsed_url(s@),
{
    let u = url::Url::parse(s).ok()?;
    let owned = |s: &str| s.to_owned();
    let (scheme, username, password) = (owned(u.scheme()), owned(u.username()), u.password().map(owned));
    let (path, query, fragment) = (owned(u.path()), u.query().map(owned), u.fragment().map(owned));
    let authority = owned(&u[url::Position::BeforeHost..url::Position::AfterPort]);
    Some(Url {
        host_text: u.host_str().map(owned),
        port: u.port(),
        known_port: u.port_or_known_default(),
        whole: owned(u.as_str()),
        scheme, username, password, path, query, fragment, authority,
    })
}

/// What a URL is written as once it has another path.
pub uninterp spec fn url_with_path(s: Seq<char>, path: Seq<char>) -> Option<Seq<char>>;

/// The longest URL, and the longest path, that another path is set for and to.
pub const MAX_URL: usize = 268435456;

/// `Url::parse` of the `url` crate, `Url::set_path` on what it gives, and that as it is written: there is
/// something where the text is a URL. Where a URL gets longer than four gigabytes, `set_path` panics.
#[verifier::external_body]
pub(crate) fn set_path(s: &str, path: &str) -> (r: Option<String>)
    requires
        text::byte_len(s@) <= MAX_URL,
        text::byte_len(path@) <= MAX_URL,
    ensures
        text::opt(r) == url_with_path(s@, path@),
        r is Some <==> parsed_url(s@) is Some,
{
    let mut u = url::Url::parse(s).ok()?;
    u.set_path(path);
    Some(String::from(u))
}

/// A host as it is written, without the brackets of an address, which is written anew.
pub open spec fn plain_host(s: Seq<char>) -> Seq<char> {
    if s.len() >= 2 && s[0] == '[' && s.last() == ']' {
        let inner = s.subrange(1, s.len() - 1);
        match net::parsed_ip(inner) {
            Some(ip) => net::ip_text(ip),
            None => inner,
        }
    } else {
        s
    }
}

impl Parts {
    /// The host: a name, or an address without brackets.
    pub open spec fn host(self) -> Option<Seq<char>> {
        match self.host_text {
            Some(s) => Some(plain_host(s)),
            None => None,
        }
    }
}

impl Url {
    /// The host: a name, or an address without brackets.
    pub fn host(&self) -> (r: Option<String>)
        ensures
            text::opt(r) == self@.host(),
    {
        let s = match &self.host_text {
            None => return None,
            Some(s) => s,
        };
        let v = text::chars(s.as_str());
        let n = v.len();
        if n >= 2 && v[0] == '[' && v[n - 1] == ']' {
            let inner = text::slice(&v, 1, n - 1);
            assert(inner@ =~= s@.subrange(1, s@.len() - 1));
            match net::parse_ip(inner.as_str()) {
                Some(ip) => Some(net::ip_string(ip)),
                None => Some(inner),
            }
        } else {
            Some(s.clone())
        }
    }
}

/// The host of an authority, as the `http` crate reads it; nothing where it is none.
pub uninterp spec fn authority_host(s: Seq<char>) -> Option<Seq<char>>;

/// `str::parse` for `http::uri::Authority`, and its `host`.
#[verifier::external_body]
pub(crate) fn parse_authority(s: &str) -> (r: Option<String>)
    ensures
        text::opt(r) == authority_host(s@),
{
    s.parse::<http::uri::Authority>().ok().map(|a| a.host().to_owned())
}

/// An address as the `http` crate reads it: its path and query, where it has one.
pub uninterp spec fn read_uri(s: Seq<char>) -> Option<Option<Seq<char>>>;

pub open spec fn opt_opt(v: Option<Option<String>>) -> Option<Option<Seq<char>>> {
    match v {
        Some(t) => Some(text::opt(t)),
        None => None,
    }
}

/// `str::parse` for `http::Uri`, and its `path_and_query`.
#[verifier::external_body]
pub(crate) fn parse_uri(s: &str) -> (r: Option<Option<String>>)
    ensures
        opt_opt(r) == read_uri(s@),
{
    s.parse::<http::Uri>().ok().map(|u| u.path_and_query().map(|p| p.as_str().to_owned()))
}

/// The path and query of an address; nothing where it is no address or has none.
pub open spec fn uri_target(s: Seq<char>) -> Option<Seq<char>> {
    match read_uri(s) {
        Some(t) => t,
        None => None,
    }
}

pub fn target(s: &str) -> (r: Option<String>)
    ensures
        text::opt(r) == uri_target(s@),
{
    match parse_uri(s) {
        Some(t) => t,
        None => None,
    }
}

/// The host of a URL is as it is written, without the brackets of an address.
pub proof fn law_hosts_stand_without_brackets(s: Seq<char>, ip: net::Ip)
    ensures
        s.len() > 0 && s[0] != '[' ==> plain_host(s) == s,
        net::parsed_ip(s) == Some(ip) ==> plain_host(seq!['['] + s + seq![']']) == net::ip_text(ip),
        net::parsed_ip(s) is None ==> plain_host(seq!['['] + s + seq![']']) == s,
{
    let b = seq!['['] + s + seq![']'];
    assert(b.subrange(1, b.len() - 1) =~= s);
}

} // verus!

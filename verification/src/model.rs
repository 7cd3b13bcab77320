//! Routes: what they match, what they do, and how hosts and certificates are chosen.
use crate::text;
use vstd::prelude::*;

verus! {

/// The paths that a route answers.
#[derive(Debug)]
pub enum PathMatch {
    /// The path itself.
    Exact(String),
    /// Every path that begins with the text.
    NginxPrefix(String),
    /// The path and those below it, by segments.
    IngressPrefix(String),
    /// Every path, after all others.
    IngressDefault,
}

/// What a `PathMatch` holds.
#[verifier::ext_equal]
pub ghost enum Matcher {
    Exact(Seq<char>),
    NginxPrefix(Seq<char>),
    IngressPrefix(Seq<char>),
    IngressDefault,
}

impl View for PathMatch {
    type V = Matcher;

    open spec fn view(&self) -> Matcher {
        match self {
            PathMatch::Exact(p) => Matcher::Exact(p@),
            PathMatch::NginxPrefix(p) => Matcher::NginxPrefix(p@),
            PathMatch::IngressPrefix(p) => Matcher::IngressPrefix(p@),
            PathMatch::IngressDefault => Matcher::IngressDefault,
        }
    }
}

/// Whether `path` is `p` or lies below it; a `/` at the end of `p` does not count.
pub open spec fn below(p: Seq<char>, path: Seq<char>) -> bool {
    let base = text::trim_end_char_spec(p, '/');
    base.len() == 0 || path == base || (text::starts(path, base) && path.len() > base.len()
        && path[base.len() as int] == '/')
}

impl Matcher {
    pub open spec fn path(self) -> Seq<char> {
        match self {
            Matcher::Exact(p) => p,
            Matcher::NginxPrefix(p) => p,
            Matcher::IngressPrefix(p) => p,
            Matcher::IngressDefault => "/"@,
        }
    }

    pub open spec fn matches(self, path: Seq<char>) -> bool {
        match self {
            Matcher::Exact(p) => path == p,
            Matcher::NginxPrefix(p) => text::starts(path, p),
            Matcher::IngressPrefix(p) => below(p, path),
            Matcher::IngressDefault => true,
        }
    }

    /// Longer paths come first, exact ones before prefixes.
    pub open spec fn rank(self) -> (nat, bool) {
        match self {
            Matcher::IngressDefault => (0, false),
            _ => (text::byte_len(self.path()), self is Exact),
        }
    }
}

/// Whether `path` lies below `p`, segment by segment.
pub fn is_below(p: &str, path: &str) -> (r: bool)
    ensures
        r == below(p@, path@),
{
    let base = text::trim_end_char(p, '/');
    if base.is_empty() || text::same(path, base) {
        return true;
    }
    let n = base.unicode_len();
    text::starts_with(path, base) && path.unicode_len() > n && path.get_char(n) == '/'
}

impl PathMatch {
    pub fn path(&self) -> (r: &str)
        ensures
            r@ == self@.path(),
    {
        match self {
            PathMatch::Exact(p) => p.as_str(),
            PathMatch::NginxPrefix(p) => p.as_str(),
            PathMatch::IngressPrefix(p) => p.as_str(),
            PathMatch::IngressDefault => "/",
        }
    }

    pub fn matches(&self, path: &str) -> (r: bool)
        ensures
            r == self@.matches(path@),
    {
        match self {
            PathMatch::Exact(p) => text::same(path, p.as_str()),
            PathMatch::NginxPrefix(p) => text::starts_with(path, p.as_str()),
            PathMatch::IngressPrefix(p) => is_below(p.as_str(), path),
            PathMatch::IngressDefault => true,
        }
    }

    pub fn rank(&self) -> (r: (usize, bool))
        ensures
            (r.0 as nat, r.1) == self@.rank(),
    {
        match self {
            PathMatch::IngressDefault => (0, false),
            PathMatch::Exact(p) => (text::len(p.as_str()), true),
            PathMatch::NginxPrefix(p) => (text::len(p.as_str()), false),
            PathMatch::IngressPrefix(p) => (text::len(p.as_str()), false),
        }
    }

    /// The same matcher again.
    pub fn copy(&self) -> (r: PathMatch)
        ensures
            r@ == self@,
    {
        match self {
            PathMatch::Exact(p) => PathMatch::Exact(p.clone()),
            PathMatch::NginxPrefix(p) => PathMatch::NginxPrefix(p.clone()),
            PathMatch::IngressPrefix(p) => PathMatch::IngressPrefix(p.clone()),
            PathMatch::IngressDefault => PathMatch::IngressDefault,
        }
    }

    pub fn same(&self, other: &PathMatch) -> (r: bool)
        ensures
            r == (self@ == other@),
    {
        match (self, other) {
            (PathMatch::Exact(a), PathMatch::Exact(b)) => text::same(a.as_str(), b.as_str()),
            (PathMatch::NginxPrefix(a), PathMatch::NginxPrefix(b)) => text::same(
                a.as_str(),
                b.as_str(),
            ),
            (PathMatch::IngressPrefix(a), PathMatch::IngressPrefix(b)) => text::same(
                a.as_str(),
                b.as_str(),
            ),
            (PathMatch::IngressDefault, PathMatch::IngressDefault) => true,
            _ => false,
        }
    }
}

/// What a route does with a request.
#[derive(Debug)]
pub enum Action {
    Proxy { backend: String, uri: Option<String> },
    Static,
    Return { status: u16, text: String },
    Unavailable,
}

/// What an `Action` holds.
#[verifier::ext_equal]
pub ghost enum Deed {
    Proxy { backend: Seq<char>, uri: Option<Seq<char>> },
    Static,
    Return { status: u16, text: Seq<char> },
    Unavailable,
}

impl View for Action {
    type V = Deed;

    open spec fn view(&self) -> Deed {
        match self {
            Action::Proxy { backend, uri } => Deed::Proxy {
                backend: backend@,
                uri: text::opt(*uri),
            },
            Action::Static => Deed::Static,
            Action::Return { status, text } => Deed::Return { status: *status, text: text@ },
            Action::Unavailable => Deed::Unavailable,
        }
    }
}

pub fn copy_opt(s: &Option<String>) -> (r: Option<String>)
    ensures
        text::opt(r) == text::opt(*s),
{
    match s {
        Some(s) => Some(s.clone()),
        None => None,
    }
}

impl Action {
    /// The same action again.
    pub fn copy(&self) -> (r: Action)
        ensures
            r@ == self@,
    {
        match self {
            Action::Proxy { backend, uri } => Action::Proxy {
                backend: backend.clone(),
                uri: copy_opt(uri),
            },
            Action::Static => Action::Static,
            Action::Return { status, text } => Action::Return {
                status: *status,
                text: text.clone(),
            },
            Action::Unavailable => Action::Unavailable,
        }
    }
}

/// A field that is added to responses: to successful ones, or to all.
#[derive(Debug)]
pub struct AddedHeader {
    pub name: String,
    pub value: String,
    pub always: bool,
}

#[verifier::ext_equal]
pub ghost struct Added {
    pub name: Seq<char>,
    pub value: Seq<char>,
    pub always: bool,
}

impl View for AddedHeader {
    type V = Added;

    open spec fn view(&self) -> Added {
        Added { name: self.name@, value: self.value@, always: self.always }
    }
}

// ---------------------------------------------------------------------------
// Hosts
// ---------------------------------------------------------------------------

/// The suffix of a pattern that begins with `*.`.
pub open spec fn wildcard_suffix(pattern: Seq<char>) -> Option<Seq<char>> {
    if pattern.len() >= 2 && pattern[0] == '*' && pattern[1] == '.' {
        Some(pattern.skip(2))
    } else {
        None
    }
}

/// The part of `host` before `.` and `suffix`.
pub open spec fn before_suffix(host: Seq<char>, suffix: Seq<char>) -> Option<Seq<char>> {
    if text::ends(host, suffix) && host.len() > suffix.len() && host[host.len() - suffix.len() - 1]
        == '.' {
        Some(host.take(host.len() - suffix.len() - 1))
    } else {
        None
    }
}

/// How well a pattern fits a host name; nothing where it does not.
///
/// The name itself fits best, then the longest wildcard. An Ingress wildcard stands for exactly one
/// label, and an Ingress without a host fits every name.
pub open spec fn host_fit(pattern: Seq<char>, host: Seq<char>, ingress: bool) -> Option<nat> {
    if pattern == host {
        Some(usize::MAX as nat)
    } else if pattern.len() == 0 && ingress {
        Some(0)
    } else {
        match wildcard_suffix(pattern) {
            None => None,
            Some(suffix) => match before_suffix(host, suffix) {
                None => None,
                Some(prefix) => if prefix.len() == 0 || (ingress && prefix.contains('.')) {
                    None
                } else {
                    Some(text::byte_len(suffix) + 1)
                },
            },
        }
    }
}

/// The part of `host` before `.` and `suffix`.
pub fn split_suffix<'a>(host: &'a str, suffix: &str) -> (r: Option<&'a str>)
    ensures
        match r {
            Some(p) => before_suffix(host@, suffix@) == Some(p@),
            None => before_suffix(host@, suffix@) is None,
        },
{
    if !text::ends_with(host, suffix) {
        return None;
    }
    let n = host.unicode_len();
    let m = suffix.unicode_len();
    if n > m && host.get_char(n - m - 1) == '.' {
        let p = host.substring_char(0, n - m - 1);
        assert(p@ =~= host@.take(n - m - 1));
        Some(p)
    } else {
        None
    }
}

pub fn strip_wildcard<'a>(pattern: &'a str) -> (r: Option<&'a str>)
    ensures
        match r {
            Some(s) => wildcard_suffix(pattern@) == Some(s@),
            None => wildcard_suffix(pattern@) is None,
        },
{
    let n = pattern.unicode_len();
    if n >= 2 && pattern.get_char(0) == '*' && pattern.get_char(1) == '.' {
        let s = pattern.substring_char(2, n);
        assert(s@ =~= pattern@.skip(2));
        Some(s)
    } else {
        None
    }
}

pub fn host_rank(pattern: &str, host: &str, ingress: bool) -> (r: Option<usize>)
    ensures
        match r {
            Some(n) => host_fit(pattern@, host@, ingress) == Some(n as nat),
            None => host_fit(pattern@, host@, ingress) is None,
        },
{
    if text::same(pattern, host) {
        return Some(usize::MAX);
    }
    if pattern.is_empty() && ingress {
        return Some(0);
    }
    let suffix = match strip_wildcard(pattern) {
        Some(s) => s,
        None => return None,
    };
    let prefix = match split_suffix(host, suffix) {
        Some(p) => p,
        None => return None,
    };
    if prefix.is_empty() || (ingress && text::has_char(prefix, '.')) {
        return None;
    }
    let n = text::len(pattern);
    proof {
        text::lemma_byte_len_first(pattern@);
        text::lemma_byte_len_first(pattern@.drop_first());
        assert(pattern@.drop_first().drop_first() =~= suffix@);
    }
    Some(text::len(suffix) + 1)
}

/// A certificate's claim on a host name at a listener.
#[derive(Debug)]
pub struct TlsHost {
    pub listener: crate::net::Socket,
    pub name: String,
    pub ingress: bool,
    pub default: bool,
    /// The index of the certificate; without one the claim stands and nothing else is offered.
    pub certificate: Option<usize>,
}

/// How well a claim fits a name at a listener.
pub open spec fn claim_fit(h: TlsHost, listener: crate::net::Socket, host: Seq<char>) -> Option<
    nat,
> {
    if h.listener != listener {
        None
    } else {
        match host_fit(h.name@, text::lowercase(host), h.ingress) {
            Some(n) => Some(n),
            None => if h.default {
                Some(0)
            } else {
                None
            },
        }
    }
}

/// Whether `i` is the first of the claims that fit best.
pub open spec fn best_claim(
    v: Seq<TlsHost>,
    listener: crate::net::Socket,
    host: Seq<char>,
    i: int,
) -> bool {
    &&& 0 <= i < v.len()
    &&& claim_fit(v[i], listener, host) is Some
    &&& forall|j: int|
        0 <= j < v.len() && claim_fit(#[trigger] v[j], listener, host) is Some ==> {
            &&& claim_fit(v[j], listener, host)->0 <= claim_fit(v[i], listener, host)->0
            &&& j < i ==> claim_fit(v[j], listener, host)->0 < claim_fit(v[i], listener, host)->0
        }
}

/// The claim that answers for a name at a listener: the best fit, and the first of equals.
pub fn tls_host(v: &Vec<TlsHost>, listener: crate::net::Socket, host: &str) -> (r: Option<usize>)
    ensures
        match r {
            Some(i) => best_claim(v@, listener, host@, i as int),
            None => forall|j: int|
                0 <= j < v@.len() ==> claim_fit(#[trigger] v@[j], listener, host@) is None,
        },
{
    let name = text::to_lowercase(host);
    let mut best: Option<(usize, usize)> = None;
    let mut i: usize = 0;
    while i < v.len()
        invariant
            i <= v.len(),
            name@ == text::lowercase(host@),
            match best {
                Some((b, n)) => b < i && best_claim(v@.take(i as int), listener, host@, b as int)
                    && claim_fit(v@[b as int], listener, host@) == Some(n as nat),
                None => forall|j: int|
                    0 <= j < i ==> claim_fit(#[trigger] v@[j], listener, host@) is None,
            },
        decreases v.len() - i,
    {
        let h = &v[i];
        let fit: Option<usize> = if h.listener == listener {
            match host_rank(h.name.as_str(), name.as_str(), h.ingress) {
                Some(n) => Some(n),
                None => if h.default {
                    Some(0)
                } else {
                    None
                },
            }
        } else {
            None
        };
        let ghost before = v@.take(i as int);
        let ghost now = v@.take(i + 1);
        proof {
            assert forall|j: int| 0 <= j < i implies before[j] == #[trigger] now[j] by {}
            assert(now[i as int] == v@[i as int]);
            assert forall|j: int| 0 <= j < i implies before[j] == #[trigger] v@[j] by {}
        }
        match (fit, best) {
            (Some(n), Some((b, m))) => {
                if n > m {
                    best = Some((i, n));
                }
            },
            (Some(n), None) => {
                best = Some((i, n));
            },
            _ => {},
        }
        i += 1;
    }
    assert(v@.take(i as int) =~= v@);
    match best {
        Some((b, _)) => Some(b),
        None => None,
    }
}

// ---------------------------------------------------------------------------
// Laws
// ---------------------------------------------------------------------------

/// An Ingress prefix ends at a segment: what it matches is the prefix itself or continues with `/`.
pub proof fn law_ingress_prefixes_end_at_segments(p: Seq<char>, path: Seq<char>)
    requires
        Matcher::IngressPrefix(p).matches(path),
    ensures
        ({
            let base = text::trim_end_char_spec(p, '/');
            base.len() == 0 || path == base || text::starts(path, base.push('/'))
        }),
{
    let base = text::trim_end_char_spec(p, '/');
    if base.len() != 0 && path != base {
        assert(path.take((base.len() + 1) as int) =~= base.push('/'));
    }
}

/// What an Ingress prefix matches, a plain prefix of the same text without a final `/` matches too.
pub proof fn law_ingress_prefixes_are_prefixes(p: Seq<char>, path: Seq<char>)
    requires
        Matcher::IngressPrefix(p).matches(path),
    ensures
        Matcher::NginxPrefix(text::trim_end_char_spec(p, '/')).matches(path),
{
    let base = text::trim_end_char_spec(p, '/');
    if base.len() == 0 {
        assert(path.take(0) =~= base);
    } else if path == base {
        assert(path.take(base.len() as int) =~= base);
    }
}

/// A wildcard never stands for the bare domain, and an Ingress wildcard for one label only.
pub proof fn law_wildcards_need_a_label(pattern: Seq<char>, host: Seq<char>, ingress: bool)
    requires
        wildcard_suffix(pattern) is Some,
        host != pattern,
        host_fit(pattern, host, ingress) is Some,
    ensures
        exists|label: Seq<char>|
            label.len() > 0 && (ingress ==> !label.contains('.')) && host == (#[trigger] (label
                + "."@)) + wildcard_suffix(pattern)->0,
{
    let suffix = wildcard_suffix(pattern)->0;
    let label = before_suffix(host, suffix)->0;
    reveal_strlit(".");
    assert(host =~= (label + "."@) + suffix) by {
        assert(host.skip(host.len() - suffix.len()) == suffix);
        assert forall|k: int| 0 <= k < host.len() implies host[k] == ((label + "."@) + suffix)[k] by {
            if k >= host.len() - suffix.len() {
                assert(host.skip(host.len() - suffix.len())[k - (host.len() - suffix.len())]
                    == host[k]);
            }
        }
    }
}

/// The name itself always fits better than any wildcard.
pub proof fn law_exact_names_win(pattern: Seq<char>, host: Seq<char>, ingress: bool)
    requires
        host_fit(pattern, host, ingress) is Some,
        text::byte_len(pattern) <= usize::MAX,
    ensures
        host_fit(host, host, ingress) == Some(usize::MAX as nat),
        host_fit(pattern, host, ingress)->0 <= usize::MAX,
        host_fit(pattern, host, ingress)->0 == usize::MAX ==> pattern == host,
{
    if pattern != host && pattern.len() > 0 {
        text::lemma_byte_len_first(pattern);
        text::lemma_byte_len_first(pattern.drop_first());
        assert(pattern.drop_first().drop_first() =~= wildcard_suffix(pattern)->0);
    }
}

/// An exact path is met by itself alone, a prefix by what begins with it, a path of an ingress by itself and by
/// what lies below it, and not by a longer last segment.
pub proof fn law_paths_are_met(p: Seq<char>, rest: Seq<char>, path: Seq<char>)
    ensures
        Matcher::Exact(p).matches(p),
        path != p ==> !Matcher::Exact(p).matches(path),
        Matcher::NginxPrefix(p).matches(p + rest),
        path.len() < p.len() ==> !Matcher::NginxPrefix(p).matches(path),
        p.len() > 0 && p.last() != '/' ==> {
            &&& Matcher::IngressPrefix(p).matches(p)
            &&& Matcher::IngressPrefix(p).matches(p + seq!['/'] + rest)
            &&& rest.len() > 0 && rest[0] != '/' ==> !Matcher::IngressPrefix(p).matches(p + rest)
            &&& path.len() < p.len() ==> !Matcher::IngressPrefix(p).matches(path)
        },
        Matcher::IngressDefault.matches(path),
{
    assert((p + rest).take(p.len() as int) =~= p);
    if p.len() > 0 && p.last() != '/' {
        assert(text::trim_end_char_spec(p, '/') == p);
        let q = p + seq!['/'] + rest;
        assert(q.take(p.len() as int) =~= p);
        assert(q[p.len() as int] == '/');
    }
}

/// A longer path stands before a shorter one, an exact one before a prefix of its length, and each before the
/// default.
pub proof fn law_longer_paths_rank_higher(p: Seq<char>, q: Seq<char>)
    ensures
        Matcher::Exact(p).rank() == (text::byte_len(p), true),
        Matcher::NginxPrefix(p).rank() == (text::byte_len(p), false),
        Matcher::IngressPrefix(p).rank() == (text::byte_len(p), false),
        Matcher::IngressDefault.rank() == (0nat, false),
{
}

/// A name fits itself best. A wildcard fits the names with one label more, those with several only outside of
/// ingresses, and never the name below which it stands; a longer one fits better. An empty name fits all hosts
/// of an ingress, least of all.
pub proof fn law_hosts_are_met(suffix: Seq<char>, label: Seq<char>, host: Seq<char>, ingress: bool)
    requires
        label.len() > 0,
        label[0] != '*',
    ensures
        host_fit(host, host, ingress) == Some(usize::MAX as nat),
        host.len() > 0 ==> host_fit(Seq::empty(), host, true) == Some(0nat),
        host.len() > 0 ==> host_fit(Seq::empty(), host, false) is None,
        !ingress || !label.contains('.') ==> host_fit(
            "*."@ + suffix,
            label + seq!['.'] + suffix,
            ingress,
        ) == Some(text::byte_len(suffix) + 1),
        ingress && label.contains('.') ==> host_fit(
            "*."@ + suffix,
            label + seq!['.'] + suffix,
            ingress,
        ) is None,
        host_fit("*."@ + suffix, suffix, ingress) is None,
        host.len() > 0 && host[0] != '*' && host != suffix ==> host_fit(host, suffix, ingress) is None,
{
    reveal_strlit("*.");
    let w = "*."@ + suffix;
    let h = label + seq!['.'] + suffix;
    assert(w.skip(2) =~= suffix);
    assert(h[0] == label[0]);
    assert(w[0] == '*');
    assert(h.skip(h.len() - suffix.len()) =~= suffix);
    assert(h.take(h.len() - suffix.len() - 1) =~= label);
    assert(w.len() == suffix.len() + 2);
}

/// A secure name is that of the listener that was asked, in any case; its best claim is given.
pub proof fn law_claims_are_of_their_listener(h: TlsHost, listener: crate::net::Socket, host: Seq<char>)
    ensures
        h.listener != listener ==> claim_fit(h, listener, host) is None,
        h.listener == listener && h.name@ == text::lowercase(host) ==> claim_fit(h, listener, host)
            == Some(usize::MAX as nat),
        h.listener == listener && h.default ==> claim_fit(h, listener, host) is Some,
        h.listener == listener && !h.default && host_fit(h.name@, text::lowercase(host), h.ingress) is None
            ==> claim_fit(h, listener, host) is None,
{
}

} // verus!

//! Gateway routes: what they match, how one is chosen, and what its filters do.
use crate::gateway::spec::{
    detour, fields, no_changes, substitute, Detour, FieldChanges, Filter, Headers, Match,
    PathModifier, Redirect, Replacement, Rewrite, Rule, Substitute,
};
use crate::header;
use crate::json::Json;
use crate::logging::access::{form_pairs, parse_form};
use crate::model;
use crate::model::{Matcher, PathMatch};
use crate::net::Socket;
use crate::proxy::paths::{encode_path, encoded};
use crate::proxy::planning::line_path;
use crate::script::{Request, RequestData};
use crate::tenancy;
use crate::text;
use vstd::prelude::*;
use vstd::utf8::encode_utf8;

verus! {

/// What the filters and the backends of a rule amount to.
#[derive(Debug)]
pub struct Policy {
    pub request_headers: Headers,
    pub response_headers: Headers,
    pub redirect: Option<Redirect>,
    pub rewrite: Option<Rewrite>,
    pub backends: Vec<(Option<String>, u32)>,
    pub listener_port: u16,
}

/// What a `Policy` holds.
#[verifier::ext_equal]
pub ghost struct Handling {
    pub request_headers: FieldChanges,
    pub response_headers: FieldChanges,
    pub redirect: Option<Detour>,
    pub rewrite: Option<Substitute>,
    pub backends: Seq<(Option<Seq<char>>, u32)>,
    pub listener_port: u16,
}

pub open spec fn weighted(v: Seq<(Option<String>, u32)>) -> Seq<(Option<Seq<char>>, u32)> {
    Seq::new(v.len(), |i: int| (text::opt(v[i].0), v[i].1))
}

impl View for Policy {
    type V = Handling;

    open spec fn view(&self) -> Handling {
        Handling {
            request_headers: self.request_headers@,
            response_headers: self.response_headers@,
            redirect: detour(self.redirect),
            rewrite: substitute(self.rewrite),
            backends: weighted(self.backends@),
            listener_port: self.listener_port,
        }
    }
}

pub open spec fn plain_handling(port: u16) -> Handling {
    Handling {
        request_headers: no_changes(),
        response_headers: no_changes(),
        redirect: None,
        rewrite: None,
        backends: Seq::empty(),
        listener_port: port,
    }
}

impl Default for Policy {
    fn default() -> (r: Self)
        ensures
            r@ == plain_handling(0),
    {
        let r = Policy {
            request_headers: Headers::default(),
            response_headers: Headers::default(),
            redirect: None,
            rewrite: None,
            backends: Vec::new(),
            listener_port: 0,
        };
        assert(r@ =~= plain_handling(0));
        r
    }
}

// ---------------------------------------------------------------------------
// Backends by weight
// ---------------------------------------------------------------------------

pub open spec fn total_weight(v: Seq<(Option<Seq<char>>, u32)>) -> nat
    decreases v.len(),
{
    if v.len() == 0 {
        0
    } else {
        total_weight(v.drop_last()) + v.last().1 as nat
    }
}

/// The backend in whose share of the weights `draw` lies.
pub open spec fn at_weight(v: Seq<(Option<Seq<char>>, u32)>, draw: int) -> Option<Seq<char>>
    decreases v.len(),
{
    if v.len() == 0 {
        None
    } else if draw < v[0].1 {
        v[0].0
    } else {
        at_weight(v.drop_first(), draw - v[0].1)
    }
}

/// The backend that a sample falls on; one that cannot be used keeps its share.
pub open spec fn sampled(v: Seq<(Option<Seq<char>>, u32)>, sample: nat) -> Option<Seq<char>> {
    if total_weight(v) == 0 {
        None
    } else {
        at_weight(v, (sample % total_weight(v)) as int)
    }
}

proof fn lemma_total_take(v: Seq<(Option<Seq<char>>, u32)>, i: int)
    requires
        0 <= i <= v.len(),
    ensures
        total_weight(v.take(i)) <= total_weight(v),
    decreases v.len(),
{
    if i < v.len() {
        assert(v.drop_last().take(i) =~= v.take(i));
        lemma_total_take(v.drop_last(), i);
    } else {
        assert(v.take(i) =~= v);
    }
}

/// `gen_range` of the `rand` crate gives some number below `total`; which one is left open.
#[verifier::external_body]
pub(crate) fn draw_below(total: u64) -> (r: u64)
    requires
        total > 0,
    ensures
        r < total,
{
    rand::Rng::gen_range(&mut rand::thread_rng(), 0..total)
}

impl Policy {
    fn total(&self) -> (n: u64)
        requires
            total_weight(self@.backends) <= u64::MAX,
        ensures
            n == total_weight(self@.backends),
    {
        let ghost all = weighted(self.backends@);
        let mut n: u64 = 0;
        let mut i: usize = 0;
        while i < self.backends.len()
            invariant
                i <= self.backends.len(),
                all == weighted(self.backends@),
                n == total_weight(all.take(i as int)),
                total_weight(all) <= u64::MAX,
            decreases self.backends.len() - i,
        {
            proof {
                assert(all.take(i + 1).drop_last() =~= all.take(i as int));
                lemma_total_take(all, i + 1);
            }
            n += self.backends[i].1 as u64;
            i += 1;
        }
        assert(all.take(i as int) =~= all);
        n
    }

    /// The backend that a sample falls on; one that cannot be used keeps its share.
    pub fn select_at(&self, sample: u64) -> (r: Option<String>)
        requires
            total_weight(self@.backends) <= u64::MAX,
        ensures
            text::opt(r) == sampled(self@.backends, sample as nat),
    {
        let total = self.total();
        if total == 0 {
            return None;
        }
        let ghost all = weighted(self.backends@);
        let mut draw: u64 = sample % total;
        let mut i: usize = 0;
        assert(all.skip(0) =~= all);
        while i < self.backends.len()
            invariant
                i <= self.backends.len(),
                all == weighted(self.backends@),
                total_weight(all) > 0,
                at_weight(all.skip(i as int), draw as int) == at_weight(
                    all,
                    (sample as nat % total_weight(all)) as int,
                ),
            decreases self.backends.len() - i,
        {
            let weight = self.backends[i].1;
            proof {
                assert(all.skip(i as int).drop_first() =~= all.skip(i + 1));
                assert(all.skip(i as int)[0] == (text::opt(self.backends@[i as int].0), weight));
            }
            if draw < weight as u64 {
                return model::copy_opt(&self.backends[i].0);
            }
            draw -= weight as u64;
            i += 1;
        }
        None
    }

    /// A backend by chance, each with the share of its weight.
    pub fn select(&self) -> (r: Option<String>)
        requires
            total_weight(self@.backends) <= u64::MAX,
        ensures
            total_weight(self@.backends) == 0 ==> r is None,
            total_weight(self@.backends) > 0 ==> exists|sample: nat|
                sample < total_weight(self@.backends) && text::opt(r) == #[trigger] sampled(
                    self@.backends,
                    sample,
                ),
    {
        let total = self.total();
        if total == 0 {
            return None;
        }
        let sample = draw_below(total);
        let r = self.select_at(sample);
        assert(text::opt(r) == sampled(self@.backends, sample as nat));
        r
    }
}

// ---------------------------------------------------------------------------
// Redirects and rewrites
// ---------------------------------------------------------------------------

impl Replacement {
    /// The path that a matched path becomes.
    pub open spec fn applied(self, path: Seq<char>, m: Matcher) -> Seq<char> {
        match self.full {
            Some(full) => full,
            None => {
                let prefix = match self.prefix {
                    Some(p) => p,
                    None => "/"@,
                };
                let base = text::trim_end_char_spec(m.path(), '/');
                let suffix = if text::starts(path, base) {
                    path.skip(base.len() as int)
                } else {
                    Seq::empty()
                };
                if suffix.len() == 0 {
                    prefix
                } else {
                    text::trim_end_char_spec(prefix, '/') + "/"@ + text::trim_start_char_spec(
                        suffix,
                        '/',
                    )
                }
            },
        }
    }
}

#[derive(Clone, Copy, Debug, PartialEq, Eq, Structural)]
pub enum FilterError {
    Repeated,
    NotExactlyOne,
    MissingConfiguration,
    Unsupported,
    RedirectWithRewrite,
    TooManyOperations,
    InvalidName,
    TransportManaged,
    DuplicateOperation,
    ValueTooLong,
    InvalidValue,
    InvalidModifier,
    InvalidPath,
    InvalidHostname,
    InvalidScheme,
    InvalidStatus,
    InvalidPort,
}

/// The longest replacement of a path, in bytes.
pub const MAX_REPLACEMENT: usize = 1024;

pub open spec fn spec_outside_path(c: char) -> bool {
    c == '?' || c == '#' || c == '\r' || c == '\n'
}

/// The path that a modifier puts in, where its fields fit its type.
pub open spec fn replacing(r: Replacement, prefix: bool) -> Option<Seq<char>> {
    if r.type_ == "ReplaceFullPath"@ && r.prefix is None {
        r.full
    } else if r.type_ == "ReplacePrefixMatch"@ && prefix && r.full is None {
        r.prefix
    } else {
        None
    }
}

pub open spec fn modifier_checked(r: Replacement, prefix: bool) -> Result<(), FilterError> {
    match replacing(r, prefix) {
        None => Err(FilterError::InvalidModifier),
        Some(p) => if p.len() > 0 && p[0] == '/' && !(exists|i: int|
            0 <= i < p.len() && spec_outside_path(#[trigger] p[i])) && text::byte_len(p)
            <= MAX_REPLACEMENT {
            Ok(())
        } else {
            Err(FilterError::InvalidPath)
        },
    }
}

fn has_outside(s: &str) -> (r: bool)
    ensures
        r == exists|i: int| 0 <= i < s@.len() && spec_outside_path(#[trigger] s@[i]),
{
    let v = text::chars(s);
    let mut i: usize = 0;
    while i < v.len()
        invariant
            i <= v.len(),
            v@ == s@,
            forall|j: int| 0 <= j < i ==> !spec_outside_path(#[trigger] s@[j]),
        decreases v.len() - i,
    {
        let c = v[i];
        if c == '?' || c == '#' || c == '\r' || c == '\n' {
            assert(spec_outside_path(s@[i as int]));
            return true;
        }
        i += 1;
    }
    false
}

impl PathModifier {
    /// Whether the modifier fits a route with or without a prefix.
    pub fn validate(&self, prefix: bool) -> (r: Result<(), FilterError>)
        ensures
            r == modifier_checked(self@, prefix),
    {
        let path = if text::same(self.type_.as_str(), "ReplaceFullPath")
            && self.replace_prefix_match.is_none() {
            &self.replace_full_path
        } else if text::same(self.type_.as_str(), "ReplacePrefixMatch") && prefix
            && self.replace_full_path.is_none() {
            &self.replace_prefix_match
        } else {
            &None
        };
        match path {
            None => Err(FilterError::InvalidModifier),
            Some(p) => {
                let p = p.as_str();
                if !p.is_empty() && p.get_char(0) == '/' && !has_outside(p) && text::len(p)
                    <= MAX_REPLACEMENT {
                    Ok(())
                } else {
                    Err(FilterError::InvalidPath)
                }
            },
        }
    }

    /// The path that a matched path becomes.
    pub fn apply(&self, path: &str, matcher: &PathMatch) -> (out: String)
        ensures
            out@ == self@.applied(path@, matcher@),
    {
        if let Some(full) = &self.replace_full_path {
            return full.clone();
        }
        let prefix: &str = match &self.replace_prefix_match {
            Some(p) => p.as_str(),
            None => "/",
        };
        let base = text::trim_end_char(matcher.path(), '/');
        match text::strip_prefix(path, base) {
            Some(suffix) => {
                if suffix.is_empty() {
                    prefix.to_owned()
                } else {
                    text::concat3(
                        text::trim_end_char(prefix, '/'),
                        "/",
                        text::trim_start_char(suffix, '/'),
                    )
                }
            },
            None => prefix.to_owned(),
        }
    }
}

impl Handling {
    /// The status and the address of the redirect that answers a request, where there is one.
    pub open spec fn location(self, r: Request, m: Matcher, tls: bool) -> Option<(u16, Seq<char>)> {
        match self.redirect {
            None => None,
            Some(d) => {
                let scheme = match d.scheme {
                    Some(s) => s,
                    None => if tls {
                        "https"@
                    } else {
                        "http"@
                    },
                };
                let host = match d.hostname {
                    Some(h) => h,
                    None => r.host,
                };
                let port = match d.port {
                    Some(p) => p,
                    None => if d.scheme is Some {
                        if scheme == "https"@ {
                            443
                        } else {
                            80
                        }
                    } else {
                        self.listener_port
                    },
                };
                let authority = if (scheme == "https"@ && port == 443) || (scheme == "http"@ && port
                    == 80) {
                    host
                } else {
                    host + ":"@ + text::decimal(port as nat)
                };
                let path = match d.path {
                    Some(p) => p.applied(r.path, m),
                    None => r.path,
                };
                let query = if r.query.len() == 0 {
                    Seq::empty()
                } else {
                    "?"@ + r.query
                };
                let status = match d.status_code {
                    Some(s) => s,
                    None => 302,
                };
                Some((status, scheme + "://"@ + authority + line_path(path) + query))
            },
        }
    }
}

impl Policy {
    /// The status and the address of the redirect that answers a request, where there is one.
    pub fn location(&self, request: &RequestData, matcher: &PathMatch, tls: bool) -> (r: Option<
        (u16, String),
    >)
        ensures
            match r {
                Some((s, l)) => self@.location(request@, matcher@, tls) == Some((s, l@)),
                None => self@.location(request@, matcher@, tls) is None,
            },
    {
        let redirect = match &self.redirect {
            Some(r) => r,
            None => return None,
        };
        let scheme: &str = match &redirect.scheme {
            Some(s) => s.as_str(),
            None => if tls {
                "https"
            } else {
                "http"
            },
        };
        let host: &str = match &redirect.hostname {
            Some(h) => h.as_str(),
            None => request.host.as_str(),
        };
        let secure = text::same(scheme, "https");
        let port: u16 = match redirect.port {
            Some(p) => p,
            None => if redirect.scheme.is_some() {
                if secure {
                    443
                } else {
                    80
                }
            } else {
                self.listener_port
            },
        };
        let authority = if (secure && port == 443) || (text::same(scheme, "http") && port == 80) {
            host.to_owned()
        } else {
            text::concat3(host, ":", text::decimal_string(port as u64).as_str())
        };
        let path = match &redirect.path {
            Some(p) => p.apply(request.path.as_str(), matcher),
            None => request.path.clone(),
        };
        let mut out = text::concat3(scheme, "://", authority.as_str());
        out.append(encode_path(path.as_str()).as_str());
        if !request.query.as_str().is_empty() {
            let query = text::concat("?", request.query.as_str());
            out.append(query.as_str());
        } else {
            assert(out@ =~= out@ + Seq::<char>::empty());
        }
        let status: u16 = match redirect.status_code {
            Some(s) => s,
            None => 302,
        };
        Some((status, out))
    }
}

// ---------------------------------------------------------------------------
// Header filters
// ---------------------------------------------------------------------------

pub const MAX_OPERATIONS: usize = 64;

pub const MAX_VALUE: usize = 8192;

/// A field that belongs to the connection.
pub open spec fn transport_managed(name: Seq<char>) -> bool {
    name == "host"@ || name == "content-length"@ || name == "transfer-encoding"@ || name
        == "connection"@ || name == "upgrade"@ || name == "te"@ || name == "trailer"@ || name
        == "keep-alive"@ || name == "proxy-connection"@
}

fn is_transport_managed(name: &str) -> (r: bool)
    ensures
        r == transport_managed(name@),
{
    text::same(name, "host") || text::same(name, "content-length") || text::same(
        name,
        "transfer-encoding",
    ) || text::same(name, "connection") || text::same(name, "upgrade") || text::same(name, "te")
        || text::same(name, "trailer") || text::same(name, "keep-alive") || text::same(
        name,
        "proxy-connection",
    )
}

pub open spec fn first_parts(v: Seq<(Seq<char>, Seq<char>)>) -> Seq<Seq<char>> {
    Seq::new(v.len(), |i: int| v[i].0)
}

/// The names of all operations, in the order in which they are checked.
pub open spec fn operation_names(c: FieldChanges) -> Seq<Seq<char>> {
    first_parts(c.set) + first_parts(c.add) + c.remove
}

/// Each name is one that a field can have, none is the connection's, and none comes twice; `Ok` with the
/// names in lower case.
pub open spec fn names_checked(v: Seq<Seq<char>>) -> Result<Seq<Seq<char>>, FilterError>
    decreases v.len(),
{
    if v.len() == 0 {
        Ok(Seq::empty())
    } else {
        match names_checked(v.drop_last()) {
            Err(e) => Err(e),
            Ok(seen) => {
                let name = text::lowercase(v.last());
                if !header::valid_name(v.last()) {
                    Err(FilterError::InvalidName)
                } else if transport_managed(name) {
                    Err(FilterError::TransportManaged)
                } else if seen.contains(name) {
                    Err(FilterError::DuplicateOperation)
                } else {
                    Ok(seen.push(name))
                }
            },
        }
    }
}

proof fn lemma_names_error(v: Seq<Seq<char>>, i: int)
    requires
        0 <= i <= v.len(),
        names_checked(v.take(i)) is Err,
    ensures
        names_checked(v) == names_checked(v.take(i)),
    decreases v.len(),
{
    if i < v.len() {
        assert(v.drop_last().take(i) =~= v.take(i));
        lemma_names_error(v.drop_last(), i);
    } else {
        assert(v.take(i) =~= v);
    }
}

/// Each value is short enough and one that a field can have.
pub open spec fn values_checked(v: Seq<(Seq<char>, Seq<char>)>) -> Result<(), FilterError>
    decreases v.len(),
{
    if v.len() == 0 {
        Ok(())
    } else {
        match values_checked(v.drop_last()) {
            Err(e) => Err(e),
            Ok(_) => if text::byte_len(v.last().1) > MAX_VALUE {
                Err(FilterError::ValueTooLong)
            } else if !header::valid_value(v.last().1) {
                Err(FilterError::InvalidValue)
            } else {
                Ok(())
            },
        }
    }
}

proof fn lemma_values_error(v: Seq<(Seq<char>, Seq<char>)>, i: int)
    requires
        0 <= i <= v.len(),
        values_checked(v.take(i)) is Err,
    ensures
        values_checked(v) == values_checked(v.take(i)),
    decreases v.len(),
{
    if i < v.len() {
        assert(v.drop_last().take(i) =~= v.take(i));
        lemma_values_error(v.drop_last(), i);
    } else {
        assert(v.take(i) =~= v);
    }
}

pub open spec fn changes_checked(c: FieldChanges) -> Result<(), FilterError> {
    if c.set.len() + c.add.len() + c.remove.len() > MAX_OPERATIONS {
        Err(FilterError::TooManyOperations)
    } else {
        match names_checked(operation_names(c)) {
            Err(e) => Err(e),
            Ok(_) => values_checked(c.set + c.add),
        }
    }
}

/// One more name, behind those that were checked.
fn check_name(seen: &mut Vec<String>, name: &str, before: Ghost<Seq<Seq<char>>>) -> (r: Result<
    (),
    FilterError,
>)
    requires
        names_checked(before@) == Ok::<Seq<Seq<char>>, FilterError>(text::texts(old(seen)@)),
    ensures
        match r {
            Ok(_) => names_checked(before@.push(name@)) == Ok::<Seq<Seq<char>>, FilterError>(
                text::texts(final(seen)@),
            ),
            Err(e) => names_checked(before@.push(name@)) == Err::<Seq<Seq<char>>, FilterError>(e),
        },
{
    let ghost all = before@.push(name@);
    assert(all.drop_last() =~= before@);
    let lower = match header::name(name) {
        Some(n) => n,
        None => return Err(FilterError::InvalidName),
    };
    if is_transport_managed(lower.as_str()) {
        return Err(FilterError::TransportManaged);
    }
    if text::contains(seen, lower.as_str()) {
        return Err(FilterError::DuplicateOperation);
    }
    let ghost was = text::texts(seen@);
    let ghost l = lower@;
    seen.push(lower);
    assert(text::texts(seen@) =~= was.push(l));
    Ok(())
}

/// The names of a list of fields, behind those that were checked.
fn check_field_names(
    seen: &mut Vec<String>,
    v: &Vec<crate::gateway::spec::Header>,
    before: Ghost<Seq<Seq<char>>>,
) -> (r: Result<(), FilterError>)
    requires
        names_checked(before@) == Ok::<Seq<Seq<char>>, FilterError>(text::texts(old(seen)@)),
    ensures
        match r {
            Ok(_) => names_checked(before@ + first_parts(fields(v@))) == Ok::<
                Seq<Seq<char>>,
                FilterError,
            >(text::texts(final(seen)@)),
            Err(e) => exists|i: int|
                0 <= i <= v@.len() && names_checked(
                    before@ + (#[trigger] first_parts(fields(v@)).take(i)),
                ) == Err::<Seq<Seq<char>>, FilterError>(e),
        },
{
    let ghost names = first_parts(fields(v@));
    let mut i: usize = 0;
    assert(before@ + names.take(0) =~= before@);
    while i < v.len()
        invariant
            i <= v.len(),
            names == first_parts(fields(v@)),
            names_checked(before@ + names.take(i as int)) == Ok::<Seq<Seq<char>>, FilterError>(
                text::texts(seen@),
            ),
        decreases v.len() - i,
    {
        let ghost done = before@ + names.take(i as int);
        assert(done.push(v@[i as int].name@) =~= before@ + names.take(i + 1));
        match check_name(seen, v[i].name.as_str(), Ghost(done)) {
            Ok(_) => {},
            Err(e) => {
                return Err(e);
            },
        }
        i += 1;
    }
    assert(names.take(i as int) =~= names);
    Ok(())
}

fn check_values(v: &Vec<crate::gateway::spec::Header>, before: Ghost<Seq<(Seq<char>, Seq<char>)>>) -> (r:
    Result<(), FilterError>)
    requires
        values_checked(before@) is Ok,
    ensures
        match r {
            Ok(_) => values_checked(before@ + fields(v@)) is Ok,
            Err(e) => exists|i: int|
                0 <= i <= v@.len() && values_checked(before@ + (#[trigger] fields(v@).take(i)))
                    == Err::<(), FilterError>(e),
        },
{
    let ghost all = fields(v@);
    let mut i: usize = 0;
    assert(before@ + all.take(0) =~= before@);
    while i < v.len()
        invariant
            i <= v.len(),
            all == fields(v@),
            values_checked(before@ + all.take(i as int)) is Ok,
        decreases v.len() - i,
    {
        let ghost done = before@ + all.take(i as int);
        let ghost now = before@ + all.take(i + 1);
        proof {
            assert(now.drop_last() =~= done);
            assert(now.last() == all[i as int]);
        }
        if text::len(v[i].value.as_str()) > MAX_VALUE {
            return Err(FilterError::ValueTooLong);
        }
        if !header::value_accepted(v[i].value.as_str()) {
            return Err(FilterError::InvalidValue);
        }
        i += 1;
    }
    assert(all.take(i as int) =~= all);
    Ok(())
}

impl Headers {
    /// Whether the changes can be made: few enough, to fields that are not the connection's, one for each.
    pub fn validate(&self) -> (r: Result<(), FilterError>)
        ensures
            r == changes_checked(self@),
    {
        if self.set.len() > MAX_OPERATIONS || self.add.len() > MAX_OPERATIONS || self.remove.len()
            > MAX_OPERATIONS || self.set.len() + self.add.len() + self.remove.len()
            > MAX_OPERATIONS {
            return Err(FilterError::TooManyOperations);
        }
        let ghost a = first_parts(self@.set);
        let ghost b = first_parts(self@.add);
        let ghost c = self@.remove;
        let ghost all = operation_names(self@);
        let mut seen: Vec<String> = Vec::new();
        let ghost none = Seq::<Seq<char>>::empty();
        assert(text::texts(seen@) =~= none);
        match check_field_names(&mut seen, &self.set, Ghost(none)) {
            Ok(_) => {},
            Err(e) => {
                proof {
                    let i = choose|i: int|
                        0 <= i <= self.set@.len() && names_checked(none + (#[trigger] a.take(i)))
                            == Err::<Seq<Seq<char>>, FilterError>(e);
                    assert(none + a.take(i) =~= all.take(i));
                    lemma_names_error(all, i);
                }
                return Err(e);
            },
        }
        assert(none + a =~= a);
        match check_field_names(&mut seen, &self.add, Ghost(a)) {
            Ok(_) => {},
            Err(e) => {
                proof {
                    let i = choose|i: int|
                        0 <= i <= self.add@.len() && names_checked(a + (#[trigger] b.take(i)))
                            == Err::<Seq<Seq<char>>, FilterError>(e);
                    assert(a + b.take(i) =~= all.take(a.len() + i));
                    lemma_names_error(all, a.len() + i);
                }
                return Err(e);
            },
        }
        let mut i: usize = 0;
        assert(a + b + c.take(0) =~= a + b);
        while i < self.remove.len()
            invariant
                i <= self.remove.len(),
                all == a + b + c,
                c == text::texts(self.remove@),
                all == operation_names(self@),
                self.set@.len() + self.add@.len() + self.remove@.len() <= MAX_OPERATIONS,
                names_checked(a + b + c.take(i as int)) == Ok::<Seq<Seq<char>>, FilterError>(
                    text::texts(seen@),
                ),
            decreases self.remove.len() - i,
        {
            let ghost done = a + b + c.take(i as int);
            assert(done.push(c[i as int]) =~= a + b + c.take(i + 1));
            match check_name(&mut seen, self.remove[i].as_str(), Ghost(done)) {
                Ok(_) => {},
                Err(e) => {
                    proof {
                        let n = (a + b).len() + i + 1;
                        assert(a + b + c.take(i + 1) =~= all.take(n as int));
                        lemma_names_error(all, n as int);
                    }
                    return Err(e);
                },
            }
            i += 1;
        }
        assert(c.take(i as int) =~= c);
        let ghost x = self@.set;
        let ghost y = self@.add;
        let ghost empty = Seq::<(Seq<char>, Seq<char>)>::empty();
        match check_values(&self.set, Ghost(empty)) {
            Ok(_) => {},
            Err(e) => {
                proof {
                    let i = choose|i: int|
                        0 <= i <= self.set@.len() && values_checked(empty + (#[trigger] x.take(i)))
                            == Err::<(), FilterError>(e);
                    assert(empty + x.take(i) =~= (x + y).take(i));
                    lemma_values_error(x + y, i);
                }
                return Err(e);
            },
        }
        assert(empty + x =~= x);
        match check_values(&self.add, Ghost(x)) {
            Ok(_) => Ok(()),
            Err(e) => {
                proof {
                    let i = choose|i: int|
                        0 <= i <= self.add@.len() && values_checked(x + (#[trigger] y.take(i)))
                            == Err::<(), FilterError>(e);
                    assert(x + y.take(i) =~= (x + y).take(x.len() + i));
                    lemma_values_error(x + y, x.len() + i);
                }
                Err(e)
            },
        }
    }
}

/// The fields as bytes, with the names in lower case.
pub open spec fn as_raw(v: Seq<(Seq<char>, Seq<char>)>) -> Seq<(Seq<char>, Seq<u8>)> {
    Seq::new(v.len(), |i: int| (text::lowercase(v[i].0), encode_utf8(v[i].1)))
}

pub open spec fn all_dropped(v: Seq<(Seq<char>, Seq<u8>)>, names: Seq<Seq<char>>) -> Seq<
    (Seq<char>, Seq<u8>),
>
    decreases names.len(),
{
    if names.len() == 0 {
        v
    } else {
        header::dropped(all_dropped(v, names.drop_last()), text::lowercase(names.last()))
    }
}

pub open spec fn all_placed(v: Seq<(Seq<char>, Seq<u8>)>, set: Seq<(Seq<char>, Seq<u8>)>) -> Seq<
    (Seq<char>, Seq<u8>),
>
    decreases set.len(),
{
    if set.len() == 0 {
        v
    } else {
        header::placed(all_placed(v, set.drop_last()), set.last().0, set.last().1)
    }
}

/// The fields after the changes: first the removals, then what is set, then what is added.
pub open spec fn changed(v: Seq<(Seq<char>, Seq<u8>)>, c: FieldChanges) -> Seq<
    (Seq<char>, Seq<u8>),
> {
    all_placed(all_dropped(v, c.remove), as_raw(c.set)) + as_raw(c.add)
}

impl Headers {
    /// Makes the changes, which are checked, to the fields of a message.
    pub fn apply(&self, headers: &mut header::Headers)
        ensures
            final(headers).raw() == changed(old(headers).raw(), self@),
    {
        let ghost start = headers.raw();
        let ghost remove = text::texts(self.remove@);
        let mut i: usize = 0;
        while i < self.remove.len()
            invariant
                i <= self.remove.len(),
                remove == text::texts(self.remove@),
                headers.raw() == all_dropped(start, remove.take(i as int)),
            decreases self.remove.len() - i,
        {
            assert(remove.take(i + 1).drop_last() =~= remove.take(i as int));
            headers.remove(text::to_lowercase(self.remove[i].as_str()).as_str());
            i += 1;
        }
        assert(remove.take(i as int) =~= remove);
        let ghost middle = headers.raw();
        let ghost set = as_raw(fields(self.set@));
        let mut i: usize = 0;
        while i < self.set.len()
            invariant
                i <= self.set.len(),
                set == as_raw(fields(self.set@)),
                headers.raw() == all_placed(middle, set.take(i as int)),
            decreases self.set.len() - i,
        {
            assert(set.take(i + 1).drop_last() =~= set.take(i as int));
            let h = &self.set[i];
            headers.insert(text::to_lowercase(h.name.as_str()), text::bytes(h.value.as_str()));
            i += 1;
        }
        assert(set.take(i as int) =~= set);
        let ghost later = headers.raw();
        let ghost add = as_raw(fields(self.add@));
        let mut i: usize = 0;
        assert(later + add.take(0) =~= later);
        while i < self.add.len()
            invariant
                i <= self.add.len(),
                add == as_raw(fields(self.add@)),
                headers.raw() == later + add.take(i as int),
            decreases self.add.len() - i,
        {
            let h = &self.add[i];
            headers.append(text::to_lowercase(h.name.as_str()), text::bytes(h.value.as_str()));
            i += 1;
            assert(headers.raw() =~= later + add.take(i as int));
        }
        assert(add.take(i as int) =~= add);
    }
}

// ---------------------------------------------------------------------------
// Host names
// ---------------------------------------------------------------------------

/// The longest host name, in bytes.
pub const MAX_HOSTNAME: usize = 253;

/// A host name of labels, which may begin with `*.`.
pub open spec fn hostname_valid(host: Seq<char>) -> bool {
    let name = match model::wildcard_suffix(host) {
        Some(s) => s,
        None => host,
    };
    name.len() > 0 && text::byte_len(name) <= MAX_HOSTNAME && tenancy::all_labels(
        text::split_spec(name, '.'),
    )
}

pub fn valid_hostname(host: &str) -> (r: bool)
    ensures
        r == hostname_valid(host@),
{
    let name = match model::strip_wildcard(host) {
        Some(s) => s,
        None => host,
    };
    if name.is_empty() || text::len(name) > MAX_HOSTNAME {
        return false;
    }
    let labels = text::split(name, '.');
    tenancy::namespace_names(&labels)
}

/// How well a pattern fits a host: the name itself best, then the longest wildcard, then no name at all.
pub open spec fn fit(pattern: Seq<char>, host: Seq<char>) -> Option<nat> {
    if pattern.len() == 0 {
        Some(0)
    } else if pattern == host {
        Some(usize::MAX as nat)
    } else {
        match model::wildcard_suffix(pattern) {
            None => None,
            Some(suffix) => match model::before_suffix(host, suffix) {
                None => None,
                Some(p) => if p.len() == 0 {
                    None
                } else {
                    Some(text::byte_len(suffix))
                },
            },
        }
    }
}

pub fn host_rank(pattern: &str, host: &str) -> (r: Option<usize>)
    ensures
        match r {
            Some(n) => fit(pattern@, host@) == Some(n as nat),
            None => fit(pattern@, host@) is None,
        },
{
    if pattern.is_empty() {
        return Some(0);
    }
    if text::same(pattern, host) {
        return Some(usize::MAX);
    }
    let suffix = match model::strip_wildcard(pattern) {
        Some(s) => s,
        None => return None,
    };
    match model::split_suffix(host, suffix) {
        None => None,
        Some(p) => if p.is_empty() {
            None
        } else {
            Some(text::len(suffix))
        },
    }
}

/// The hosts that two patterns have in common, as a pattern.
pub open spec fn common(left: Seq<char>, right: Seq<char>) -> Option<Seq<char>> {
    if left.len() == 0 {
        Some(right)
    } else if right.len() == 0 || fit(right, left) is Some {
        Some(left)
    } else if fit(left, right) is Some {
        Some(right)
    } else {
        None
    }
}

pub fn intersect(left: &str, right: &str) -> (r: Option<String>)
    ensures
        text::opt(r) == common(left@, right@),
{
    if left.is_empty() {
        return Some(right.to_owned());
    }
    if right.is_empty() || host_rank(right, left).is_some() {
        return Some(left.to_owned());
    }
    if host_rank(left, right).is_some() {
        Some(right.to_owned())
    } else {
        None
    }
}

// ---------------------------------------------------------------------------
// Filters
// ---------------------------------------------------------------------------

pub open spec fn some_count(b: bool) -> int {
    if b {
        1
    } else {
        0
    }
}

/// How many of the supported configurations a filter holds.
pub open spec fn configurations(f: Filter) -> int {
    some_count(f.request_header_modifier is Some) + some_count(f.response_header_modifier is Some)
        + some_count(f.request_redirect is Some) + some_count(f.url_rewrite is Some)
}

/// What one more filter adds.
pub open spec fn with_filter(h: Handling, f: Filter) -> Result<Handling, FilterError> {
    if configurations(f) != 1 {
        Err(FilterError::NotExactlyOne)
    } else if f.type_@ == "RequestHeaderModifier"@ {
        match f.request_header_modifier {
            Some(c) => Ok(Handling { request_headers: c@, ..h }),
            None => Err(FilterError::MissingConfiguration),
        }
    } else if f.type_@ == "ResponseHeaderModifier"@ {
        match f.response_header_modifier {
            Some(c) => Ok(Handling { response_headers: c@, ..h }),
            None => Err(FilterError::MissingConfiguration),
        }
    } else if f.type_@ == "RequestRedirect"@ {
        match f.request_redirect {
            Some(r) => Ok(Handling { redirect: Some(r@), ..h }),
            None => Err(FilterError::MissingConfiguration),
        }
    } else if f.type_@ == "URLRewrite"@ {
        match f.url_rewrite {
            Some(r) => Ok(Handling { rewrite: Some(r@), ..h }),
            None => Err(FilterError::MissingConfiguration),
        }
    } else {
        Err(FilterError::Unsupported)
    }
}

pub open spec fn filter_types(v: Seq<Filter>) -> Seq<Seq<char>> {
    Seq::new(v.len(), |i: int| v[i].type_@)
}

/// What filters add up to; no type may come twice.
pub open spec fn with_filters(v: Seq<Filter>, port: u16) -> Result<Handling, FilterError>
    decreases v.len(),
{
    if v.len() == 0 {
        Ok(plain_handling(port))
    } else {
        match with_filters(v.drop_last(), port) {
            Err(e) => Err(e),
            Ok(h) => if filter_types(v.drop_last()).contains(v.last().type_@) {
                Err(FilterError::Repeated)
            } else {
                with_filter(h, v.last())
            },
        }
    }
}

proof fn lemma_filters_error(v: Seq<Filter>, port: u16, i: int)
    requires
        0 <= i <= v.len(),
        with_filters(v.take(i), port) is Err,
    ensures
        with_filters(v, port) == with_filters(v.take(i), port),
    decreases v.len(),
{
    if i < v.len() {
        assert(v.drop_last().take(i) =~= v.take(i));
        lemma_filters_error(v.drop_last(), port, i);
    } else {
        assert(v.take(i) =~= v);
    }
}

pub open spec fn path_checked(p: Option<Replacement>, prefix: bool) -> Result<(), FilterError> {
    match p {
        None => Ok(()),
        Some(p) => modifier_checked(p, prefix),
    }
}

pub open spec fn hostname_checked(h: Option<Seq<char>>) -> Result<(), FilterError> {
    match h {
        None => Ok(()),
        Some(h) => if model::wildcard_suffix(h) is None && hostname_valid(h) {
            Ok(())
        } else {
            Err(FilterError::InvalidHostname)
        },
    }
}

pub open spec fn detour_checked(d: Detour, prefix: bool) -> Result<(), FilterError> {
    let status = match d.status_code {
        Some(s) => s,
        None => 302,
    };
    if path_checked(d.path, prefix) is Err {
        path_checked(d.path, prefix)
    } else if hostname_checked(d.hostname) is Err {
        hostname_checked(d.hostname)
    } else if d.scheme is Some && d.scheme->0 != "http"@ && d.scheme->0 != "https"@ {
        Err(FilterError::InvalidScheme)
    } else if !(status == 301 || status == 302 || status == 303 || status == 307 || status == 308) {
        Err(FilterError::InvalidStatus)
    } else if d.port == Some(0u16) {
        Err(FilterError::InvalidPort)
    } else {
        Ok(())
    }
}

/// Whether what the filters add up to can be carried out.
pub open spec fn handling_checked(h: Handling, prefix: bool) -> Result<(), FilterError> {
    if h.redirect is Some && h.rewrite is Some {
        Err(FilterError::RedirectWithRewrite)
    } else if changes_checked(h.request_headers) is Err {
        changes_checked(h.request_headers)
    } else if changes_checked(h.response_headers) is Err {
        changes_checked(h.response_headers)
    } else {
        match (h.redirect, h.rewrite) {
            (Some(d), _) => detour_checked(d, prefix),
            (_, Some(r)) => if path_checked(r.path, prefix) is Err {
                path_checked(r.path, prefix)
            } else {
                hostname_checked(r.hostname)
            },
            _ => Ok(()),
        }
    }
}

/// The policy that the filters of a rule amount to.
pub open spec fn filtered(v: Seq<Filter>, port: u16, prefix: bool) -> Result<
    Handling,
    FilterError,
> {
    match with_filters(v, port) {
        Err(e) => Err(e),
        Ok(h) => match handling_checked(h, prefix) {
            Err(e) => Err(e),
            Ok(_) => Ok(h),
        },
    }
}

fn has_type(v: &Vec<Filter>, n: usize, type_: &str) -> (r: bool)
    requires
        n <= v.len(),
    ensures
        r == filter_types(v@.take(n as int)).contains(type_@),
{
    let ghost types = filter_types(v@.take(n as int));
    let mut i: usize = 0;
    while i < n
        invariant
            i <= n <= v.len(),
            types == filter_types(v@.take(n as int)),
            forall|j: int| 0 <= j < i ==> types[j] != type_@,
        decreases n - i,
    {
        if text::same(v[i].type_.as_str(), type_) {
            assert(types[i as int] == type_@);
            return true;
        }
        i += 1;
    }
    false
}

fn add_filter(policy: &mut Policy, f: &Filter) -> (r: Result<(), FilterError>)
    ensures
        match r {
            Ok(_) => with_filter(old(policy)@, *f) == Ok::<Handling, FilterError>(final(policy)@),
            Err(e) => with_filter(old(policy)@, *f) == Err::<Handling, FilterError>(e),
        },
{
    let mut n: usize = 0;
    if f.request_header_modifier.is_some() {
        n += 1;
    }
    if f.response_header_modifier.is_some() {
        n += 1;
    }
    if f.request_redirect.is_some() {
        n += 1;
    }
    if f.url_rewrite.is_some() {
        n += 1;
    }
    if n != 1 {
        return Err(FilterError::NotExactlyOne);
    }
    if text::same(f.type_.as_str(), "RequestHeaderModifier") {
        match &f.request_header_modifier {
            Some(c) => {
                policy.request_headers = c.copy();
                Ok(())
            },
            None => Err(FilterError::MissingConfiguration),
        }
    } else if text::same(f.type_.as_str(), "ResponseHeaderModifier") {
        match &f.response_header_modifier {
            Some(c) => {
                policy.response_headers = c.copy();
                Ok(())
            },
            None => Err(FilterError::MissingConfiguration),
        }
    } else if text::same(f.type_.as_str(), "RequestRedirect") {
        match &f.request_redirect {
            Some(r) => {
                policy.redirect = Some(r.copy());
                Ok(())
            },
            None => Err(FilterError::MissingConfiguration),
        }
    } else if text::same(f.type_.as_str(), "URLRewrite") {
        match &f.url_rewrite {
            Some(r) => {
                policy.rewrite = Some(r.copy());
                Ok(())
            },
            None => Err(FilterError::MissingConfiguration),
        }
    } else {
        Err(FilterError::Unsupported)
    }
}

fn check_path(p: &Option<PathModifier>, prefix: bool) -> (r: Result<(), FilterError>)
    ensures
        r == path_checked(crate::gateway::spec::replacement(*p), prefix),
{
    match p {
        None => Ok(()),
        Some(p) => p.validate(prefix),
    }
}

fn check_hostname(h: &Option<String>) -> (r: Result<(), FilterError>)
    ensures
        r == hostname_checked(text::opt(*h)),
{
    match h {
        None => Ok(()),
        Some(h) => if model::strip_wildcard(h.as_str()).is_none() && valid_hostname(h.as_str()) {
            Ok(())
        } else {
            Err(FilterError::InvalidHostname)
        },
    }
}

fn check_redirect(d: &Redirect, prefix: bool) -> (r: Result<(), FilterError>)
    ensures
        r == detour_checked(d@, prefix),
{
    match check_path(&d.path, prefix) {
        Err(e) => return Err(e),
        Ok(_) => {},
    }
    match check_hostname(&d.hostname) {
        Err(e) => return Err(e),
        Ok(_) => {},
    }
    if let Some(s) = &d.scheme {
        if !text::same(s.as_str(), "http") && !text::same(s.as_str(), "https") {
            return Err(FilterError::InvalidScheme);
        }
    }
    let status: u16 = match d.status_code {
        Some(s) => s,
        None => 302,
    };
    if !(status == 301 || status == 302 || status == 303 || status == 307 || status == 308) {
        return Err(FilterError::InvalidStatus);
    }
    if d.port == Some(0u16) {
        return Err(FilterError::InvalidPort);
    }
    Ok(())
}

/// The policy that the filters of a rule amount to.
pub fn filters(rule: &Rule, port: u16, prefix: bool) -> (r: Result<Policy, FilterError>)
    ensures
        match r {
            Ok(p) => filtered(rule.filters@, port, prefix) == Ok::<Handling, FilterError>(p@),
            Err(e) => filtered(rule.filters@, port, prefix) == Err::<Handling, FilterError>(e),
        },
{
    let mut policy = Policy::default();
    policy.listener_port = port;
    assert(policy@ =~= plain_handling(port));
    let ghost all = rule.filters@;
    let mut i: usize = 0;
    while i < rule.filters.len()
        invariant
            i <= rule.filters.len(),
            all == rule.filters@,
            with_filters(all.take(i as int), port) == Ok::<Handling, FilterError>(policy@),
        decreases rule.filters.len() - i,
    {
        proof {
            assert(all.take(i + 1).drop_last() =~= all.take(i as int));
        }
        if has_type(&rule.filters, i, rule.filters[i].type_.as_str()) {
            proof {
                lemma_filters_error(all, port, i + 1);
            }
            return Err(FilterError::Repeated);
        }
        match add_filter(&mut policy, &rule.filters[i]) {
            Ok(_) => {},
            Err(e) => {
                proof {
                    lemma_filters_error(all, port, i + 1);
                }
                return Err(e);
            },
        }
        i += 1;
    }
    assert(all.take(i as int) =~= all);
    if policy.redirect.is_some() && policy.rewrite.is_some() {
        return Err(FilterError::RedirectWithRewrite);
    }
    match policy.request_headers.validate() {
        Err(e) => return Err(e),
        Ok(_) => {},
    }
    match policy.response_headers.validate() {
        Err(e) => return Err(e),
        Ok(_) => {},
    }
    if let Some(d) = &policy.redirect {
        match check_redirect(d, prefix) {
            Err(e) => return Err(e),
            Ok(_) => {},
        }
    }
    if let Some(w) = &policy.rewrite {
        match check_path(&w.path, prefix) {
            Err(e) => return Err(e),
            Ok(_) => {},
        }
        match check_hostname(&w.hostname) {
            Err(e) => return Err(e),
            Ok(_) => {},
        }
    }
    Ok(policy)
}

// ---------------------------------------------------------------------------
// Matches
// ---------------------------------------------------------------------------

pub const MAX_PREDICATES: usize = 16;

/// The longest path of a match, in bytes.
pub const MAX_MATCH_PATH: usize = 1024;

#[derive(Clone, Copy, Debug, PartialEq, Eq, Structural)]
pub enum MatchError {
    TooManyPredicates,
    NotExact,
    InvalidHeader,
    InvalidGrpcMatch,
    InvalidGrpcMethod,
    UnknownGrpcField,
    GrpcExpression,
    InvalidGrpcComponent,
    InvalidMethod,
    InvalidPath,
    PathExpression,
}

pub open spec fn all_exact(v: Seq<crate::gateway::spec::NamedMatch>) -> bool {
    forall|i: int| 0 <= i < v.len() ==> (#[trigger] v[i]).type_@ == "Exact"@
}

pub open spec fn all_named(v: Seq<crate::gateway::spec::NamedMatch>) -> bool {
    forall|i: int| 0 <= i < v.len() ==> header::valid_name((#[trigger] v[i]).name@)
}

/// A member of a gRPC method match that is absent, or a text that is not empty and holds no `/`.
pub open spec fn component_valid(v: Option<Json>) -> bool {
    match v {
        None => true,
        Some(j) => match j.string() {
            None => false,
            Some(s) => s.len() > 0 && !s.contains('/'),
        },
    }
}

pub open spec fn grpc_field(name: Seq<char>) -> bool {
    name == "type"@ || name == "service"@ || name == "method"@
}

pub open spec fn unknown_field(v: Seq<(String, Json)>) -> bool {
    exists|i: int| 0 <= i < v.len() && !grpc_field((#[trigger] v[i]).0@)
}

pub open spec fn grpc_checked(method: Option<Json>) -> Result<(), MatchError> {
    match method {
        None => Ok(()),
        Some(m) => match m.members() {
            None => Err(MatchError::InvalidGrpcMethod),
            Some(v) => if unknown_field(v) {
                Err(MatchError::UnknownGrpcField)
            } else if m.string_or("type"@, "Exact"@) != "Exact"@ {
                Err(MatchError::GrpcExpression)
            } else if !component_valid(m.entry("service"@)) || !component_valid(
                m.entry("method"@),
            ) {
                Err(MatchError::InvalidGrpcComponent)
            } else {
                Ok(())
            },
        },
    }
}

pub open spec fn spec_after_path(c: char) -> bool {
    c == '?' || c == '#'
}

impl Match {
    /// The paths of a match, where it is one that can be carried out.
    pub open spec fn paths(self, grpc: bool) -> Result<Matcher, MatchError> {
        if self.headers@.len() > MAX_PREDICATES || self.query_params@.len() > MAX_PREDICATES {
            Err(MatchError::TooManyPredicates)
        } else if !all_exact(self.headers@) || !all_exact(self.query_params@) {
            Err(MatchError::NotExact)
        } else if !all_named(self.headers@) {
            Err(MatchError::InvalidHeader)
        } else if grpc {
            if self.path is Some || self.query_params@.len() > 0 {
                Err(MatchError::InvalidGrpcMatch)
            } else {
                match grpc_checked(self.method) {
                    Err(e) => Err(e),
                    Ok(_) => Ok(Matcher::IngressPrefix("/"@)),
                }
            }
        } else if self.method is Some && (self.method->0.string() is None || !header::token(
            self.method->0.string()->0,
        )) {
            Err(MatchError::InvalidMethod)
        } else {
            match self.path {
                None => Ok(Matcher::IngressPrefix("/"@)),
                Some(p) => if !(p.value@.len() > 0 && p.value@[0] == '/' && !(exists|i: int|
                    0 <= i < p.value@.len() && spec_after_path(#[trigger] p.value@[i]))
                    && text::byte_len(p.value@) <= MAX_MATCH_PATH) {
                    Err(MatchError::InvalidPath)
                } else if p.type_@ == "Exact"@ {
                    Ok(Matcher::Exact(p.value@))
                } else if p.type_@ == "PathPrefix"@ {
                    Ok(Matcher::IngressPrefix(p.value@))
                } else {
                    Err(MatchError::PathExpression)
                },
            }
        }
    }
}

fn is_all_exact(v: &Vec<crate::gateway::spec::NamedMatch>) -> (r: bool)
    ensures
        r == all_exact(v@),
{
    let mut i: usize = 0;
    while i < v.len()
        invariant
            i <= v.len(),
            forall|j: int| 0 <= j < i ==> (#[trigger] v@[j]).type_@ == "Exact"@,
        decreases v.len() - i,
    {
        if !text::same(v[i].type_.as_str(), "Exact") {
            return false;
        }
        i += 1;
    }
    true
}

fn is_all_named(v: &Vec<crate::gateway::spec::NamedMatch>) -> (r: bool)
    ensures
        r == all_named(v@),
{
    let mut i: usize = 0;
    while i < v.len()
        invariant
            i <= v.len(),
            forall|j: int| 0 <= j < i ==> header::valid_name((#[trigger] v@[j]).name@),
        decreases v.len() - i,
    {
        if header::name(v[i].name.as_str()).is_none() {
            return false;
        }
        i += 1;
    }
    true
}

fn is_component_valid(v: Option<&Json>) -> (r: bool)
    ensures
        r == component_valid(
            match v {
                Some(j) => Some(*j),
                None => None,
            },
        ),
{
    match v {
        None => true,
        Some(j) => match j.as_str() {
            None => false,
            Some(s) => !s.is_empty() && !text::has_char(s, '/'),
        },
    }
}

fn has_unknown_field(v: &Vec<(String, Json)>) -> (r: bool)
    ensures
        r == unknown_field(v@),
{
    let mut i: usize = 0;
    while i < v.len()
        invariant
            i <= v.len(),
            forall|j: int| 0 <= j < i ==> grpc_field((#[trigger] v@[j]).0@),
        decreases v.len() - i,
    {
        let name = v[i].0.as_str();
        if !text::same(name, "type") && !text::same(name, "service") && !text::same(name, "method") {
            assert(!grpc_field(v@[i as int].0@));
            return true;
        }
        i += 1;
    }
    false
}

fn check_grpc(method: &Option<Json>) -> (r: Result<(), MatchError>)
    ensures
        r == grpc_checked(*method),
{
    let m = match method {
        None => return Ok(()),
        Some(m) => m,
    };
    let v = match m.as_object() {
        None => return Err(MatchError::InvalidGrpcMethod),
        Some(v) => v,
    };
    if has_unknown_field(v) {
        return Err(MatchError::UnknownGrpcField);
    }
    if !text::same(m.text("type", "Exact"), "Exact") {
        return Err(MatchError::GrpcExpression);
    }
    if !is_component_valid(m.get("service")) || !is_component_valid(m.get("method")) {
        return Err(MatchError::InvalidGrpcComponent);
    }
    Ok(())
}

fn has_after_path(s: &str) -> (r: bool)
    ensures
        r == exists|i: int| 0 <= i < s@.len() && spec_after_path(#[trigger] s@[i]),
{
    let v = text::chars(s);
    let mut i: usize = 0;
    while i < v.len()
        invariant
            i <= v.len(),
            v@ == s@,
            forall|j: int| 0 <= j < i ==> !spec_after_path(#[trigger] s@[j]),
        decreases v.len() - i,
    {
        if v[i] == '?' || v[i] == '#' {
            assert(spec_after_path(s@[i as int]));
            return true;
        }
        i += 1;
    }
    false
}

impl Match {
    /// The paths of a match, where it is one that can be carried out.
    pub fn path_match(&self, grpc: bool) -> (r: Result<PathMatch, MatchError>)
        ensures
            match r {
                Ok(m) => self.paths(grpc) == Ok::<Matcher, MatchError>(m@),
                Err(e) => self.paths(grpc) == Err::<Matcher, MatchError>(e),
            },
    {
        if self.headers.len() > MAX_PREDICATES || self.query_params.len() > MAX_PREDICATES {
            return Err(MatchError::TooManyPredicates);
        }
        if !is_all_exact(&self.headers) || !is_all_exact(&self.query_params) {
            return Err(MatchError::NotExact);
        }
        if !is_all_named(&self.headers) {
            return Err(MatchError::InvalidHeader);
        }
        if grpc {
            if self.path.is_some() || self.query_params.len() > 0 {
                return Err(MatchError::InvalidGrpcMatch);
            }
            return match check_grpc(&self.method) {
                Err(e) => Err(e),
                Ok(_) => Ok(PathMatch::IngressPrefix("/".to_owned())),
            };
        }
        if let Some(m) = &self.method {
            let known = match m.as_str() {
                None => false,
                Some(s) => header::method_accepted(s),
            };
            if !known {
                return Err(MatchError::InvalidMethod);
            }
        }
        let path = match &self.path {
            None => return Ok(PathMatch::IngressPrefix("/".to_owned())),
            Some(p) => p,
        };
        let value = path.value.as_str();
        if value.is_empty() || value.get_char(0) != '/' || has_after_path(value) || text::len(value)
            > MAX_MATCH_PATH {
            return Err(MatchError::InvalidPath);
        }
        if text::same(path.type_.as_str(), "Exact") {
            Ok(PathMatch::Exact(path.value.clone()))
        } else if text::same(path.type_.as_str(), "PathPrefix") {
            Ok(PathMatch::IngressPrefix(path.value.clone()))
        } else {
            Err(MatchError::PathExpression)
        }
    }
}

/// The content type of a gRPC request.
pub open spec fn grpc_content(t: Seq<char>) -> bool {
    let first = text::split_spec(t, ';')[0];
    first == "application/grpc"@ || text::starts(first, "application/grpc+"@)
}

/// The service and the method that a gRPC path names.
pub open spec fn grpc_call(path: Seq<char>) -> Option<(Seq<char>, Seq<char>)> {
    if path.len() > 0 && path[0] == '/' {
        text::split_once_spec(path.skip(1), '/')
    } else {
        None
    }
}

pub open spec fn equals_if_text(v: Json, s: Seq<char>) -> bool {
    v.string() is None || v.string()->0 == s
}

/// Whether the method of a match accepts a gRPC request.
pub open spec fn grpc_accepted(method: Option<Json>, r: Request) -> bool {
    &&& r.method == "POST"@
    &&& r.header("content-type"@) is Some
    &&& grpc_content(r.header("content-type"@)->0)
    &&& grpc_call(r.path) is Some
    &&& method is Some ==> {
        let (service, name) = grpc_call(r.path)->0;
        equals_if_text(method->0.at("service"@), service) && equals_if_text(
            method->0.at("method"@),
            name,
        )
    }
}

pub open spec fn headers_accepted(v: Seq<crate::gateway::spec::NamedMatch>, r: Request) -> bool {
    forall|i: int|
        0 <= i < v.len() ==> r.header(text::lowercase((#[trigger] v[i]).name@)) == Some(v[i].value@)
}

/// Whether the first parameter of each name has the value that is asked for.
pub open spec fn query_accepted(
    v: Seq<crate::gateway::spec::NamedMatch>,
    query: Seq<(Seq<char>, Seq<char>)>,
) -> bool {
    forall|i: int|
        0 <= i < v.len() ==> text::lookup(query, (#[trigger] v[i]).name@) == Some(v[i].value@)
}

/// One match of a rule at a host: the route that it leads to, and its place among others.
#[derive(Debug)]
pub struct Entry {
    pub hostname: String,
    pub matcher: Match,
    pub grpc: bool,
    /// Of two entries of the same rank the one that comes first in this order is taken: the time of
    /// creation, the namespace, the name, the rule and the match.
    pub order: (String, String, String, usize, usize),
    pub route_id: String,
    pub paths: PathMatch,
}

#[derive(Debug)]
pub struct ListenerRoutes {
    pub address: Socket,
    pub hostname: String,
    pub entries: Vec<Entry>,
}

#[derive(Debug)]
pub struct Routing {
    pub listeners: Vec<ListenerRoutes>,
}

impl Entry {
    /// Whether the entry takes a request whose query holds these parameters.
    pub open spec fn accepts(self, r: Request, query: Seq<(Seq<char>, Seq<char>)>) -> bool {
        &&& self.paths@.matches(r.path)
        &&& if self.grpc {
            grpc_accepted(self.matcher.method, r)
        } else {
            self.matcher.method is None || equals_if_text(self.matcher.method->0, r.method)
        }
        &&& headers_accepted(self.matcher.headers@, r)
        &&& query_accepted(self.matcher.query_params@, query)
    }

    /// How special the entry is for a host: the host, an exact path, the path's length, the method, and
    /// the numbers of fields and of parameters, in this order.
    pub open spec fn rank_for(self, host: Seq<char>) -> Option<(nat, bool, nat, nat, nat, nat)> {
        match fit(self.hostname@, host) {
            None => None,
            Some(n) => Some(
                (
                    n,
                    self.paths@.rank().1,
                    self.paths@.rank().0,
                    (if self.matcher.method is None {
                        0
                    } else if self.grpc {
                        some_count(self.matcher.method->0.entry("service"@) is Some) + some_count(
                            self.matcher.method->0.entry("method"@) is Some,
                        )
                    } else {
                        1
                    }) as nat,
                    self.matcher.headers@.len(),
                    self.matcher.query_params@.len(),
                ),
            ),
        }
    }
}

/// Whether rank `a` is above rank `b`.
pub open spec fn above(
    a: (nat, bool, nat, nat, nat, nat),
    b: (nat, bool, nat, nat, nat, nat),
) -> bool {
    if a.0 != b.0 {
        a.0 > b.0
    } else if a.1 != b.1 {
        a.1
    } else if a.2 != b.2 {
        a.2 > b.2
    } else if a.3 != b.3 {
        a.3 > b.3
    } else if a.4 != b.4 {
        a.4 > b.4
    } else {
        a.5 > b.5
    }
}

/// Whether order `a` comes before order `b`.
pub open spec fn earlier(
    a: (String, String, String, usize, usize),
    b: (String, String, String, usize, usize),
) -> bool {
    if a.0@ != b.0@ {
        text::before(a.0@, b.0@)
    } else if a.1@ != b.1@ {
        text::before(a.1@, b.1@)
    } else if a.2@ != b.2@ {
        text::before(a.2@, b.2@)
    } else if a.3 != b.3 {
        a.3 < b.3
    } else {
        a.4 < b.4
    }
}

/// Whether entry `a` is taken before entry `b`.
pub open spec fn ahead(a: Entry, b: Entry, host: Seq<char>) -> bool {
    let x = a.rank_for(host)->0;
    let y = b.rank_for(host)->0;
    above(x, y) || (x == y && earlier(a.order, b.order))
}

pub open spec fn candidate(
    e: Entry,
    host: Seq<char>,
    r: Request,
    query: Seq<(Seq<char>, Seq<char>)>,
) -> bool {
    e.accepts(r, query) && e.rank_for(host) is Some
}

/// The index of the entry that takes a request: the first in rank and order, the last of equal ones.
pub open spec fn best_entry(
    v: Seq<Entry>,
    host: Seq<char>,
    r: Request,
    query: Seq<(Seq<char>, Seq<char>)>,
) -> Option<int>
    decreases v.len(),
{
    if v.len() == 0 {
        None
    } else {
        let rest = best_entry(v.drop_last(), host, r, query);
        if candidate(v.last(), host, r, query) && (rest is None || !ahead(
            v[rest->0],
            v.last(),
            host,
        )) {
            Some(v.len() - 1)
        } else {
            rest
        }
    }
}

/// The index of the listener at an address whose host name fits best, the last of equal ones.
pub open spec fn best_listener(v: Seq<ListenerRoutes>, address: Socket, host: Seq<char>) -> Option<
    int,
>
    decreases v.len(),
{
    if v.len() == 0 {
        None
    } else {
        let rest = best_listener(v.drop_last(), address, host);
        if v.last().address == address && fit(v.last().hostname@, host) is Some && (rest is None
            || fit(v.last().hostname@, host)->0 >= fit(v[rest->0].hostname@, host)->0) {
            Some(v.len() - 1)
        } else {
            rest
        }
    }
}

/// The entry that takes a request: only the best listener's are asked.
pub open spec fn routed(
    v: Seq<ListenerRoutes>,
    address: Socket,
    r: Request,
    query: Seq<(Seq<char>, Seq<char>)>,
) -> Option<Entry> {
    let host = text::lowercase(r.host);
    match best_listener(v, address, host) {
        None => None,
        Some(l) => match best_entry(v[l].entries@, host, r, query) {
            None => None,
            Some(i) => Some(v[l].entries@[i]),
        },
    }
}

fn is_equal_if_text(v: Option<&Json>, s: &str) -> (r: bool)
    ensures
        r == match v {
            Some(j) => equals_if_text(*j, s@),
            None => true,
        },
{
    match v {
        Some(j) => match j.as_str() {
            Some(x) => text::same(x, s),
            None => true,
        },
        None => true,
    }
}

fn is_grpc_accepted(method: &Option<Json>, request: &RequestData) -> (r: bool)
    requires
        request.wf(),
    ensures
        r == grpc_accepted(*method, request@),
{
    if !text::same(request.method.as_str(), "POST") {
        return false;
    }
    let content = match request.header("content-type") {
        Some(t) => t,
        None => return false,
    };
    let pieces = text::split(content, ';');
    let first = pieces[0].as_str();
    assert(first@ == text::texts(pieces@)[0]);
    if !text::same(first, "application/grpc") && !text::starts_with(first, "application/grpc+") {
        return false;
    }
    let path = request.path.as_str();
    if path.is_empty() || path.get_char(0) != '/' {
        return false;
    }
    let rest = path.substring_char(1, path.unicode_len());
    assert(rest@ =~= path@.skip(1));
    match text::split_once(rest, '/') {
        None => false,
        Some((service, name)) => match method {
            None => true,
            Some(m) => is_equal_if_text(m.get("service"), service.as_str()) && is_equal_if_text(
                m.get("method"),
                name.as_str(),
            ),
        },
    }
}

fn is_headers_accepted(v: &Vec<crate::gateway::spec::NamedMatch>, request: &RequestData) -> (r: bool)
    requires
        request.wf(),
    ensures
        r == headers_accepted(v@, request@),
{
    let mut i: usize = 0;
    while i < v.len()
        invariant
            i <= v.len(),
            request.wf(),
            forall|j: int|
                0 <= j < i ==> request@.header(text::lowercase((#[trigger] v@[j]).name@)) == Some(
                    v@[j].value@,
                ),
        decreases v.len() - i,
    {
        let name = text::to_lowercase(v[i].name.as_str());
        let same = match request.header(name.as_str()) {
            Some(s) => text::same(s, v[i].value.as_str()),
            None => false,
        };
        if !same {
            return false;
        }
        i += 1;
    }
    true
}

fn is_query_accepted(
    v: &Vec<crate::gateway::spec::NamedMatch>,
    query: &Vec<(String, String)>,
) -> (r: bool)
    ensures
        r == query_accepted(v@, text::pairs(query@)),
{
    let mut i: usize = 0;
    while i < v.len()
        invariant
            i <= v.len(),
            forall|j: int|
                0 <= j < i ==> text::lookup(text::pairs(query@), (#[trigger] v@[j]).name@) == Some(
                    v@[j].value@,
                ),
        decreases v.len() - i,
    {
        let same = match text::find(query, v[i].name.as_str()) {
            Some(s) => text::same(s, v[i].value.as_str()),
            None => false,
        };
        if !same {
            return false;
        }
        i += 1;
    }
    true
}

pub open spec fn widened(r: (usize, bool, usize, usize, usize, usize)) -> (
    nat,
    bool,
    nat,
    nat,
    nat,
    nat,
) {
    (r.0 as nat, r.1, r.2 as nat, r.3 as nat, r.4 as nat, r.5 as nat)
}

fn is_above(
    a: (usize, bool, usize, usize, usize, usize),
    b: (usize, bool, usize, usize, usize, usize),
) -> (r: bool)
    ensures
        r == above(widened(a), widened(b)),
{
    if a.0 != b.0 {
        a.0 > b.0
    } else if a.1 != b.1 {
        a.1
    } else if a.2 != b.2 {
        a.2 > b.2
    } else if a.3 != b.3 {
        a.3 > b.3
    } else if a.4 != b.4 {
        a.4 > b.4
    } else {
        a.5 > b.5
    }
}

fn is_earlier(
    a: &(String, String, String, usize, usize),
    b: &(String, String, String, usize, usize),
) -> (r: bool)
    ensures
        r == earlier(*a, *b),
{
    if !text::same(a.0.as_str(), b.0.as_str()) {
        text::is_before(a.0.as_str(), b.0.as_str())
    } else if !text::same(a.1.as_str(), b.1.as_str()) {
        text::is_before(a.1.as_str(), b.1.as_str())
    } else if !text::same(a.2.as_str(), b.2.as_str()) {
        text::is_before(a.2.as_str(), b.2.as_str())
    } else if a.3 != b.3 {
        a.3 < b.3
    } else {
        a.4 < b.4
    }
}

impl Entry {
    /// Whether the entry takes a request whose query holds these parameters.
    pub fn matches_with(&self, request: &RequestData, query: &Vec<(String, String)>) -> (r: bool)
        requires
            request.wf(),
        ensures
            r == self.accepts(request@, text::pairs(query@)),
    {
        if !self.paths.matches(request.path.as_str()) {
            return false;
        }
        if self.grpc {
            if !is_grpc_accepted(&self.matcher.method, request) {
                return false;
            }
        } else if let Some(m) = &self.matcher.method {
            if !is_equal_if_text(Some(m), request.method.as_str()) {
                return false;
            }
        }
        is_headers_accepted(&self.matcher.headers, request) && is_query_accepted(
            &self.matcher.query_params,
            query,
        )
    }

    /// Whether the entry takes a request.
    pub fn matches(&self, request: &RequestData) -> (r: bool)
        requires
            request.wf(),
        ensures
            r == self.accepts(request@, form_pairs(request@.query)),
    {
        let query = parse_form(request.query.as_str());
        self.matches_with(request, &query)
    }

    /// How special the entry is for a host.
    pub fn rank(&self, host: &str) -> (r: Option<(usize, bool, usize, usize, usize, usize)>)
        ensures
            match r {
                Some(n) => self.rank_for(host@) == Some(widened(n)),
                None => self.rank_for(host@) is None,
            },
    {
        let n = match host_rank(self.hostname.as_str(), host) {
            Some(n) => n,
            None => return None,
        };
        let (length, exact) = self.paths.rank();
        let mut method: usize = 0;
        if let Some(m) = &self.matcher.method {
            if self.grpc {
                if m.get("service").is_some() {
                    method += 1;
                }
                if m.get("method").is_some() {
                    method += 1;
                }
            } else {
                method = 1;
            }
        }
        Some((n, exact, length, method, self.matcher.headers.len(), self.matcher.query_params.len()))
    }
}

proof fn lemma_best_entry(
    v: Seq<Entry>,
    host: Seq<char>,
    r: Request,
    query: Seq<(Seq<char>, Seq<char>)>,
)
    ensures
        best_entry(v, host, r, query) is Some ==> 0 <= best_entry(v, host, r, query)->0 < v.len()
            && candidate(v[best_entry(v, host, r, query)->0], host, r, query),
    decreases v.len(),
{
    if v.len() > 0 {
        lemma_best_entry(v.drop_last(), host, r, query);
    }
}

proof fn lemma_best_listener(v: Seq<ListenerRoutes>, address: Socket, host: Seq<char>)
    ensures
        best_listener(v, address, host) is Some ==> {
            let l = best_listener(v, address, host)->0;
            0 <= l < v.len() && v[l].address == address && fit(v[l].hostname@, host) is Some
        },
    decreases v.len(),
{
    if v.len() > 0 {
        lemma_best_listener(v.drop_last(), address, host);
    }
}

fn choose_entry(
    v: &Vec<Entry>,
    host: &str,
    request: &RequestData,
    query: &Vec<(String, String)>,
) -> (r: Option<usize>)
    requires
        request.wf(),
    ensures
        match r {
            Some(i) => i < v@.len() && best_entry(v@, host@, request@, text::pairs(query@)) == Some(
                i as int,
            ),
            None => best_entry(v@, host@, request@, text::pairs(query@)) is None,
        },
{
    let mut best: Option<(usize, (usize, bool, usize, usize, usize, usize))> = None;
    let mut i: usize = 0;
    while i < v.len()
        invariant
            i <= v.len(),
            request.wf(),
            match best {
                Some((b, rank)) => b < i && best_entry(
                    v@.take(i as int),
                    host@,
                    request@,
                    text::pairs(query@),
                ) == Some(b as int) && v@[b as int].rank_for(host@) == Some(widened(rank)),
                None => best_entry(v@.take(i as int), host@, request@, text::pairs(query@)) is None,
            },
        decreases v.len() - i,
    {
        let e = &v[i];
        assert(v@.take(i + 1).drop_last() =~= v@.take(i as int));
        if e.matches_with(request, query) {
            if let Some(rank) = e.rank(host) {
                let take = match &best {
                    None => true,
                    Some((b, old)) => {
                        let first = is_above(*old, rank) || (!is_above(rank, *old) && is_earlier(
                            &v[*b].order,
                            &e.order,
                        ));
                        assert(v@.take(i + 1)[*b as int] == v@[*b as int]);
                        assert(first == ahead(v@[*b as int], *e, host@));
                        !first
                    },
                };
                if take {
                    best = Some((i, rank));
                }
            }
        }
        i += 1;
    }
    assert(v@.take(i as int) =~= v@);
    match best {
        Some((b, _)) => Some(b),
        None => None,
    }
}

fn choose_listener(v: &Vec<ListenerRoutes>, address: Socket, host: &str) -> (r: Option<usize>)
    ensures
        match r {
            Some(i) => i < v@.len() && best_listener(v@, address, host@) == Some(i as int),
            None => best_listener(v@, address, host@) is None,
        },
{
    let mut best: Option<(usize, usize)> = None;
    let mut i: usize = 0;
    while i < v.len()
        invariant
            i <= v.len(),
            match best {
                Some((b, n)) => b < i && best_listener(v@.take(i as int), address, host@) == Some(
                    b as int,
                ) && fit(v@[b as int].hostname@, host@) == Some(n as nat),
                None => best_listener(v@.take(i as int), address, host@) is None,
            },
        decreases v.len() - i,
    {
        let l = &v[i];
        assert(v@.take(i + 1).drop_last() =~= v@.take(i as int));
        if l.address == address {
            if let Some(n) = host_rank(l.hostname.as_str(), host) {
                match best {
                    None => {
                        best = Some((i, n));
                    },
                    Some((b, m)) => {
                        assert(v@.take(i + 1)[b as int] == v@[b as int]);
                        if n >= m {
                            best = Some((i, n));
                        }
                    },
                }
            }
        }
        i += 1;
    }
    assert(v@.take(i as int) =~= v@);
    match best {
        Some((b, _)) => Some(b),
        None => None,
    }
}

impl Routing {
    /// The entry that takes a request whose query holds these parameters.
    pub fn route_with(
        &self,
        address: Socket,
        request: &RequestData,
        query: &Vec<(String, String)>,
    ) -> (r: Option<&Entry>)
        requires
            request.wf(),
        ensures
            match r {
                Some(e) => routed(self.listeners@, address, request@, text::pairs(query@)) == Some(
                    *e,
                ),
                None => routed(self.listeners@, address, request@, text::pairs(query@)) is None,
            },
    {
        let host = text::to_lowercase(request.host.as_str());
        match choose_listener(&self.listeners, address, host.as_str()) {
            None => None,
            Some(l) => {
                let entries = &self.listeners[l].entries;
                match choose_entry(entries, host.as_str(), request, query) {
                    None => None,
                    Some(i) => Some(&entries[i]),
                }
            },
        }
    }

    /// The entry that takes a request that came in at an address.
    pub fn route(&self, address: Socket, request: &RequestData) -> (r: Option<&Entry>)
        requires
            request.wf(),
        ensures
            match r {
                Some(e) => routed(
                    self.listeners@,
                    address,
                    request@,
                    form_pairs(request@.query),
                ) == Some(*e),
                None => routed(
                    self.listeners@,
                    address,
                    request@,
                    form_pairs(request@.query),
                ) is None,
            },
    {
        let query = parse_form(request.query.as_str());
        self.route_with(address, request, &query)
    }
}

// ---------------------------------------------------------------------------
// Laws
// ---------------------------------------------------------------------------

/// The weights of the first `i` backends.
pub open spec fn weight_before(v: Seq<(Option<Seq<char>>, u32)>, i: int) -> nat {
    total_weight(v.take(i))
}

proof fn lemma_total_first(v: Seq<(Option<Seq<char>>, u32)>)
    requires
        v.len() > 0,
    ensures
        total_weight(v) == v[0].1 as nat + total_weight(v.drop_first()),
    decreases v.len(),
{
    if v.len() == 1 {
        assert(v.drop_last() =~= Seq::empty());
        assert(v.drop_first() =~= Seq::empty());
        assert(total_weight(Seq::<(Option<Seq<char>>, u32)>::empty()) == 0);
    } else {
        lemma_total_first(v.drop_last());
        assert(v.drop_last().drop_first() =~= v.drop_first().drop_last());
        assert(v.drop_first().last() == v.last());
    }
}

/// Each backend, and each that cannot be used, gets as many of the samples as its weight.
pub proof fn law_backends_have_their_share(
    v: Seq<(Option<Seq<char>>, u32)>,
    i: int,
    sample: nat,
)
    requires
        0 <= i < v.len(),
        weight_before(v, i) <= sample < weight_before(v, i) + v[i].1,
    ensures
        sampled(v, sample) == v[i].0,
{
    lemma_share(v, i, sample as int);
    lemma_total_take(v, i + 1);
    assert(v.take(i + 1).drop_last() =~= v.take(i));
    assert(sample % total_weight(v) == sample) by (nonlinear_arith)
        requires
            sample < total_weight(v),
    ;
}

proof fn lemma_share(v: Seq<(Option<Seq<char>>, u32)>, i: int, draw: int)
    requires
        0 <= i < v.len(),
        weight_before(v, i) <= draw < weight_before(v, i) + v[i].1,
    ensures
        at_weight(v, draw) == v[i].0,
    decreases v.len(),
{
    if i == 0 {
        assert(v.take(0) =~= Seq::empty());
    } else {
        let w = v.drop_first();
        assert(v.take(i).drop_first() =~= w.take(i - 1));
        lemma_total_first(v.take(i));
        lemma_share(w, i - 1, draw - v[0].1);
    }
}

proof fn lemma_ahead_weak(a: Entry, b: Entry, c: Entry, host: Seq<char>)
    requires
        !ahead(a, b, host),
        !ahead(b, c, host),
    ensures
        !ahead(a, c, host),
{
    if ahead(a, c, host) {
        lemma_earlier_weak(a.order, b.order, c.order);
    }
}

proof fn lemma_earlier_weak(
    a: (String, String, String, usize, usize),
    b: (String, String, String, usize, usize),
    c: (String, String, String, usize, usize),
)
    requires
        !earlier(a, b),
        !earlier(b, c),
    ensures
        !earlier(a, c),
{
    lemma_before_weak(a.0@, b.0@, c.0@);
    lemma_before_weak(a.1@, b.1@, c.1@);
    lemma_before_weak(a.2@, b.2@, c.2@);
}

proof fn lemma_before_weak(a: Seq<char>, b: Seq<char>, c: Seq<char>)
    ensures
        a != b && !text::before(a, b) ==> text::before(b, a),
        b != c && !text::before(b, c) ==> text::before(c, b),
        a != c && !text::before(a, c) ==> text::before(c, a),
        !(text::before(a, c) && text::before(c, a)),
        text::before(c, b) && text::before(b, a) ==> text::before(c, a),
{
    text::lemma_before_total(a, b);
    text::lemma_before_total(b, c);
    text::lemma_before_total(a, c);
    if text::before(c, b) && text::before(b, a) {
        text::lemma_before_transitive(c, b, a);
    }
}

/// No entry that would take the request is ahead of the one that does.
pub proof fn law_the_most_special_entry_is_taken(
    v: Seq<Entry>,
    host: Seq<char>,
    r: Request,
    query: Seq<(Seq<char>, Seq<char>)>,
    j: int,
)
    requires
        0 <= j < v.len(),
        candidate(v[j], host, r, query),
    ensures
        best_entry(v, host, r, query) is Some,
        !ahead(v[j], v[best_entry(v, host, r, query)->0], host),
    decreases v.len(),
{
    let w = v.drop_last();
    let rest = best_entry(w, host, r, query);
    lemma_best_entry(w, host, r, query);
    lemma_best_entry(v, host, r, query);
    text::lemma_before_total(v[j].order.0@, v[j].order.0@);
    if j < w.len() {
        law_the_most_special_entry_is_taken(w, host, r, query, j);
        assert(w[j] == v[j]);
        assert(w[rest->0] == v[rest->0]);
        if best_entry(v, host, r, query) == Some(v.len() - 1) {
            lemma_ahead_weak(v[j], v[rest->0], v.last(), host);
        }
    } else if best_entry(v, host, r, query) != Some(v.len() - 1) {
        lemma_ahead_asymmetric(v[rest->0], v.last(), host);
    }
}

proof fn lemma_ahead_asymmetric(a: Entry, b: Entry, host: Seq<char>)
    requires
        ahead(a, b, host),
    ensures
        !ahead(b, a, host),
{
    text::lemma_before_total(a.order.0@, b.order.0@);
    text::lemma_before_total(a.order.1@, b.order.1@);
    text::lemma_before_total(a.order.2@, b.order.2@);
}

/// A request is only ever taken by an entry of the best listener at its address: where that one has none,
/// no other listener is asked.
pub proof fn law_listeners_are_isolated(
    v: Seq<ListenerRoutes>,
    address: Socket,
    r: Request,
    query: Seq<(Seq<char>, Seq<char>)>,
)
    requires
        routed(v, address, r, query) is Some,
    ensures
        ({
            let l = best_listener(v, address, text::lowercase(r.host))->0;
            &&& 0 <= l < v.len()
            &&& v[l].address == address
            &&& v[l].entries@.contains(routed(v, address, r, query)->0)
            &&& routed(v, address, r, query)->0.accepts(r, query)
        }),
{
    let host = text::lowercase(r.host);
    lemma_best_listener(v, address, host);
    let l = best_listener(v, address, host)->0;
    lemma_best_entry(v[l].entries@, host, r, query);
}

/// A wildcard fits the hosts that end with `.` and its suffix, with something before.
proof fn lemma_fit_wildcard(pattern: Seq<char>, host: Seq<char>)
    requires
        model::wildcard_suffix(pattern) is Some,
        pattern != host,
    ensures
        ({
            let s = model::wildcard_suffix(pattern)->0;
            fit(pattern, host) is Some <==> (host.len() > s.len() + 1 && host[host.len() - s.len()
                - 1] == '.' && host.skip(host.len() - s.len()) == s)
        }),
{
}

/// A host has a place under two patterns exactly when it has one under what they have in common.
pub proof fn law_intersections_are_common(left: Seq<char>, right: Seq<char>, host: Seq<char>)
    ensures
        (fit(left, host) is Some && fit(right, host) is Some) <==> (common(left, right) is Some
            && fit(common(left, right)->0, host) is Some),
{
    if left.len() > 0 && right.len() > 0 && left != right && host != left && host != right {
        let a = model::wildcard_suffix(left);
        let b = model::wildcard_suffix(right);
        if a is Some {
            lemma_fit_wildcard(left, host);
            lemma_fit_wildcard(left, right);
        }
        if b is Some {
            lemma_fit_wildcard(right, host);
            lemma_fit_wildcard(right, left);
        }
        if a is Some && b is Some {
            if left.len() <= right.len() {
                lemma_two_wildcards(left, right, host);
            } else {
                lemma_two_wildcards(right, left, host);
            }
        }
    }
}

/// What two patterns have in common does not depend on which comes first.
pub proof fn law_intersections_are_symmetric(left: Seq<char>, right: Seq<char>)
    ensures
        common(left, right) == common(right, left),
{
    if left.len() > 0 && right.len() > 0 && left != right {
        if model::wildcard_suffix(left) is Some && model::wildcard_suffix(right) is Some {
            if left.len() <= right.len() {
                lemma_longer_wildcard(left, right);
            } else {
                lemma_longer_wildcard(right, left);
            }
        } else if model::wildcard_suffix(left) is Some {
            lemma_fit_wildcard(left, right);
        } else if model::wildcard_suffix(right) is Some {
            lemma_fit_wildcard(right, left);
        }
    }
}

/// Two wildcards of which the longer one fits the shorter are the same.
#[verifier::spinoff_prover]
proof fn lemma_longer_wildcard(left: Seq<char>, right: Seq<char>)
    requires
        model::wildcard_suffix(left) is Some,
        model::wildcard_suffix(right) is Some,
        left != right,
        left.len() <= right.len(),
    ensures
        fit(right, left) is None,
{
    let b = model::wildcard_suffix(right)->0;
    lemma_fit_wildcard(right, left);
    if fit(right, left) is Some {
        assert(left.skip(2) == b);
        assert forall|k: int| 0 <= k < left.len() implies left[k] == right[k] by {
            if k >= 2 {
                assert(left[k] == left.skip(2)[k - 2]);
                assert(right[k] == right.skip(2)[k - 2]);
            }
        }
        assert(left =~= right);
    }
}

/// What a longer wildcard fits, a shorter one that fits the longer one fits too.
#[verifier::spinoff_prover]
#[verifier::rlimit(40)]
proof fn lemma_shorter_wildcard(left: Seq<char>, right: Seq<char>, host: Seq<char>)
    requires
        model::wildcard_suffix(left) is Some,
        model::wildcard_suffix(right) is Some,
        left != right,
        host != left,
        host != right,
        left.len() <= right.len(),
        fit(right, host) is Some,
        fit(left, right) is Some,
    ensures
        fit(left, host) is Some,
{
    let a = model::wildcard_suffix(left)->0;
    let b = model::wildcard_suffix(right)->0;
    let n = host.len();
    lemma_fit_wildcard(left, host);
    lemma_fit_wildcard(right, host);
    lemma_fit_wildcard(left, right);
    let m = right.len() - a.len();
    assert(host.skip(n - b.len()) == b);
    assert(right.skip(m) == a);
    assert forall|k: int| 0 <= k < a.len() implies host.skip(n - a.len())[k] == a[k] by {
        assert(right.skip(m)[k] == right[m + k]);
        assert(right[m + k] == b[m + k - 2]);
        assert(host.skip(n - b.len())[m + k - 2] == host[n - b.len() + m + k - 2]);
    }
    assert(host.skip(n - a.len()) =~= a);
    assert(right[m - 1] == '.');
    if m - 1 >= 2 {
        assert(right[m - 1] == b[m - 3]);
        assert(host.skip(n - b.len())[m - 3] == host[n - b.len() + (m - 3)]);
    } else {
        assert(a.len() == b.len());
    }
}

/// Of two wildcards that fit a host, the shorter one fits the longer one.
#[verifier::spinoff_prover]
#[verifier::rlimit(40)]
proof fn lemma_nested_wildcards(left: Seq<char>, right: Seq<char>, host: Seq<char>)
    requires
        model::wildcard_suffix(left) is Some,
        model::wildcard_suffix(right) is Some,
        left != right,
        host != left,
        host != right,
        left.len() <= right.len(),
        fit(right, host) is Some,
        fit(left, host) is Some,
    ensures
        fit(left, right) is Some,
{
    let a = model::wildcard_suffix(left)->0;
    let b = model::wildcard_suffix(right)->0;
    let n = host.len();
    lemma_fit_wildcard(left, host);
    lemma_fit_wildcard(right, host);
    lemma_fit_wildcard(left, right);
    assert(host.skip(n - b.len()) == b);
    assert(host.skip(n - a.len()) == a);
    if a.len() == b.len() {
        assert(a == b);
        assert forall|k: int| 0 <= k < left.len() implies left[k] == right[k] by {
            if k >= 2 {
                assert(left[k] == a[k - 2]);
                assert(right[k] == b[k - 2]);
            }
        }
        assert(left =~= right);
    } else {
        let m = right.len() - a.len();
        assert forall|k: int| 0 <= k < a.len() implies right.skip(m)[k] == a[k] by {
            assert(host.skip(n - a.len())[k] == host[n - a.len() + k]);
            assert(host.skip(n - b.len())[m + k - 2] == host[n - b.len() + m + k - 2]);
            assert(right[m + k] == b[m + k - 2]);
        }
        assert(right.skip(m) =~= a);
        assert(host[n - a.len() - 1] == '.');
        assert(right[m - 1] == b[m - 3]);
        assert(host.skip(n - b.len())[m - 3] == host[n - b.len() + (m - 3)]);
    }
}

proof fn lemma_two_wildcards(left: Seq<char>, right: Seq<char>, host: Seq<char>)
    requires
        model::wildcard_suffix(left) is Some,
        model::wildcard_suffix(right) is Some,
        left != right,
        host != left,
        host != right,
        left.len() <= right.len(),
    ensures
        fit(right, left) is None,
        fit(right, host) is Some && fit(left, right) is Some ==> fit(left, host) is Some,
        fit(right, host) is Some && fit(left, host) is Some ==> fit(left, right) is Some,
{
    lemma_longer_wildcard(left, right);
    if fit(right, host) is Some && fit(left, right) is Some {
        lemma_shorter_wildcard(left, right, host);
    }
    if fit(right, host) is Some && fit(left, host) is Some {
        lemma_nested_wildcards(left, right, host);
    }
}

/// Whether a listener at an address has the host name that fits a host best, the last of equal ones.
pub open spec fn heads(v: Seq<ListenerRoutes>, address: Socket, host: Seq<char>, l: int) -> bool {
    &&& 0 <= l < v.len()
    &&& v[l].address == address
    &&& fit(v[l].hostname@, host) is Some
    &&& forall|k: int|
        0 <= k < v.len() && (#[trigger] v[k]).address == address && fit(v[k].hostname@, host) is Some
            ==> if k <= l {
            fit(v[k].hostname@, host)->0 <= fit(v[l].hostname@, host)->0
        } else {
            fit(v[k].hostname@, host)->0 < fit(v[l].hostname@, host)->0
        }
}

proof fn lemma_best_is_best(v: Seq<ListenerRoutes>, address: Socket, host: Seq<char>, k: int)
    requires
        0 <= k < v.len(),
        v[k].address == address,
        fit(v[k].hostname@, host) is Some,
    ensures
        best_listener(v, address, host) is Some,
        ({
            let l = best_listener(v, address, host)->0;
            0 <= l < v.len() && (if k <= l {
                fit(v[k].hostname@, host)->0 <= fit(v[l].hostname@, host)->0
            } else {
                fit(v[k].hostname@, host)->0 < fit(v[l].hostname@, host)->0
            })
        }),
    decreases v.len(),
{
    let w = v.drop_last();
    lemma_best_listener(v, address, host);
    lemma_best_listener(w, address, host);
    if k < w.len() {
        assert(w[k] == v[k]);
        lemma_best_is_best(w, address, host, k);
    }
}

/// Of the listeners at an address the one whose host name fits best is asked, and no other.
pub proof fn law_the_best_listener_is_asked(
    v: Seq<ListenerRoutes>,
    address: Socket,
    host: Seq<char>,
    l: int,
)
    requires
        heads(v, address, host, l),
    ensures
        best_listener(v, address, host) == Some(l),
{
    lemma_best_is_best(v, address, host, l);
    lemma_best_listener(v, address, host);
    let b = best_listener(v, address, host)->0;
    assert(v[b].address == address);
}

/// No listener at an address takes requests that came in at another.
pub proof fn law_other_addresses_are_not_asked(
    v: Seq<ListenerRoutes>,
    address: Socket,
    r: Request,
    query: Seq<(Seq<char>, Seq<char>)>,
)
    requires
        forall|k: int|
            0 <= k < v.len() && (#[trigger] v[k]).address == address ==> fit(
                v[k].hostname@,
                text::lowercase(r.host),
            ) is None,
    ensures
        routed(v, address, r, query) is None,
{
    lemma_best_listener(v, address, text::lowercase(r.host));
}

proof fn lemma_taken(
    v: Seq<ListenerRoutes>,
    address: Socket,
    r: Request,
    query: Seq<(Seq<char>, Seq<char>)>,
    l: int,
    j: int,
)
    requires
        heads(v, address, text::lowercase(r.host), l),
        0 <= j < v[l].entries@.len(),
        v[l].entries@[j].accepts(r, query),
        fit(v[l].entries@[j].hostname@, text::lowercase(r.host)) is Some,
    ensures
        routed(v, address, r, query) is Some,
        v[l].entries@.contains(routed(v, address, r, query)->0),
        routed(v, address, r, query)->0.accepts(r, query),
        fit(routed(v, address, r, query)->0.hostname@, text::lowercase(r.host)) is Some,
        !ahead(v[l].entries@[j], routed(v, address, r, query)->0, text::lowercase(r.host)),
{
    let host = text::lowercase(r.host);
    law_the_best_listener_is_asked(v, address, host, l);
    law_the_most_special_entry_is_taken(v[l].entries@, host, r, query, j);
    lemma_best_entry(v[l].entries@, host, r, query);
}

/// A request that an entry of the best listener takes gets an entry, and no entry whose host name fits
/// better would take it.
pub proof fn law_better_hosts_are_taken(
    v: Seq<ListenerRoutes>,
    address: Socket,
    r: Request,
    query: Seq<(Seq<char>, Seq<char>)>,
    l: int,
    j: int,
)
    requires
        heads(v, address, text::lowercase(r.host), l),
        0 <= j < v[l].entries@.len(),
        v[l].entries@[j].accepts(r, query),
        fit(v[l].entries@[j].hostname@, text::lowercase(r.host)) is Some,
    ensures
        routed(v, address, r, query) is Some,
        v[l].entries@.contains(routed(v, address, r, query)->0),
        fit(v[l].entries@[j].hostname@, text::lowercase(r.host))->0 <= fit(
            routed(v, address, r, query)->0.hostname@,
            text::lowercase(r.host),
        )->0,
{
    lemma_taken(v, address, r, query, l, j);
}

/// Of entries whose host names fit equally well, one with an exact path is taken over one with a prefix.
pub proof fn law_exact_paths_are_taken(
    v: Seq<ListenerRoutes>,
    address: Socket,
    r: Request,
    query: Seq<(Seq<char>, Seq<char>)>,
    l: int,
    j: int,
)
    requires
        heads(v, address, text::lowercase(r.host), l),
        0 <= j < v[l].entries@.len(),
        v[l].entries@[j].accepts(r, query),
        v[l].entries@[j].paths@ is Exact,
        fit(v[l].entries@[j].hostname@, text::lowercase(r.host)) is Some,
        routed(v, address, r, query) is Some,
        fit(v[l].entries@[j].hostname@, text::lowercase(r.host)) == fit(
            routed(v, address, r, query)->0.hostname@,
            text::lowercase(r.host),
        ),
    ensures
        routed(v, address, r, query)->0.paths@ is Exact,
{
    lemma_taken(v, address, r, query, l, j);
}

/// Of entries whose host names fit equally well, and whose paths are all exact or all prefixes, one with the
/// longest path is taken.
pub proof fn law_longer_paths_are_taken(
    v: Seq<ListenerRoutes>,
    address: Socket,
    r: Request,
    query: Seq<(Seq<char>, Seq<char>)>,
    l: int,
    j: int,
)
    requires
        heads(v, address, text::lowercase(r.host), l),
        0 <= j < v[l].entries@.len(),
        v[l].entries@[j].accepts(r, query),
        v[l].entries@[j].paths@ !is IngressDefault,
        fit(v[l].entries@[j].hostname@, text::lowercase(r.host)) is Some,
        routed(v, address, r, query) is Some,
        fit(v[l].entries@[j].hostname@, text::lowercase(r.host)) == fit(
            routed(v, address, r, query)->0.hostname@,
            text::lowercase(r.host),
        ),
        v[l].entries@[j].paths@ is Exact == routed(v, address, r, query)->0.paths@ is Exact,
    ensures
        text::byte_len(v[l].entries@[j].paths@.path()) <= text::byte_len(
            routed(v, address, r, query)->0.paths@.path(),
        ),
{
    lemma_taken(v, address, r, query, l, j);
}

/// Of entries with the same host fit and paths of the same kind and length, none of HTTP is taken without a
/// method where one names it; and of those that are alike in that, the one with more fields, and then the
/// one with more parameters, is taken.
pub proof fn law_more_conditions_are_taken(
    v: Seq<ListenerRoutes>,
    address: Socket,
    r: Request,
    query: Seq<(Seq<char>, Seq<char>)>,
    l: int,
    j: int,
)
    requires
        heads(v, address, text::lowercase(r.host), l),
        0 <= j < v[l].entries@.len(),
        v[l].entries@[j].accepts(r, query),
        v[l].entries@[j].paths@ !is IngressDefault,
        fit(v[l].entries@[j].hostname@, text::lowercase(r.host)) is Some,
        routed(v, address, r, query) is Some,
        routed(v, address, r, query)->0.paths@ !is IngressDefault,
        fit(v[l].entries@[j].hostname@, text::lowercase(r.host)) == fit(
            routed(v, address, r, query)->0.hostname@,
            text::lowercase(r.host),
        ),
        v[l].entries@[j].paths@ is Exact == routed(v, address, r, query)->0.paths@ is Exact,
        text::byte_len(v[l].entries@[j].paths@.path()) == text::byte_len(
            routed(v, address, r, query)->0.paths@.path(),
        ),
        !v[l].entries@[j].grpc,
        !routed(v, address, r, query)->0.grpc,
    ensures
        ({
            let c = v[l].entries@[j].matcher;
            let t = routed(v, address, r, query)->0.matcher;
            &&& c.method is Some ==> t.method is Some
            &&& c.method is Some == t.method is Some ==> {
                &&& c.headers@.len() <= t.headers@.len()
                &&& c.headers@.len() == t.headers@.len() ==> c.query_params@.len()
                    <= t.query_params@.len()
            }
        }),
{
    lemma_taken(v, address, r, query, l, j);
}

/// Of entries of gRPC that are alike otherwise, the one that names more of service and method is taken.
pub proof fn law_named_calls_are_taken(
    v: Seq<ListenerRoutes>,
    address: Socket,
    r: Request,
    query: Seq<(Seq<char>, Seq<char>)>,
    l: int,
    j: int,
)
    requires
        heads(v, address, text::lowercase(r.host), l),
        0 <= j < v[l].entries@.len(),
        v[l].entries@[j].accepts(r, query),
        fit(v[l].entries@[j].hostname@, text::lowercase(r.host)) is Some,
        routed(v, address, r, query) is Some,
        fit(v[l].entries@[j].hostname@, text::lowercase(r.host)) == fit(
            routed(v, address, r, query)->0.hostname@,
            text::lowercase(r.host),
        ),
        v[l].entries@[j].paths@ == routed(v, address, r, query)->0.paths@,
        v[l].entries@[j].grpc,
        routed(v, address, r, query)->0.grpc,
        v[l].entries@[j].matcher.method matches Some(m) && m.entry("service"@) is Some && m.entry(
            "method"@,
        ) is Some,
    ensures
        routed(v, address, r, query)->0.matcher.method matches Some(m) && m.entry("service"@) is Some
            && m.entry("method"@) is Some,
{
    lemma_taken(v, address, r, query, l, j);
}

/// Of entries that are alike in all that they ask for, one of the oldest route is taken; of routes of the
/// same age the first by namespace and name, and of the same route the first rule and the first match.
pub proof fn law_older_routes_are_taken(
    v: Seq<ListenerRoutes>,
    address: Socket,
    r: Request,
    query: Seq<(Seq<char>, Seq<char>)>,
    l: int,
    j: int,
)
    requires
        heads(v, address, text::lowercase(r.host), l),
        0 <= j < v[l].entries@.len(),
        v[l].entries@[j].accepts(r, query),
        fit(v[l].entries@[j].hostname@, text::lowercase(r.host)) is Some,
        routed(v, address, r, query) is Some,
        v[l].entries@[j].hostname@ == routed(v, address, r, query)->0.hostname@,
        v[l].entries@[j].matcher == routed(v, address, r, query)->0.matcher,
        v[l].entries@[j].paths@ == routed(v, address, r, query)->0.paths@,
        v[l].entries@[j].grpc == routed(v, address, r, query)->0.grpc,
    ensures
        ({
            let c = v[l].entries@[j].order;
            let t = routed(v, address, r, query)->0.order;
            &&& !text::before(c.0@, t.0@)
            &&& c.0@ == t.0@ ==> {
                &&& !text::before(c.1@, t.1@)
                &&& c.1@ == t.1@ ==> {
                    &&& !text::before(c.2@, t.2@)
                    &&& c.2@ == t.2@ ==> t.3 <= c.3 && (c.3 == t.3 ==> t.4 <= c.4)
                }
            }
        }),
{
    lemma_taken(v, address, r, query, l, j);
    let c = v[l].entries@[j].order;
    let t = routed(v, address, r, query)->0.order;
    text::lemma_before_total(c.0@, t.0@);
    text::lemma_before_total(c.1@, t.1@);
    text::lemma_before_total(c.2@, t.2@);
}

/// An entry takes exactly the requests whose path its path matches, whose method, where it names one, is that
/// one, and which have all its fields and parameters.
pub proof fn law_entries_take_what_they_name(
    e: Entry,
    r: Request,
    query: Seq<(Seq<char>, Seq<char>)>,
    method: Seq<char>,
)
    requires
        !e.grpc,
        e.matcher.method matches Some(m) ==> m.string() == Some(method),
    ensures
        e.accepts(r, query) <==> {
            &&& e.paths@.matches(r.path)
            &&& e.matcher.method is Some ==> r.method == method
            &&& forall|i: int|
                #![trigger e.matcher.headers@[i]]
                0 <= i < e.matcher.headers@.len() ==> r.header(
                    text::lowercase(e.matcher.headers@[i].name@),
                ) == Some(e.matcher.headers@[i].value@)
            &&& forall|i: int|
                #![trigger e.matcher.query_params@[i]]
                0 <= i < e.matcher.query_params@.len() ==> text::lookup(
                    query,
                    e.matcher.query_params@[i].name@,
                ) == Some(e.matcher.query_params@[i].value@)
        },
{
}

/// An entry of gRPC takes calls alone: posted, of the content type of gRPC, to `/service/method`, where it
/// names a service or a method that one.
pub proof fn law_calls_are_of_their_service(
    e: Entry,
    r: Request,
    query: Seq<(Seq<char>, Seq<char>)>,
    service: Seq<char>,
    method: Seq<char>,
)
    requires
        e.grpc,
        e.accepts(r, query),
        !service.contains('/'),
        r.path == "/"@ + service + "/"@ + method,
    ensures
        r.method == "POST"@,
        r.header("content-type"@) is Some,
        text::starts(r.header("content-type"@)->0, "application/grpc"@),
        e.matcher.method matches Some(m) ==> {
            &&& m.at("service"@).string() matches Some(s) ==> s == service
            &&& m.at("method"@).string() matches Some(s) ==> s == method
        },
{
    reveal_strlit("/");
    let rest = service + "/"@ + method;
    assert(r.path[0] == '/');
    assert(r.path.skip(1) =~= rest);
    assert(rest[service.len() as int] == '/');
    assert forall|k: int| 0 <= k < service.len() implies rest[k] != '/' by {
        assert(rest[k] == service[k]);
        assert(service.contains(service[k]));
    }
    text::lemma_position_is(rest, '/', service.len() as int);
    assert(rest.take(service.len() as int) =~= service);
    assert(rest.skip(service.len() as int + 1) =~= method);
    reveal_strlit("application/grpc");
    reveal_strlit("application/grpc+");
    let t = r.header("content-type"@)->0;
    let first = text::split_spec(t, ';')[0];
    let p = text::position(t, ';');
    text::lemma_position(t, ';');
    assert(first == if p < t.len() {
        t.take(p)
    } else {
        t
    });
    assert("application/grpc+"@.take(16) =~= "application/grpc"@);
    assert(first.take(16) =~= "application/grpc"@) by {
        if first != "application/grpc"@ {
            assert(first.take(17) == "application/grpc+"@);
            assert(first.take(17).take(16) =~= first.take(16));
        } else {
            assert(first.take(16) =~= first);
        }
    }
    assert(t.take(16) =~= first.take(16));
}

/// A host name fits itself, any name fits an empty one, and no other name fits one that is no wildcard.
pub proof fn law_names_fit_themselves(pattern: Seq<char>, host: Seq<char>)
    requires
        pattern.len() > 0,
        model::wildcard_suffix(pattern) is None,
    ensures
        fit(Seq::empty(), host) == Some(0nat),
        fit(pattern, host) is Some <==> pattern == host,
        fit(pattern, pattern)->0 > fit(Seq::empty(), pattern)->0,
{
}

/// A wildcard fits the names that have something before a dot and its suffix.
pub proof fn law_wildcards_fit_names_below(suffix: Seq<char>, label: Seq<char>)
    requires
        label.len() > 0,
        label + seq!['.'] + suffix != seq!['*', '.'] + suffix,
    ensures
        fit(seq!['*', '.'] + suffix, label + seq!['.'] + suffix) == Some(text::byte_len(suffix)),
        suffix.len() > 0 ==> fit(seq!['*', '.'] + suffix, suffix) is None,
{
    let p = seq!['*', '.'] + suffix;
    let h = label + seq!['.'] + suffix;
    assert(p.skip(2) =~= suffix);
    assert(h.skip(h.len() - suffix.len()) =~= suffix);
    assert(h[h.len() - suffix.len() - 1] == '.');
    assert(h.take(h.len() - suffix.len() - 1) =~= label);
}

/// A longer wildcard fits better than a shorter one, and the name itself best.
pub proof fn law_longer_wildcards_fit_better(a: Seq<char>, b: Seq<char>, host: Seq<char>)
    requires
        model::wildcard_suffix(a) is Some,
        model::wildcard_suffix(b) is Some,
        a != host,
        b != host,
        host.len() > 0,
        fit(a, host) is Some,
        fit(b, host) is Some,
        text::byte_len(host) < usize::MAX,
        text::byte_len(model::wildcard_suffix(a)->0) < text::byte_len(model::wildcard_suffix(b)->0),
    ensures
        fit(a, host)->0 < fit(b, host)->0,
        fit(b, host)->0 == text::byte_len(model::wildcard_suffix(b)->0),
        fit(host, host)->0 == usize::MAX,
{
}

/// A redirect without a status is temporary; one with a status has that one. Without a redirect there is no
/// location.
pub proof fn law_redirects_have_their_status(h: Handling, r: Request, m: Matcher, tls: bool)
    ensures
        h.location(r, m, tls) is Some <==> h.redirect is Some,
        h.redirect matches Some(d) ==> (h.location(r, m, tls)->0).0 == match d.status_code {
            Some(s) => s,
            None => 302u16,
        },
{
}

/// A redirect to another scheme leads to the same host, path and query, at the usual port of the scheme.
pub proof fn law_redirects_to_a_scheme_keep_the_rest(h: Handling, r: Request, m: Matcher, tls: bool)
    requires
        h.redirect matches Some(d) && (d.scheme == Some("https"@) || d.scheme == Some("http"@))
            && d.hostname is None && d.port is None && d.path is None,
    ensures
        (h.location(r, m, tls)->0).1 == h.redirect->0.scheme->0 + "://"@ + r.host + encoded(
            encode_utf8(r.path),
        ) + (if r.query.len() == 0 {
            Seq::<char>::empty()
        } else {
            "?"@ + r.query
        }),
{
    reveal_strlit("https");
    reveal_strlit("http");
    assert("https"@.len() != "http"@.len());
}

/// A redirect to another host leads there with the scheme of the request, and names the port of the listener
/// unless that is the usual one of the scheme.
pub proof fn law_redirects_to_a_host_keep_the_rest(h: Handling, r: Request, m: Matcher, tls: bool)
    requires
        h.redirect matches Some(d) && d.scheme is None && d.hostname is Some && d.port is None
            && d.path is None,
    ensures
        ({
            let usual: u16 = if tls {
                443
            } else {
                80
            };
            (h.location(r, m, tls)->0).1 == (if tls {
                "https"@
            } else {
                "http"@
            }) + "://"@ + (if h.listener_port == usual {
                h.redirect->0.hostname->0
            } else {
                h.redirect->0.hostname->0 + ":"@ + text::decimal(h.listener_port as nat)
            }) + encoded(encode_utf8(r.path)) + (if r.query.len() == 0 {
                Seq::<char>::empty()
            } else {
                "?"@ + r.query
            })
        }),
{
    reveal_strlit("https");
    reveal_strlit("http");
    assert("https"@.len() != "http"@.len());
}

/// A redirect to a port names it, unless it is the usual one of its scheme.
pub proof fn law_redirects_name_their_port(h: Handling, r: Request, m: Matcher, tls: bool)
    requires
        h.redirect matches Some(d) && d.scheme == Some("https"@) && d.hostname is Some && d.port is Some
            && d.path is None && r.query.len() == 0,
    ensures
        (h.location(r, m, tls)->0).1 == "https"@ + "://"@ + (if h.redirect->0.port->0 == 443 {
            h.redirect->0.hostname->0
        } else {
            h.redirect->0.hostname->0 + ":"@ + text::decimal(h.redirect->0.port->0 as nat)
        }) + encoded(encode_utf8(r.path)) + Seq::<char>::empty(),
{
    reveal_strlit("https");
    reveal_strlit("http");
    assert("https"@.len() != "http"@.len());
}

/// What follows a prefix stays when the prefix is replaced; a path that is the prefix becomes the new one.
pub proof fn law_prefixes_are_replaced(
    p: Replacement,
    base: Seq<char>,
    rest: Seq<char>,
    m: Matcher,
    prefix: Seq<char>,
)
    requires
        p.full is None,
        p.prefix == Some(prefix),
        text::trim_end_char_spec(m.path(), '/') == base,
        rest.len() > 0 ==> rest[0] != '/',
    ensures
        p.applied(base, m) == prefix,
        p.applied(base + "/"@ + rest, m) == text::trim_end_char_spec(prefix, '/') + "/"@ + rest,
{
    reveal_strlit("/");
    assert(base.take(base.len() as int) =~= base);
    assert(base.skip(base.len() as int) =~= Seq::<char>::empty());
    let path = base + "/"@ + rest;
    assert(path.take(base.len() as int) =~= base);
    let suffix = path.skip(base.len() as int);
    assert(suffix =~= "/"@ + rest);
    assert(suffix[0] == '/');
    assert(suffix.drop_first() =~= rest);
    reveal_with_fuel(text::trim_start_char_spec, 3);
    assert(text::trim_start_char_spec(suffix, '/') == rest);
}

/// A full path takes the place of every path.
pub proof fn law_full_paths_are_taken(p: Replacement, path: Seq<char>, m: Matcher)
    requires
        p.full is Some,
    ensures
        p.applied(path, m) == p.full->0,
{
}

proof fn lemma_all_dropped(v: Seq<(Seq<char>, Seq<u8>)>, names: Seq<Seq<char>>, name: Seq<char>)
    ensures
        header::raw_values(all_dropped(v, names), name) == if exists|i: int|
            0 <= i < names.len() && text::lowercase(#[trigger] names[i]) == name {
            Seq::<Seq<u8>>::empty()
        } else {
            header::raw_values(v, name)
        },
    decreases names.len(),
{
    if names.len() > 0 {
        let rest = names.drop_last();
        lemma_all_dropped(v, rest, name);
        header::lemma_dropped(all_dropped(v, rest), text::lowercase(names.last()), name);
        if exists|i: int| 0 <= i < rest.len() && text::lowercase(#[trigger] rest[i]) == name {
            let i = choose|i: int| 0 <= i < rest.len() && text::lowercase(#[trigger] rest[i]) == name;
            assert(text::lowercase(names[i]) == name);
        }
        if exists|i: int| 0 <= i < names.len() && text::lowercase(#[trigger] names[i]) == name {
            let i = choose|i: int| 0 <= i < names.len() && text::lowercase(#[trigger] names[i]) == name;
            if i < names.len() - 1 {
                assert(text::lowercase(rest[i]) == name);
            }
        }
    }
}

proof fn lemma_none_placed(v: Seq<(Seq<char>, Seq<u8>)>, set: Seq<(Seq<char>, Seq<u8>)>, name: Seq<char>)
    requires
        forall|i: int| 0 <= i < set.len() ==> (#[trigger] set[i]).0 != name,
    ensures
        header::raw_values(all_placed(v, set), name) == header::raw_values(v, name),
    decreases set.len(),
{
    if set.len() > 0 {
        let rest = set.drop_last();
        assert forall|i: int| 0 <= i < rest.len() implies (#[trigger] rest[i]).0 != name by {
            assert(set[i].0 != name);
        }
        lemma_none_placed(v, rest, name);
        let last = set[set.len() - 1];
        header::law_set_fields_have_one_value(all_placed(v, rest), last.0, last.1, name);
    }
}

proof fn lemma_last_placed(
    v: Seq<(Seq<char>, Seq<u8>)>,
    set: Seq<(Seq<char>, Seq<u8>)>,
    name: Seq<char>,
    i: int,
)
    requires
        0 <= i < set.len(),
        set[i].0 == name,
        forall|k: int| i < k < set.len() ==> (#[trigger] set[k]).0 != name,
    ensures
        header::raw_values(all_placed(v, set), name) == seq![set[i].1],
    decreases set.len(),
{
    let rest = set.drop_last();
    let last = set[set.len() - 1];
    header::law_set_fields_have_one_value(all_placed(v, rest), last.0, last.1, name);
    if i < set.len() - 1 {
        assert(last.0 != name);
        assert forall|k: int| i < k < rest.len() implies (#[trigger] rest[k]).0 != name by {
            assert(set[k].0 != name);
        }
        lemma_last_placed(v, rest, name, i);
    }
}

proof fn lemma_all_placed(v: Seq<(Seq<char>, Seq<u8>)>, set: Seq<(Seq<char>, Seq<u8>)>, name: Seq<char>)
    ensures
        (forall|i: int| 0 <= i < set.len() ==> (#[trigger] set[i]).0 != name) ==> header::raw_values(
            all_placed(v, set),
            name,
        ) == header::raw_values(v, name),
        forall|i: int|
            #![trigger set[i]]
            0 <= i < set.len() && set[i].0 == name && (forall|k: int|
                i < k < set.len() ==> (#[trigger] set[k]).0 != name) ==> header::raw_values(
                all_placed(v, set),
                name,
            ) == seq![set[i].1],
{
    if forall|i: int| 0 <= i < set.len() ==> (#[trigger] set[i]).0 != name {
        lemma_none_placed(v, set, name);
    }
    assert forall|i: int|
        #![trigger set[i]]
        0 <= i < set.len() && set[i].0 == name && (forall|k: int|
            i < k < set.len() ==> (#[trigger] set[k]).0 != name) implies header::raw_values(
        all_placed(v, set),
        name,
    ) == seq![set[i].1] by {
        lemma_last_placed(v, set, name, i);
    }
}

/// Fields that are removed are gone, fields that are set have the one value that is set, and all others stay
/// as they are; this is of names that nothing is added to.
pub proof fn law_changes_are_of_the_named_fields(
    v: Seq<(Seq<char>, Seq<u8>)>,
    c: FieldChanges,
    name: Seq<char>,
)
    requires
        c.add.len() == 0,
    ensures
        (forall|i: int| 0 <= i < c.set.len() ==> text::lowercase((#[trigger] c.set[i]).0) != name)
            && (exists|i: int|
            0 <= i < c.remove.len() && text::lowercase(#[trigger] c.remove[i]) == name)
            ==> header::raw_values(changed(v, c), name).len() == 0,
        (forall|i: int| 0 <= i < c.set.len() ==> text::lowercase((#[trigger] c.set[i]).0) != name)
            && (forall|i: int|
            0 <= i < c.remove.len() ==> text::lowercase(#[trigger] c.remove[i]) != name)
            ==> header::raw_values(changed(v, c), name) == header::raw_values(v, name),
        c.set.len() == 1 && text::lowercase(c.set[0].0) == name ==> header::raw_values(
            changed(v, c),
            name,
        ) == seq![encode_utf8(c.set[0].1)],
{
    let set = as_raw(c.set);
    assert(as_raw(c.add) =~= Seq::empty());
    assert(changed(v, c) =~= all_placed(all_dropped(v, c.remove), set));
    lemma_all_dropped(v, c.remove, name);
    lemma_all_placed(all_dropped(v, c.remove), set, name);
    assert(forall|i: int|
        0 <= i < set.len() ==> (#[trigger] set[i]).0 == text::lowercase(c.set[i].0));
    if c.set.len() == 1 && text::lowercase(c.set[0].0) == name {
        assert(set[0].0 == name);
    }
}

/// Fields that are added come after those that are there.
pub proof fn law_added_fields_come_last(v: Seq<(Seq<char>, Seq<u8>)>, name: Seq<char>, value: Seq<char>)
    ensures
        changed(v, FieldChanges { set: Seq::empty(), add: seq![(name, value)], remove: Seq::empty() })
            == v.push((text::lowercase(name), encode_utf8(value))),
{
    let c = FieldChanges { set: Seq::empty(), add: seq![(name, value)], remove: Seq::empty() };
    assert(as_raw(c.set) =~= Seq::empty());
    assert(all_dropped(v, c.remove) == v);
    assert(all_placed(v, as_raw(c.set)) == v);
    assert(changed(v, c) =~= v.push((text::lowercase(name), encode_utf8(value))));
}

/// A path of a match is taken whole, or with what is below it, as its type says; a match without a path
/// stands for all of them.
pub proof fn law_types_of_paths_are_kept(m: Match)
    requires
        m.headers@.len() == 0,
        m.query_params@.len() == 0,
        m.method is None,
    ensures
        m.path is None ==> m.paths(false) == Ok::<Matcher, MatchError>(Matcher::IngressPrefix("/"@)),
        m.path is Some && m.paths(false) is Ok ==> {
            let p = m.path->0;
            &&& p.type_@ == "Exact"@ ==> m.paths(false)->Ok_0 == Matcher::Exact(p.value@)
            &&& p.type_@ == "PathPrefix"@ ==> m.paths(false)->Ok_0 == Matcher::IngressPrefix(p.value@)
            &&& p.value@.len() > 0 && p.value@[0] == '/' && !p.value@.contains('?')
                && !p.value@.contains('#')
        },
{
    reveal_strlit("PathPrefix");
    reveal_strlit("Exact");
    assert("PathPrefix"@.len() != "Exact"@.len());
    if m.path is Some && m.paths(false) is Ok {
        let s = m.path->0.value@;
        if s.contains('?') {
            let i = choose|i: int| 0 <= i < s.len() && s[i] == '?';
            assert(spec_after_path(s[i]));
        }
        if s.contains('#') {
            let i = choose|i: int| 0 <= i < s.len() && s[i] == '#';
            assert(spec_after_path(s[i]));
        }
    }
}

/// Each filter does what its type says, and nothing else.
pub proof fn law_filters_do_what_their_type_says(f: Filter, port: u16)
    requires
        with_filters(seq![f], port) is Ok,
    ensures
        ({
            let h = with_filters(seq![f], port)->Ok_0;
            &&& h.backends.len() == 0 && h.listener_port == port
            &&& f.type_@ == "RequestHeaderModifier"@ ==> f.request_header_modifier is Some
                && h.request_headers == f.request_header_modifier->0@ && h.response_headers
                == no_changes() && h.redirect is None && h.rewrite is None
            &&& f.type_@ == "ResponseHeaderModifier"@ ==> f.response_header_modifier is Some
                && h.response_headers == f.response_header_modifier->0@ && h.request_headers
                == no_changes() && h.redirect is None && h.rewrite is None
            &&& f.type_@ == "RequestRedirect"@ ==> f.request_redirect is Some && h.redirect == Some(
                f.request_redirect->0@,
            ) && h.rewrite is None && h.request_headers == no_changes()
            &&& f.type_@ == "URLRewrite"@ ==> f.url_rewrite is Some && h.rewrite == Some(
                f.url_rewrite->0@,
            ) && h.redirect is None && h.request_headers == no_changes()
        }),
{
    assert(seq![f].drop_last() =~= Seq::empty());
    reveal_with_fuel(with_filters, 2);
    assert(filter_types(Seq::empty()) =~= Seq::empty());
    reveal_strlit("RequestHeaderModifier");
    reveal_strlit("ResponseHeaderModifier");
    assert("RequestHeaderModifier"@.len() != "ResponseHeaderModifier"@.len());
    reveal_strlit("RequestRedirect");
    assert("RequestHeaderModifier"@.len() != "RequestRedirect"@.len());
    reveal_strlit("URLRewrite");
    assert("RequestHeaderModifier"@.len() != "URLRewrite"@.len());
    reveal_strlit("ResponseHeaderModifier");
    reveal_strlit("RequestRedirect");
    assert("ResponseHeaderModifier"@.len() != "RequestRedirect"@.len());
    reveal_strlit("URLRewrite");
    assert("ResponseHeaderModifier"@.len() != "URLRewrite"@.len());
    reveal_strlit("RequestRedirect");
    reveal_strlit("URLRewrite");
    assert("RequestRedirect"@.len() != "URLRewrite"@.len());
}

/// A host shared with all hosts is itself, one shared with itself too, and a wildcard and a name below it share
/// the name, whichever is the route's.
pub proof fn law_hosts_in_common(host: Seq<char>, a: Seq<char>, b: Seq<char>)
    ensures
        common(Seq::empty(), host) == Some(host),
        host.len() > 0 ==> common(host, Seq::empty()) == Some(host),
        host.len() > 0 ==> common(host, host) == Some(host),
        a.len() > 0 && b.len() > 0 && fit(b, a) is Some ==> common(a, b) == Some(a),
        a.len() > 0 && b.len() > 0 && fit(b, a) is None && fit(a, b) is Some ==> common(a, b) == Some(b),
        a.len() > 0 && b.len() > 0 && fit(b, a) is None && fit(a, b) is None ==> common(a, b) is None,
{
}

} // verus!

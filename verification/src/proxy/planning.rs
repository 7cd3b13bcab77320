//! The request line that goes to a backend, and the values of variables.
use crate::config::value::{find_variable_end, variable_end};
use crate::model::{Matcher, PathMatch};
use crate::proxy::paths::{encode_path, encoded};
use crate::script::{Changes, Edits, Request, RequestData};
use crate::text;
use vstd::prelude::*;
use vstd::utf8::encode_utf8;

verus! {

/// A path as it stands in a request line.
pub open spec fn line_path(s: Seq<char>) -> Seq<char> {
    encoded(encode_utf8(s))
}

/// The path that goes out, and its query where the proxied address brings one.
pub open spec fn outbound_path(
    original: Seq<char>,
    r: Request,
    e: Changes,
    m: Matcher,
    proxy_uri: Option<Seq<char>>,
) -> Seq<char> {
    if e.path is Some {
        line_path(e.path->0)
    } else if proxy_uri is Some {
        proxy_uri->0 + line_path(
            if text::starts(r.path, m.path()) {
                r.path.skip(m.path().len() as int)
            } else {
                r.path
            },
        )
    } else if e.query is Some {
        match text::split_once_spec(original, '?') {
            Some((path, _)) => path,
            None => original,
        }
    } else {
        original
    }
}

/// What is asked of a backend. Without edits and without an address of its own in the configuration the
/// request line goes out as it came.
pub open spec fn outbound(
    original: Seq<char>,
    r: Request,
    e: Changes,
    m: Matcher,
    proxy_uri: Option<Seq<char>>,
) -> Seq<char> {
    let path = outbound_path(original, r, e, m, proxy_uri);
    let query = match e.query {
        Some(q) => q,
        None => r.query,
    };
    if (e.path is Some || e.query is Some || proxy_uri is Some) && query.len() > 0
        && !path.contains('?') {
        path + "?"@ + query
    } else {
        path
    }
}

/// What is asked of a backend.
pub fn outbound_uri(
    original: &str,
    request: &RequestData,
    edits: &Edits,
    matcher: &PathMatch,
    proxy_uri: &Option<String>,
) -> (out: String)
    ensures
        out@ == outbound(original@, request@, edits@, matcher@, text::opt(*proxy_uri)),
{
    let path = match &edits.path {
        Some(path) => encode_path(path.as_str()),
        None => match proxy_uri {
            Some(uri) => {
                let suffix = match text::strip_prefix(request.path.as_str(), matcher.path()) {
                    Some(s) => encode_path(s),
                    None => encode_path(request.path.as_str()),
                };
                text::concat(uri.as_str(), suffix.as_str())
            },
            None => if edits.query.is_some() {
                match text::split_once(original, '?') {
                    Some((path, _)) => path,
                    None => original.to_owned(),
                }
            } else {
                original.to_owned()
            },
        },
    };
    if edits.path.is_some() || edits.query.is_some() || proxy_uri.is_some() {
        let query: &str = match &edits.query {
            Some(q) => q.as_str(),
            None => request.query.as_str(),
        };
        if !query.is_empty() && !text::has_char(path.as_str(), '?') {
            return text::concat3(path.as_str(), "?", query);
        }
    }
    path
}

/// What variables are looked up in.
pub struct Variables<'a> {
    pub request: &'a RequestData,
    pub edits: &'a Edits,
    pub original_uri: &'a str,
    pub original_peer: &'a str,
    pub scheme: &'a str,
    pub server_name: &'a str,
}

/// What a `Variables` holds.
#[verifier::ext_equal]
pub ghost struct Scene {
    pub request: Request,
    pub edits: Changes,
    pub original_uri: Seq<char>,
    pub original_peer: Seq<char>,
    pub scheme: Seq<char>,
    pub server_name: Seq<char>,
}

impl<'a> View for Variables<'a> {
    type V = Scene;

    open spec fn view(&self) -> Scene {
        Scene {
            request: self.request@,
            edits: self.edits@,
            original_uri: self.original_uri@,
            original_peer: self.original_peer@,
            scheme: self.scheme@,
            server_name: self.server_name@,
        }
    }
}

pub open spec fn or_empty(v: Option<Seq<char>>) -> Seq<char> {
    match v {
        Some(s) => s,
        None => Seq::empty(),
    }
}

/// The field that a variable `http_...` names.
pub open spec fn field_name(s: Seq<char>) -> Seq<char> {
    text::lowercase(text::replaced(s, '_', '-'))
}

/// The value of a variable; nothing where there is none.
pub open spec fn variable(v: Scene, key: Seq<char>, proxy_host: Seq<char>) -> Seq<char> {
    let r = v.request;
    if key == "host"@ {
        if r.host.len() == 0 {
            v.server_name
        } else {
            r.host
        }
    } else if key == "http_host"@ {
        or_empty(r.header("host"@))
    } else if key == "scheme"@ {
        if v.scheme.len() == 0 {
            "http"@
        } else {
            v.scheme
        }
    } else if key == "request_uri"@ {
        v.original_uri
    } else if key == "uri"@ {
        match v.edits.path {
            Some(p) => p,
            None => r.path,
        }
    } else if key == "args"@ {
        match v.edits.query {
            Some(q) => q,
            None => r.query,
        }
    } else if key == "request_method"@ {
        r.method
    } else if key == "remote_addr"@ {
        r.remote_addr
    } else if key == "realip_remote_addr"@ {
        v.original_peer
    } else if key == "proxy_host"@ {
        proxy_host
    } else if key == "proxy_add_x_forwarded_for"@ {
        match r.header("x-forwarded-for"@) {
            Some(x) => x + ", "@ + r.remote_addr,
            None => r.remote_addr,
        }
    } else if text::starts(key, "http_"@) {
        or_empty(r.header(field_name(key.skip("http_"@.len() as int))))
    } else {
        Seq::empty()
    }
}

/// The text from `i` on with each `$` and the name behind it replaced by the variable's value.
pub open spec fn expanded(v: Scene, s: Seq<char>, proxy_host: Seq<char>, i: int) -> Seq<char>
    decreases s.len() - i,
{
    if i < 0 || i >= s.len() {
        Seq::empty()
    } else if s[i] == '$' {
        let end = variable_end(s, i + 1);
        if i < end <= s.len() {
            variable(v, s.subrange(i + 1, end), proxy_host) + expanded(v, s, proxy_host, end)
        } else {
            Seq::empty()
        }
    } else {
        seq![s[i]] + expanded(v, s, proxy_host, i + 1)
    }
}

fn text_or_empty(v: Option<&str>) -> (r: String)
    ensures
        match v {
            Some(s) => r@ == s@,
            None => r@.len() == 0,
        },
{
    match v {
        Some(s) => s.to_owned(),
        None => String::new(),
    }
}

impl<'a> Variables<'a> {
    /// The value of a variable; nothing where there is none.
    pub fn value(&self, key: &str, proxy_host: &str) -> (out: String)
        requires
            self.request.wf(),
        ensures
            out@ == variable(self@, key@, proxy_host@),
    {
        let r = self.request;
        if text::same(key, "host") {
            if r.host.as_str().is_empty() {
                self.server_name.to_owned()
            } else {
                r.host.clone()
            }
        } else if text::same(key, "http_host") {
            let out = text_or_empty(r.header("host"));
            assert(out@ =~= or_empty(r@.header("host"@)));
            out
        } else if text::same(key, "scheme") {
            if self.scheme.is_empty() {
                "http".to_owned()
            } else {
                self.scheme.to_owned()
            }
        } else if text::same(key, "request_uri") {
            self.original_uri.to_owned()
        } else if text::same(key, "uri") {
            match &self.edits.path {
                Some(p) => p.clone(),
                None => r.path.clone(),
            }
        } else if text::same(key, "args") {
            match &self.edits.query {
                Some(q) => q.clone(),
                None => r.query.clone(),
            }
        } else if text::same(key, "request_method") {
            r.method.clone()
        } else if text::same(key, "remote_addr") {
            r.remote_addr.clone()
        } else if text::same(key, "realip_remote_addr") {
            self.original_peer.to_owned()
        } else if text::same(key, "proxy_host") {
            proxy_host.to_owned()
        } else if text::same(key, "proxy_add_x_forwarded_for") {
            match r.header("x-forwarded-for") {
                Some(x) => text::concat3(x, ", ", r.remote_addr.as_str()),
                None => r.remote_addr.clone(),
            }
        } else {
            match text::strip_prefix(key, "http_") {
                Some(s) => {
                    let name = text::to_lowercase(text::replace(s, '_', '-').as_str());
                    let out = text_or_empty(r.header(name.as_str()));
                    assert(out@ =~= or_empty(r@.header(name@)));
                    out
                },
                None => {
                    let out = String::new();
                    assert(out@ =~= Seq::<char>::empty());
                    out
                },
            }
        }
    }

    /// The text with each `$` and the name behind it replaced by the variable's value.
    pub fn expand(&self, input: &str, proxy_host: &str) -> (out: String)
        requires
            self.request.wf(),
        ensures
            out@ == expanded(self@, input@, proxy_host@, 0),
    {
        let v = text::chars(input);
        let mut out = String::new();
        let mut i: usize = 0;
        assert(out@ + expanded(self@, v@, proxy_host@, 0) =~= expanded(self@, v@, proxy_host@, 0));
        while i < v.len()
            invariant
                i <= v.len(),
                v@ == input@,
                self.request.wf(),
                out@ + expanded(self@, v@, proxy_host@, i as int) == expanded(
                    self@,
                    v@,
                    proxy_host@,
                    0,
                ),
            decreases v.len() - i,
        {
            let ghost before = out@;
            if v[i] == '$' {
                let end = find_variable_end(&v, i + 1);
                let key = text::slice(&v, i + 1, end);
                let value = self.value(key.as_str(), proxy_host);
                out.append(value.as_str());
                assert(out@ + expanded(self@, v@, proxy_host@, end as int) =~= before + expanded(
                    self@,
                    v@,
                    proxy_host@,
                    i as int,
                ));
                i = end;
            } else {
                out.push(v[i]);
                assert(out@ + expanded(self@, v@, proxy_host@, i + 1) =~= before + expanded(
                    self@,
                    v@,
                    proxy_host@,
                    i as int,
                ));
                i += 1;
            }
        }
        assert(out@ =~= out@ + expanded(self@, v@, proxy_host@, i as int));
        out
    }
}

// ---------------------------------------------------------------------------
// Laws
// ---------------------------------------------------------------------------

/// A request that nothing changes goes out as it came.
pub proof fn law_untouched_requests_pass_through(original: Seq<char>, r: Request, e: Changes, m: Matcher)
    requires
        e.path is None,
        e.query is None,
    ensures
        outbound(original, r, e, m, None) == original,
{
}

/// A text without `$` expands to itself.
pub proof fn law_plain_texts_expand_to_themselves(
    v: Scene,
    s: Seq<char>,
    proxy_host: Seq<char>,
    i: int,
)
    requires
        0 <= i <= s.len(),
        !s.contains('$'),
    ensures
        expanded(v, s, proxy_host, i) == s.skip(i),
    decreases s.len() - i,
{
    if i < s.len() {
        assert(s.contains(s[i]));
        law_plain_texts_expand_to_themselves(v, s, proxy_host, i + 1);
        assert(seq![s[i]] + s.skip(i + 1) =~= s.skip(i));
    } else {
        assert(s.skip(i) =~= Seq::<char>::empty());
    }
}

proof fn lemma_encoded_chars(v: Seq<u8>)
    ensures
        !encoded(v).contains('?'),
    decreases v.len(),
{
    if v.len() > 0 {
        lemma_encoded_chars(v.drop_last());
        let b = v.last();
        let e = crate::proxy::paths::encoded_byte(b);
        assert(!e.contains('?')) by {
            if e.contains('?') {
                let i = choose|i: int| 0 <= i < e.len() && e[i] == '?';
                assert(e[i] == '?');
            }
        }
        if encoded(v).contains('?') {
            let s = encoded(v);
            let i = choose|i: int| 0 <= i < s.len() && s[i] == '?';
            let head = encoded(v.drop_last());
            if i < head.len() {
                assert(head[i] == '?');
            } else {
                assert(e[i - head.len()] == '?');
            }
        }
    }
}

/// Where the configuration gives an address of its own, what follows the path of the location follows that
/// address, and the query follows both.
pub proof fn law_addresses_replace_the_location(
    original: Seq<char>,
    r: Request,
    e: Changes,
    m: Matcher,
    uri: Seq<char>,
    rest: Seq<char>,
)
    requires
        e.path is None,
        e.query is None,
        r.path == m.path() + rest,
    ensures
        r.query.len() == 0 ==> outbound(original, r, e, m, Some(uri)) == uri + encoded(
            encode_utf8(rest),
        ),
        r.query.len() > 0 && !uri.contains('?') ==> outbound(original, r, e, m, Some(uri)) == uri
            + encoded(encode_utf8(rest)) + "?"@ + r.query,
        r.query.len() > 0 && uri.contains('?') ==> outbound(original, r, e, m, Some(uri)) == uri
            + encoded(encode_utf8(rest)),
{
    assert(r.path.take(m.path().len() as int) =~= m.path());
    assert(r.path.skip(m.path().len() as int) =~= rest);
    lemma_encoded_chars(encode_utf8(rest));
    let path = uri + encoded(encode_utf8(rest));
    if path.contains('?') {
        let i = choose|i: int| 0 <= i < path.len() && path[i] == '?';
        if i < uri.len() {
            assert(uri[i] == '?');
        } else {
            assert(encoded(encode_utf8(rest))[i - uri.len()] == '?');
        }
    }
    if uri.contains('?') {
        let i = choose|i: int| 0 <= i < uri.len() && uri[i] == '?';
        assert(path[i] == '?');
    }
}

/// Requests for different paths below a location go out differently.
pub proof fn law_different_paths_go_out_differently(
    original: Seq<char>,
    r: Request,
    s: Request,
    e: Changes,
    m: Matcher,
    uri: Seq<char>,
    a: Seq<char>,
    b: Seq<char>,
)
    requires
        e.path is None,
        e.query is None,
        r.query.len() == 0,
        s.query.len() == 0,
        r.path == m.path() + a,
        s.path == m.path() + b,
        a != b,
    ensures
        outbound(original, r, e, m, Some(uri)) != outbound(original, s, e, m, Some(uri)),
{
    law_addresses_replace_the_location(original, r, e, m, uri, a);
    law_addresses_replace_the_location(original, s, e, m, uri, b);
    let x = encoded(encode_utf8(a));
    let y = encoded(encode_utf8(b));
    if uri + x == uri + y {
        assert((uri + x).skip(uri.len() as int) =~= x);
        assert((uri + y).skip(uri.len() as int) =~= y);
        crate::proxy::paths::law_encoded_paths_decode(encode_utf8(a));
        crate::proxy::paths::law_encoded_paths_decode(encode_utf8(b));
        vstd::utf8::encode_utf8_decode_utf8(a);
        vstd::utf8::encode_utf8_decode_utf8(b);
    }
}

/// A path that a script set goes out, whatever the request and the configuration say, with the query of the
/// request, or with that of the script where it set one.
pub proof fn law_edited_paths_go_out(
    original: Seq<char>,
    r: Request,
    e: Changes,
    m: Matcher,
    proxy_uri: Option<Seq<char>>,
)
    requires
        e.path is Some,
    ensures
        ({
            let query = if e.query is Some {
                e.query->0
            } else {
                r.query
            };
            outbound(original, r, e, m, proxy_uri) == encoded(encode_utf8(e.path->0)) + (
            if query.len() > 0 {
                "?"@ + query
            } else {
                Seq::<char>::empty()
            })
        }),
{
    lemma_encoded_chars(encode_utf8(e.path->0));
    let query = if e.query is Some {
        e.query->0
    } else {
        r.query
    };
    let p = encoded(encode_utf8(e.path->0));
    assert(p + "?"@ + query =~= p + ("?"@ + query));
    assert(p + Seq::<char>::empty() =~= p);
}

/// A query that a script set takes the place of that of the request; the path goes out as it came.
pub proof fn law_edited_queries_go_out(path: Seq<char>, query: Seq<char>, r: Request, e: Changes, m: Matcher)
    requires
        e.path is None,
        e.query is Some,
        !path.contains('?'),
    ensures
        ({
            let tail = if e.query->0.len() > 0 {
                "?"@ + e.query->0
            } else {
                Seq::<char>::empty()
            };
            outbound(path + "?"@ + query, r, e, m, None) == path + tail && outbound(path, r, e, m, None)
                == path + tail
        }),
{
    reveal_strlit("?");
    let s = path + "?"@ + query;
    assert(s[path.len() as int] == '?');
    assert forall|k: int| 0 <= k < path.len() implies s[k] != '?' by {
        assert(s[k] == path[k]);
        assert(path.contains(path[k]));
    }
    text::lemma_position_is(s, '?', path.len() as int);
    assert(s.take(path.len() as int) =~= path);
    text::lemma_position(path, '?');
    assert(text::split_once_spec(path, '?') is None);
    assert(path + "?"@ + e.query->0 =~= path + ("?"@ + e.query->0));
    assert(path + Seq::<char>::empty() =~= path);
}

/// Each variable has the value of the thing that it is named after.
pub proof fn law_variables_are_what_they_are_named_after(v: Scene, proxy_host: Seq<char>)
    ensures
        v.request.host.len() > 0 ==> variable(v, "host"@, proxy_host) == v.request.host,
        v.request.host.len() == 0 ==> variable(v, "host"@, proxy_host) == v.server_name,
        variable(v, "request_uri"@, proxy_host) == v.original_uri,
        v.edits.path is None ==> variable(v, "uri"@, proxy_host) == v.request.path,
        v.edits.path is Some ==> variable(v, "uri"@, proxy_host) == v.edits.path->0,
        v.edits.query is None ==> variable(v, "args"@, proxy_host) == v.request.query,
        v.edits.query is Some ==> variable(v, "args"@, proxy_host) == v.edits.query->0,
        variable(v, "request_method"@, proxy_host) == v.request.method,
        variable(v, "remote_addr"@, proxy_host) == v.request.remote_addr,
        variable(v, "realip_remote_addr"@, proxy_host) == v.original_peer,
        variable(v, "proxy_host"@, proxy_host) == proxy_host,
        v.scheme.len() > 0 ==> variable(v, "scheme"@, proxy_host) == v.scheme,
        v.request.header("host"@) is Some ==> variable(v, "http_host"@, proxy_host)
            == v.request.header("host"@)->0,
{
    reveal_strlit("http_host");
    reveal_strlit("host");
    assert("http_host"@.len() != "host"@.len());
    reveal_strlit("request_uri");
    reveal_strlit("host");
    assert("request_uri"@.len() != "host"@.len());
    reveal_strlit("http_host");
    assert("request_uri"@.len() != "http_host"@.len());
    reveal_strlit("scheme");
    assert("request_uri"@.len() != "scheme"@.len());
    reveal_strlit("scheme");
    reveal_strlit("host");
    assert("scheme"@.len() != "host"@.len());
    reveal_strlit("http_host");
    assert("scheme"@.len() != "http_host"@.len());
    reveal_strlit("uri");
    reveal_strlit("host");
    assert("uri"@.len() != "host"@.len());
    reveal_strlit("http_host");
    assert("uri"@.len() != "http_host"@.len());
    reveal_strlit("scheme");
    assert("uri"@.len() != "scheme"@.len());
    reveal_strlit("request_uri");
    assert("uri"@.len() != "request_uri"@.len());
    reveal_strlit("args");
    reveal_strlit("host");
    assert("args"@[0] != "host"@[0]);
    reveal_strlit("http_host");
    assert("args"@.len() != "http_host"@.len());
    reveal_strlit("scheme");
    assert("args"@.len() != "scheme"@.len());
    reveal_strlit("request_uri");
    assert("args"@.len() != "request_uri"@.len());
    reveal_strlit("uri");
    assert("args"@.len() != "uri"@.len());
    reveal_strlit("request_method");
    reveal_strlit("host");
    assert("request_method"@.len() != "host"@.len());
    reveal_strlit("http_host");
    assert("request_method"@.len() != "http_host"@.len());
    reveal_strlit("scheme");
    assert("request_method"@.len() != "scheme"@.len());
    reveal_strlit("request_uri");
    assert("request_method"@.len() != "request_uri"@.len());
    reveal_strlit("uri");
    assert("request_method"@.len() != "uri"@.len());
    reveal_strlit("args");
    assert("request_method"@.len() != "args"@.len());
    reveal_strlit("remote_addr");
    reveal_strlit("host");
    assert("remote_addr"@.len() != "host"@.len());
    reveal_strlit("http_host");
    assert("remote_addr"@.len() != "http_host"@.len());
    reveal_strlit("scheme");
    assert("remote_addr"@.len() != "scheme"@.len());
    reveal_strlit("request_uri");
    assert("remote_addr"@[2] != "request_uri"@[2]);
    reveal_strlit("uri");
    assert("remote_addr"@.len() != "uri"@.len());
    reveal_strlit("args");
    assert("remote_addr"@.len() != "args"@.len());
    reveal_strlit("request_method");
    assert("remote_addr"@.len() != "request_method"@.len());
    reveal_strlit("realip_remote_addr");
    reveal_strlit("host");
    assert("realip_remote_addr"@.len() != "host"@.len());
    reveal_strlit("http_host");
    assert("realip_remote_addr"@.len() != "http_host"@.len());
    reveal_strlit("scheme");
    assert("realip_remote_addr"@.len() != "scheme"@.len());
    reveal_strlit("request_uri");
    assert("realip_remote_addr"@.len() != "request_uri"@.len());
    reveal_strlit("uri");
    assert("realip_remote_addr"@.len() != "uri"@.len());
    reveal_strlit("args");
    assert("realip_remote_addr"@.len() != "args"@.len());
    reveal_strlit("request_method");
    assert("realip_remote_addr"@.len() != "request_method"@.len());
    reveal_strlit("remote_addr");
    assert("realip_remote_addr"@.len() != "remote_addr"@.len());
    reveal_strlit("proxy_host");
    reveal_strlit("host");
    assert("proxy_host"@.len() != "host"@.len());
    reveal_strlit("http_host");
    assert("proxy_host"@.len() != "http_host"@.len());
    reveal_strlit("scheme");
    assert("proxy_host"@.len() != "scheme"@.len());
    reveal_strlit("request_uri");
    assert("proxy_host"@.len() != "request_uri"@.len());
    reveal_strlit("uri");
    assert("proxy_host"@.len() != "uri"@.len());
    reveal_strlit("args");
    assert("proxy_host"@.len() != "args"@.len());
    reveal_strlit("request_method");
    assert("proxy_host"@.len() != "request_method"@.len());
    reveal_strlit("remote_addr");
    assert("proxy_host"@.len() != "remote_addr"@.len());
    reveal_strlit("realip_remote_addr");
    assert("proxy_host"@.len() != "realip_remote_addr"@.len());
}

/// The address of the client follows those that came in `X-Forwarded-For`, and stands alone where none did.
pub proof fn law_clients_are_added_to_the_chain(v: Scene, proxy_host: Seq<char>)
    ensures
        v.request.header("x-forwarded-for"@) is None ==> variable(
            v,
            "proxy_add_x_forwarded_for"@,
            proxy_host,
        ) == v.request.remote_addr,
        v.request.header("x-forwarded-for"@) is Some ==> variable(
            v,
            "proxy_add_x_forwarded_for"@,
            proxy_host,
        ) == v.request.header("x-forwarded-for"@)->0 + ", "@ + v.request.remote_addr,
{
    reveal_strlit("proxy_add_x_forwarded_for");
    reveal_strlit("host");
    assert("proxy_add_x_forwarded_for"@.len() != "host"@.len());
    reveal_strlit("http_host");
    assert("proxy_add_x_forwarded_for"@.len() != "http_host"@.len());
    reveal_strlit("scheme");
    assert("proxy_add_x_forwarded_for"@.len() != "scheme"@.len());
    reveal_strlit("request_uri");
    assert("proxy_add_x_forwarded_for"@.len() != "request_uri"@.len());
    reveal_strlit("uri");
    assert("proxy_add_x_forwarded_for"@.len() != "uri"@.len());
    reveal_strlit("args");
    assert("proxy_add_x_forwarded_for"@.len() != "args"@.len());
    reveal_strlit("request_method");
    assert("proxy_add_x_forwarded_for"@.len() != "request_method"@.len());
    reveal_strlit("remote_addr");
    assert("proxy_add_x_forwarded_for"@.len() != "remote_addr"@.len());
    reveal_strlit("realip_remote_addr");
    assert("proxy_add_x_forwarded_for"@.len() != "realip_remote_addr"@.len());
    reveal_strlit("proxy_host");
    assert("proxy_add_x_forwarded_for"@.len() != "proxy_host"@.len());
}

/// A variable `http_...` has the value of the field, with `-` for `_`.
pub proof fn law_field_variables_are_fields(v: Scene, name: Seq<char>, proxy_host: Seq<char>)
    requires
        "http_"@ + name != "http_host"@,
    ensures
        v.request.header(text::lowercase(text::replaced(name, '_', '-'))) is Some ==> variable(
            v,
            "http_"@ + name,
            proxy_host,
        ) == v.request.header(text::lowercase(text::replaced(name, '_', '-')))->0,
        v.request.header(text::lowercase(text::replaced(name, '_', '-'))) is None ==> variable(
            v,
            "http_"@ + name,
            proxy_host,
        ).len() == 0,
{
    reveal_strlit("http_");
    reveal_strlit("host");
    reveal_strlit("scheme");
    reveal_strlit("request_uri");
    reveal_strlit("uri");
    reveal_strlit("args");
    reveal_strlit("request_method");
    reveal_strlit("remote_addr");
    reveal_strlit("realip_remote_addr");
    reveal_strlit("proxy_host");
    reveal_strlit("proxy_add_x_forwarded_for");
    let key = "http_"@ + name;
    assert(key[0] == 'h' && key[1] == 't');
    assert("host"@[1] == 'o');
    assert("scheme"@[0] == 's');
    assert("request_uri"@[0] == 'r');
    assert("uri"@[0] == 'u');
    assert("args"@[0] == 'a');
    assert("request_method"@[0] == 'r');
    assert("remote_addr"@[0] == 'r');
    assert("realip_remote_addr"@[0] == 'r');
    assert("proxy_host"@[0] == 'p');
    assert("proxy_add_x_forwarded_for"@[0] == 'p');
    assert(key.take("http_"@.len() as int) =~= "http_"@);
    assert(key.skip("http_"@.len() as int) =~= name);
}

proof fn lemma_variable_end(s: Seq<char>, i: int, end: int)
    requires
        0 <= i <= end <= s.len(),
        forall|k: int| i <= k < end ==> crate::config::value::variable_char(#[trigger] s[k]),
        end < s.len() ==> !crate::config::value::variable_char(s[end]),
    ensures
        variable_end(s, i) == end,
    decreases end - i,
{
    if i < end {
        assert(crate::config::value::variable_char(s[i]));
        lemma_variable_end(s, i + 1, end);
    }
}

/// What stands before a `$` stays, the name behind it gives way to the variable's value, and the text goes on
/// behind the name.
pub proof fn law_variables_give_way_to_their_values(
    v: Scene,
    s: Seq<char>,
    proxy_host: Seq<char>,
    i: int,
    at: int,
    end: int,
)
    requires
        0 <= i <= at < end <= s.len(),
        s[at] == '$',
        forall|k: int| i <= k < at ==> s[k] != '$',
        forall|k: int| at < k < end ==> crate::config::value::variable_char(#[trigger] s[k]),
        end < s.len() ==> !crate::config::value::variable_char(s[end]),
    ensures
        expanded(v, s, proxy_host, i) == s.subrange(i, at) + variable(
            v,
            s.subrange(at + 1, end),
            proxy_host,
        ) + expanded(v, s, proxy_host, end),
    decreases at - i,
{
    if i == at {
        lemma_variable_end(s, at + 1, end);
        assert(s.subrange(i, at) =~= Seq::<char>::empty());
        let x = variable(v, s.subrange(at + 1, end), proxy_host);
        assert(Seq::<char>::empty() + x =~= x);
    } else {
        law_variables_give_way_to_their_values(v, s, proxy_host, i + 1, at, end);
        assert(s.subrange(i, at) =~= seq![s[i]] + s.subrange(i + 1, at));
        let x = variable(v, s.subrange(at + 1, end), proxy_host);
        let rest = expanded(v, s, proxy_host, end);
        assert(seq![s[i]] + (s.subrange(i + 1, at) + x + rest) =~= s.subrange(i, at) + x + rest);
    }
}

} // verus!

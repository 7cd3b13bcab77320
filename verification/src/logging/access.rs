//! What an access log line holds, and what is kept out of it.
use crate::text;
use crate::text::{lowercase, split_spec, texts};
use vstd::prelude::*;

verus! {

pub const MAX_FIELDS: usize = 20;

pub const MAX_REDACTED: usize = 64;

pub const MAX_KEY_BYTES: usize = 128;

/// Which parts of a request the access log shows, and in which form.
#[derive(Debug)]
pub struct Policy {
    pub json: bool,
    pub query: bool,
    pub client: bool,
    pub referer: bool,
    pub redact: Vec<String>,
    pub fields: Vec<String>,
}

#[derive(Clone, Copy, Debug, PartialEq, Eq, Structural)]
pub enum PolicyError {
    UnsupportedField,
    InvalidRedaction,
}

/// The query keys whose values are kept out unless a policy says otherwise.
pub open spec fn default_redacted() -> Seq<Seq<char>> {
    seq![
        "access_token"@,
        "token"@,
        "api_key"@,
        "apikey"@,
        "password"@,
        "secret"@,
        "authorization"@,
        "code"@,
    ]
}

impl Default for Policy {
    fn default() -> (r: Self)
        ensures
            !r.json && r.query && r.client && r.referer,
            texts(r.redact@) == default_redacted(),
            r.fields@.len() == 0,
    {
        let mut redact: Vec<String> = Vec::new();
        redact.push("access_token".to_owned());
        redact.push("token".to_owned());
        redact.push("api_key".to_owned());
        redact.push("apikey".to_owned());
        redact.push("password".to_owned());
        redact.push("secret".to_owned());
        redact.push("authorization".to_owned());
        redact.push("code".to_owned());
        assert(texts(redact@) =~= default_redacted());
        Policy {
            json: false,
            query: true,
            client: true,
            referer: true,
            redact,
            fields: Vec::new(),
        }
    }
}

/// The names of the fields of a log record.
pub open spec fn known_field(f: Seq<char>) -> bool {
    f == "timestamp"@ || f == "client"@ || f == "method"@ || f == "uri"@ || f == "protocol"@ || f
        == "status"@ || f == "bytes"@ || f == "referer"@ || f == "user_agent"@ || f == "route"@ || f
        == "backend"@ || f == "upstream"@ || f == "config"@ || f == "trace_id"@ || f == "span_id"@
        || f == "parent_span_id"@ || f == "upstream_span_id"@ || f == "trace_sampled"@ || f
        == "grpc_status"@
}

fn is_known(f: &str) -> (r: bool)
    ensures
        r == known_field(f@),
{
    text::same(f, "timestamp") || text::same(f, "client") || text::same(f, "method") || text::same(
        f,
        "uri",
    ) || text::same(f, "protocol") || text::same(f, "status") || text::same(f, "bytes")
        || text::same(f, "referer") || text::same(f, "user_agent") || text::same(f, "route")
        || text::same(f, "backend") || text::same(f, "upstream") || text::same(f, "config")
        || text::same(f, "trace_id") || text::same(f, "span_id") || text::same(f, "parent_span_id")
        || text::same(f, "upstream_span_id") || text::same(f, "trace_sampled") || text::same(
        f,
        "grpc_status",
    )
}

/// What `form_urlencoded` makes of a query: its pairs, decoded.
pub uninterp spec fn form_pairs(s: Seq<char>) -> Seq<(Seq<char>, Seq<char>)>;

/// `form_urlencoded::parse` of the `url` crate: the pairs of a query, percent-decoded.
#[verifier::external_body]
pub(crate) fn parse_form(s: &str) -> (out: Vec<(String, String)>)
    ensures
        text::pairs(out@) == form_pairs(s@),
{
    url::form_urlencoded::parse(s.as_bytes()).into_owned().collect()
}

/// The key of a query parameter as it is written.
pub open spec fn raw_key(pair: Seq<char>) -> Seq<char> {
    match text::split_once_spec(pair, '=') {
        Some((k, _)) => k,
        None => pair,
    }
}

/// The key of a query parameter in lower case, decoded.
pub open spec fn decoded_key(pair: Seq<char>) -> Seq<char> {
    let form = form_pairs(raw_key(pair) + "="@);
    if form.len() > 0 {
        lowercase(form[0].0)
    } else {
        Seq::empty()
    }
}

/// Whether a list holds a text, letter case aside.
pub open spec fn listed(v: Seq<Seq<char>>, s: Seq<char>) -> bool {
    exists|i: int| 0 <= i < v.len() && lowercase(#[trigger] v[i]) == lowercase(s)
}

/// A parameter as the log shows it, where its key was decoded as `decoded`.
pub open spec fn shown_pair(redact: Seq<Seq<char>>, pair: Seq<char>, decoded: Seq<char>) -> Seq<
    char,
> {
    if listed(redact, decoded) {
        raw_key(pair) + "=[REDACTED]"@
    } else {
        pair
    }
}

pub open spec fn shown_pairs(redact: Seq<Seq<char>>, v: Seq<Seq<char>>) -> Seq<Seq<char>> {
    Seq::new(v.len(), |i: int| shown_pair(redact, v[i], decoded_key(v[i])))
}

/// A parameter as the log shows it, where its key was decoded as `decoded`.
pub fn show_pair(redact: &Vec<String>, pair: &str, decoded: &str) -> (out: String)
    ensures
        out@ == shown_pair(texts(redact@), pair@, decoded@),
{
    let key = match text::split_once(pair, '=') {
        Some((k, _)) => k,
        None => pair.to_owned(),
    };
    let mut i: usize = 0;
    let ghost all = texts(redact@);
    while i < redact.len()
        invariant
            i <= redact.len(),
            all == texts(redact@),
            key@ == raw_key(pair@),
            forall|j: int| 0 <= j < i ==> lowercase(#[trigger] all[j]) != lowercase(decoded@),
        decreases redact.len() - i,
    {
        assert(all[i as int] == redact@[i as int]@);
        if text::same_ignoring_case(redact[i].as_str(), decoded) {
            return text::concat(key.as_str(), "=[REDACTED]");
        }
        i += 1;
    }
    pair.to_owned()
}

fn decode_key(pair: &str) -> (out: String)
    ensures
        out@ == decoded_key(pair@),
{
    let key = match text::split_once(pair, '=') {
        Some((k, _)) => k,
        None => pair.to_owned(),
    };
    let form = parse_form(text::concat(key.as_str(), "=").as_str());
    assert(text::pairs(form@).len() == form.len());
    if form.len() > 0 {
        assert(text::pairs(form@)[0] == (form@[0].0@, form@[0].1@));
        text::to_lowercase(form[0].0.as_str())
    } else {
        let out = String::new();
        assert(out@ =~= Seq::<char>::empty());
        out
    }
}

/// A character as a quoted part of a log line shows it.
pub open spec fn escaped_char(c: char) -> Seq<char> {
    if c == '"' {
        seq!['\\', '"']
    } else if c == '\\' {
        seq!['\\', '\\']
    } else if control(c) {
        seq![' ']
    } else {
        seq![c]
    }
}

/// A control character of Unicode.
pub open spec fn control(c: char) -> bool {
    (c as u32) < 32 || (127 <= c as u32 && c as u32 <= 159)
}

pub open spec fn escaped(s: Seq<char>) -> Seq<char>
    decreases s.len(),
{
    if s.len() == 0 {
        Seq::empty()
    } else {
        escaped(s.drop_last()) + escaped_char(s.last())
    }
}

pub fn escape(s: &str) -> (out: String)
    ensures
        out@ == escaped(s@),
{
    let v = text::chars(s);
    let mut out = String::new();
    let mut i: usize = 0;
    while i < v.len()
        invariant
            i <= v.len(),
            v@ == s@,
            out@ == escaped(v@.take(i as int)),
        decreases v.len() - i,
    {
        assert(v@.take(i + 1).drop_last() =~= v@.take(i as int));
        let c = v[i];
        let ghost before = out@;
        if c == '"' {
            out.push('\\');
            out.push('"');
        } else if c == '\\' {
            out.push('\\');
            out.push('\\');
        } else if (c as u32) < 32 || (127 <= c as u32 && c as u32 <= 159) {
            out.push(' ');
        } else {
            out.push(c);
        }
        assert(out@ =~= before + escaped_char(c));
        i += 1;
    }
    assert(v@.take(i as int) =~= s@);
    out
}

pub open spec fn key_accepted(k: Seq<char>) -> bool {
    0 < text::byte_len(k) <= MAX_KEY_BYTES
}

/// Whether a log may show these fields and redact these keys.
pub open spec fn fields_checked(fields: Seq<Seq<char>>, redact: Seq<Seq<char>>) -> Result<
    (),
    PolicyError,
> {
    if fields.len() > MAX_FIELDS || exists|i: int|
        0 <= i < fields.len() && !known_field(#[trigger] fields[i]) {
        Err(PolicyError::UnsupportedField)
    } else if redact.len() > MAX_REDACTED || exists|i: int|
        0 <= i < redact.len() && !key_accepted(#[trigger] redact[i]) {
        Err(PolicyError::InvalidRedaction)
    } else {
        Ok(())
    }
}

/// The fields of a log record, each as a text.
#[derive(Debug)]
pub struct Record {
    pub timestamp: String,
    pub client: String,
    pub method: String,
    pub uri: String,
    pub protocol: String,
    pub status: String,
    pub bytes: String,
    pub referer: String,
    pub user_agent: String,
    pub route: String,
    pub backend: String,
    pub upstream: String,
    pub config: String,
    pub trace_id: String,
    pub span_id: String,
    pub parent_span_id: String,
    pub upstream_span_id: String,
    pub trace_sampled: String,
}

impl Policy {
    pub fn validate_fields(&self) -> (r: Result<(), PolicyError>)
        ensures
            r == fields_checked(texts(self.fields@), texts(self.redact@)),
    {
        let ghost fields = texts(self.fields@);
        let ghost redact = texts(self.redact@);
        if self.fields.len() > MAX_FIELDS {
            return Err(PolicyError::UnsupportedField);
        }
        let mut i: usize = 0;
        while i < self.fields.len()
            invariant
                i <= self.fields.len() <= MAX_FIELDS,
                fields == texts(self.fields@),
                redact == texts(self.redact@),
                forall|j: int| 0 <= j < i ==> known_field(#[trigger] fields[j]),
            decreases self.fields.len() - i,
        {
            assert(fields[i as int] == self.fields@[i as int]@);
            if !is_known(self.fields[i].as_str()) {
                return Err(PolicyError::UnsupportedField);
            }
            i += 1;
        }
        if self.redact.len() > MAX_REDACTED {
            return Err(PolicyError::InvalidRedaction);
        }
        let mut i: usize = 0;
        while i < self.redact.len()
            invariant
                i <= self.redact.len() <= MAX_REDACTED,
                fields == texts(self.fields@),
                redact == texts(self.redact@),
                fields.len() <= MAX_FIELDS,
                forall|j: int| 0 <= j < fields.len() ==> known_field(#[trigger] fields[j]),
                forall|j: int| 0 <= j < i ==> key_accepted(#[trigger] redact[j]),
            decreases self.redact.len() - i,
        {
            assert(redact[i as int] == self.redact@[i as int]@);
            let n = text::len(self.redact[i].as_str());
            if n == 0 || n > MAX_KEY_BYTES {
                assert(!key_accepted(redact[i as int]));
                return Err(PolicyError::InvalidRedaction);
            }
            i += 1;
        }
        Ok(())
    }

    /// A URI as the log shows it: without its query, or with the values of redacted keys replaced.
    pub open spec fn shown_uri(&self, value: Seq<char>) -> Seq<char> {
        match text::split_once_spec(value, '?') {
            None => value,
            Some((path, query)) => if !self.query {
                path
            } else {
                path + "?"@ + text::join_spec(
                    shown_pairs(texts(self.redact@), split_spec(query, '&')),
                    "&"@,
                )
            },
        }
    }

    pub fn uri(&self, value: &str) -> (out: String)
        ensures
            out@ == self.shown_uri(value@),
    {
        let (path, query) = match text::split_once(value, '?') {
            Some(p) => p,
            None => return value.to_owned(),
        };
        if !self.query {
            return path;
        }
        let parts = text::split(query.as_str(), '&');
        let ghost all = texts(parts@);
        let ghost red = texts(self.redact@);
        let mut out: Vec<String> = Vec::new();
        let mut i: usize = 0;
        while i < parts.len()
            invariant
                i <= parts.len(),
                all == texts(parts@),
                red == texts(self.redact@),
                texts(out@) == shown_pairs(red, all).take(i as int),
            decreases parts.len() - i,
        {
            let ghost before = texts(out@);
            let decoded = decode_key(parts[i].as_str());
            let shown = show_pair(&self.redact, parts[i].as_str(), decoded.as_str());
            let ghost x = shown@;
            out.push(shown);
            proof {
                assert(all[i as int] == parts@[i as int]@);
                assert(texts(out@) =~= before.push(x));
                assert(shown_pairs(red, all).take(i + 1) =~= shown_pairs(red, all).take(
                    i as int,
                ).push(x));
            }
            i += 1;
        }
        assert(shown_pairs(red, all).take(i as int) =~= shown_pairs(red, all));
        text::concat3(path.as_str(), "?", text::join(&out, "&").as_str())
    }

    pub open spec fn shown_referer(&self, value: Seq<char>) -> Seq<char> {
        if self.referer {
            self.shown_uri(value)
        } else {
            "-"@
        }
    }

    pub open spec fn shown_client(&self, value: Seq<char>) -> Seq<char> {
        if self.client {
            value
        } else {
            "-"@
        }
    }

    /// A record as one line of text.
    pub open spec fn line(&self, r: Record) -> Seq<char> {
        escaped(self.shown_client(r.client@)) + " - - ["@ + escaped(r.timestamp@) + "] \""@ + escaped(
            r.method@,
        ) + " "@ + escaped(self.shown_uri(r.uri@)) + " "@ + escaped(r.protocol@) + "\" "@ + escaped(
            r.status@,
        ) + " "@ + escaped(r.bytes@) + " \""@ + escaped(self.shown_referer(r.referer@)) + "\" \""@
            + escaped(r.user_agent@) + "\" route=\""@ + escaped(r.route@) + "\" backend=\""@
            + escaped(r.backend@) + "\" upstream=\""@ + escaped(r.upstream@) + "\" config=\""@
            + escaped(r.config@) + "\" trace_id=\""@ + escaped(r.trace_id@) + "\" span_id=\""@
            + escaped(r.span_id@) + "\" parent_span_id=\""@ + escaped(r.parent_span_id@)
            + "\" upstream_span_id=\""@ + escaped(r.upstream_span_id@) + "\" trace_sampled="@
            + escaped(r.trace_sampled@)
    }

    /// A record as one line of text.
    pub fn render(&self, r: &Record) -> (out: String)
        ensures
            out@ == self.line(*r),
    {
        let client = if self.client {
            r.client.as_str()
        } else {
            "-"
        };
        let uri = self.uri(r.uri.as_str());
        let referer = if self.referer {
            self.uri(r.referer.as_str())
        } else {
            "-".to_owned()
        };
        let mut out = escape(client);
        out.append(" - - [");
        out.append(escape(r.timestamp.as_str()).as_str());
        out.append("] \"");
        out.append(escape(r.method.as_str()).as_str());
        out.append(" ");
        out.append(escape(uri.as_str()).as_str());
        out.append(" ");
        out.append(escape(r.protocol.as_str()).as_str());
        out.append("\" ");
        out.append(escape(r.status.as_str()).as_str());
        out.append(" ");
        out.append(escape(r.bytes.as_str()).as_str());
        out.append(" \"");
        out.append(escape(referer.as_str()).as_str());
        out.append("\" \"");
        out.append(escape(r.user_agent.as_str()).as_str());
        out.append("\" route=\"");
        out.append(escape(r.route.as_str()).as_str());
        out.append("\" backend=\"");
        out.append(escape(r.backend.as_str()).as_str());
        out.append("\" upstream=\"");
        out.append(escape(r.upstream.as_str()).as_str());
        out.append("\" config=\"");
        out.append(escape(r.config.as_str()).as_str());
        out.append("\" trace_id=\"");
        out.append(escape(r.trace_id.as_str()).as_str());
        out.append("\" span_id=\"");
        out.append(escape(r.span_id.as_str()).as_str());
        out.append("\" parent_span_id=\"");
        out.append(escape(r.parent_span_id.as_str()).as_str());
        out.append("\" upstream_span_id=\"");
        out.append(escape(r.upstream_span_id.as_str()).as_str());
        out.append("\" trace_sampled=");
        out.append(escape(r.trace_sampled.as_str()).as_str());
        out
    }

    /// The fields of a JSON record: all, or those that the policy names.
    pub fn shows(&self, field: &str) -> (r: bool)
        ensures
            r == (self.fields@.len() == 0 || texts(self.fields@).contains(field@)),
    {
        self.fields.len() == 0 || text::contains(&self.fields, field)
    }
}

/// No line break and no unescaped quote comes out of escaping, whatever a client sent.
pub proof fn law_escaped_text_stays_in_its_quotes(s: Seq<char>)
    ensures
        forall|i: int| 0 <= i < escaped(s).len() ==> !control(#[trigger] escaped(s)[i]),
        forall|i: int|
            0 <= i < escaped(s).len() && #[trigger] escaped(s)[i] == '"' ==> 0 < i && escaped(s)[i
                - 1] == '\\',
    decreases s.len(),
{
    if s.len() > 0 {
        law_escaped_text_stays_in_its_quotes(s.drop_last());
        let before = escaped(s.drop_last());
        let e = escaped(s);
        assert forall|i: int| 0 <= i < e.len() implies !control(#[trigger] e[i]) by {
            if i < before.len() {
                assert(e[i] == before[i]);
            } else {
                assert(e[i] == escaped_char(s.last())[i - before.len()]);
            }
        }
        assert forall|i: int| 0 <= i < e.len() && #[trigger] e[i] == '"' implies 0 < i && e[i - 1]
            == '\\' by {
            if i < before.len() {
                assert(e[i] == before[i]);
                assert(e[i - 1] == before[i - 1]);
            } else {
                assert(e[i] == escaped_char(s.last())[i - before.len()]);
                assert(i - before.len() == 1);
                assert(e[i - 1] == escaped_char(s.last())[0]);
            }
        }
    }
}

/// Of a redacted parameter nothing but its key is shown.
pub proof fn law_redacted_values_are_not_shown(
    redact: Seq<Seq<char>>,
    key: Seq<char>,
    a: Seq<char>,
    b: Seq<char>,
    decoded: Seq<char>,
)
    requires
        !key.contains('='),
        listed(redact, decoded),
    ensures
        shown_pair(redact, key + "="@ + a, decoded) == shown_pair(
            redact,
            key + "="@ + b,
            decoded,
        ),
{
    reveal_strlit("=");
    let p = key + "="@ + a;
    let q = key + "="@ + b;
    assert forall|i: int| 0 <= i < key.len() implies key[i] != '=' by {
        assert(key.contains(key[i]));
    }
    text::lemma_position_is(p, '=', key.len() as int);
    text::lemma_position_is(q, '=', key.len() as int);
    assert(p.take(key.len() as int) =~= key);
    assert(q.take(key.len() as int) =~= key);
}

/// A policy may name the fields that there are, at most twenty, and up to 64 words to redact, of at most 128
/// bytes.
pub proof fn law_log_fields_are_known(fields: Seq<Seq<char>>, redact: Seq<Seq<char>>, i: int)
    ensures
        0 <= i < fields.len() && !known_field(fields[i]) ==> fields_checked(fields, redact) == Err::<
            (),
            PolicyError,
        >(PolicyError::UnsupportedField),
        fields.len() > 20 ==> fields_checked(fields, redact) == Err::<(), PolicyError>(
            PolicyError::UnsupportedField,
        ),
        fields.len() == 0 && redact.len() > 64 ==> fields_checked(fields, redact) == Err::<(), PolicyError>(
            PolicyError::InvalidRedaction,
        ),
        fields.len() == 0 && 0 <= i < redact.len() && (text::byte_len(redact[i]) == 0 || text::byte_len(redact[i])
            > 128) ==> fields_checked(fields, redact) == Err::<(), PolicyError>(PolicyError::InvalidRedaction),
        fields_checked(Seq::empty(), Seq::empty()) == Ok::<(), PolicyError>(()),
        known_field("status"@) && known_field("uri"@) && known_field("client"@) && known_field("grpc_status"@),
{
}

/// A query is shown where the policy shows queries, and else the path alone; so are clients and referers.
pub proof fn law_logs_show_what_they_may(p: Policy, path: Seq<char>, query: Seq<char>, client: Seq<char>)
    requires
        !path.contains('?'),
    ensures
        !p.query ==> p.shown_uri(path + seq!['?'] + query) == path,
        p.shown_uri(path) == path,
        p.query ==> text::starts(p.shown_uri(path + seq!['?'] + query), path + "?"@),
        p.client ==> p.shown_client(client) == client,
        !p.client ==> p.shown_client(client) == "-"@,
        !p.referer ==> p.shown_referer(client) == "-"@,
        p.referer ==> p.shown_referer(client) == p.shown_uri(client),
{
    let s = path + seq!['?'] + query;
    assert forall|i: int| 0 <= i < path.len() implies s[i] != '?' by {
        assert(path.contains(s[i]));
    }
    text::lemma_position_is(s, '?', path.len() as int);
    assert(s.take(path.len() as int) =~= path);
    assert forall|i: int| 0 <= i < path.len() implies path[i] != '?' by {
        assert(path.contains(path[i]));
    }
    text::lemma_position_is(path, '?', path.len() as int);
    if p.query {
        let rest = text::join_spec(shown_pairs(texts(p.redact@), split_spec(query, '&')), "&"@);
        assert(s.skip(path.len() as int + 1) =~= query);
        assert((path + "?"@ + rest).take((path + "?"@).len() as int) =~= path + "?"@);
    }
}

/// A pair is shown as it is unless its key is one to redact, in any case.
pub proof fn law_other_pairs_are_shown(redact: Seq<Seq<char>>, pair: Seq<char>, decoded: Seq<char>, i: int)
    ensures
        !listed(redact, decoded) ==> shown_pair(redact, pair, decoded) == pair,
        0 <= i < redact.len() && lowercase(redact[i]) == lowercase(decoded) ==> shown_pair(redact, pair, decoded)
            == raw_key(pair) + "=[REDACTED]"@,
{
}

} // verus!

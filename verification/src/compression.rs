//! Which responses are compressed, and with which coding.
use crate::header;
use crate::header::{first_text_of, values, visible_text, Field, Headers};
use crate::identity::total_len;
use crate::text;
use crate::text::{lowercase, split_spec, trim_spec};
use vstd::prelude::*;

verus! {

pub const MAX_ACCEPT_BYTES: usize = 8192;

/// The levels of the codings (0 for off), and what is worth compressing.
#[derive(Debug)]
pub struct Compression {
    pub gzip: u32,
    pub brotli: u32,
    pub min_length: u64,
    pub types: Vec<String>,
}

impl Default for Compression {
    fn default() -> (r: Self)
        ensures
            r.gzip == 0,
            r.brotli == 0,
            r.min_length == 1024,
            text::texts(r.types@) == seq![
                "text/html"@,
                "text/plain"@,
                "text/css"@,
                "application/javascript"@,
                "application/json"@,
                "image/svg+xml"@,
            ],
    {
        let mut types: Vec<String> = Vec::new();
        types.push("text/html".to_owned());
        types.push("text/plain".to_owned());
        types.push("text/css".to_owned());
        types.push("application/javascript".to_owned());
        types.push("application/json".to_owned());
        types.push("image/svg+xml".to_owned());
        assert(text::texts(types@) =~= seq![
            "text/html"@,
            "text/plain"@,
            "text/css"@,
            "application/javascript"@,
            "application/json"@,
            "image/svg+xml"@,
        ]);
        Compression { gzip: 0, brotli: 0, min_length: 1024, types }
    }
}

#[derive(Clone, Copy, Debug, PartialEq, Eq, Structural)]
pub enum Encoding {
    Brotli,
    Gzip,
}

impl Encoding {
    pub fn name(self) -> (r: &'static str)
        ensures
            r@ == match self {
                Encoding::Brotli => "br"@,
                Encoding::Gzip => "gzip"@,
            },
    {
        match self {
            Encoding::Brotli => "br",
            Encoding::Gzip => "gzip",
        }
    }
}

/// What an element of `Accept-Encoding` speaks of.
#[derive(Clone, Copy, Debug, PartialEq, Eq, Structural)]
pub enum Coding {
    Brotli,
    Gzip,
    Any,
    Identity,
}

pub open spec fn thousandths(fraction: Seq<char>) -> nat {
    let n = text::digits_value(fraction);
    if fraction.len() == 0 {
        0
    } else if fraction.len() == 1 {
        n * 100
    } else if fraction.len() == 2 {
        n * 10
    } else {
        n
    }
}

pub open spec fn zeros(s: Seq<char>) -> bool {
    forall|i: int| 0 <= i < s.len() ==> s[i] == '0'
}

/// A quality in thousandths: `0` or `1` with at most three decimals, and at most 1.
pub open spec fn quality_of(s: Seq<char>) -> Option<nat> {
    let (integer, fraction) = match text::split_once_spec(s, '.') {
        Some((a, b)) => (a, b),
        None => (s, Seq::empty()),
    };
    if fraction.len() > 3 || !text::all_digits(fraction) {
        None
    } else if integer == "0"@ {
        Some(thousandths(fraction))
    } else if integer == "1"@ && zeros(fraction) {
        Some(1000)
    } else {
        None
    }
}

proof fn lemma_three_digits(s: Seq<char>)
    requires
        s.len() <= 3,
        text::all_digits(s),
    ensures
        s.len() == 1 ==> text::digits_value(s) < 10,
        s.len() == 2 ==> text::digits_value(s) < 100,
        text::digits_value(s) < 1000,
{
    reveal_with_fuel(text::digits_value, 4);
    if s.len() > 0 {
        assert(text::spec_digit(s[s.len() - 1]));
        if s.len() > 1 {
            assert(text::spec_digit(s[s.len() - 2]));
            if s.len() > 2 {
                assert(text::spec_digit(s[s.len() - 3]));
            }
        }
    }
}

fn all_zeros(v: &Vec<char>) -> (r: bool)
    ensures
        r == zeros(v@),
{
    let mut i: usize = 0;
    while i < v.len()
        invariant
            i <= v.len(),
            forall|j: int| 0 <= j < i ==> v@[j] == '0',
        decreases v.len() - i,
    {
        if v[i] != '0' {
            return false;
        }
        i += 1;
    }
    true
}

fn quality(value: &str) -> (r: Option<u16>)
    ensures
        match r {
            Some(q) => quality_of(value@) == Some(q as nat) && q <= 1000,
            None => quality_of(value@) is None,
        },
{
    let (integer, fraction) = match text::split_once(value, '.') {
        Some((a, b)) => (a, b),
        None => (value.to_owned(), String::new()),
    };
    let v = text::chars(fraction.as_str());
    assert(v@.skip(0) =~= fraction@);
    if v.len() > 3 {
        return None;
    }
    let n: u64 = if v.len() == 0 {
        0
    } else {
        match text::parse_digits(&v, 0, 1000) {
            Some(n) => n,
            None => {
                proof {
                    if text::all_digits(fraction@) {
                        lemma_three_digits(fraction@);
                    }
                }
                return None;
            },
        }
    };
    proof {
        lemma_three_digits(fraction@);
    }
    if text::same(integer.as_str(), "0") {
        let scaled: u64 = if v.len() == 0 {
            0
        } else if v.len() == 1 {
            n * 100
        } else if v.len() == 2 {
            n * 10
        } else {
            n
        };
        Some(scaled as u16)
    } else if text::same(integer.as_str(), "1") {
        proof {
            reveal_strlit("0");
            reveal_strlit("1");
            assert("0"@[0] != "1"@[0]);
        }
        if !all_zeros(&v) {
            return None;
        }
        Some(1000)
    } else {
        None
    }
}

/// What one element says: nothing where it is malformed, and no coding where it can be ignored.
pub open spec fn element_of(s: Seq<char>) -> Option<Option<(Coding, nat)>> {
    let parts = split_spec(trim_spec(s), ';');
    let name = trim_spec(parts[0]);
    if name.len() == 0 {
        Some(None)
    } else {
        let q: Option<nat> = if parts.len() == 1 {
            Some(1000)
        } else {
            match text::split_once_spec(trim_spec(parts[1]), '=') {
                Some((k, v)) => if lowercase(k) == lowercase("q"@) && parts.len() == 2 {
                    quality_of(trim_spec(v))
                } else {
                    None
                },
                None => None,
            }
        };
        match q {
            None => None,
            Some(q) => if lowercase(name) == lowercase("br"@) {
                Some(Some((Coding::Brotli, q)))
            } else if lowercase(name) == lowercase("gzip"@) {
                Some(Some((Coding::Gzip, q)))
            } else if name == "*"@ {
                Some(Some((Coding::Any, q)))
            } else if lowercase(name) == lowercase("identity"@) {
                Some(Some((Coding::Identity, q)))
            } else {
                Some(None)
            },
        }
    }
}

fn element(s: &str) -> (r: Option<Option<(Coding, u16)>>)
    ensures
        match r {
            Some(Some((c, q))) => element_of(s@) == Some(Some((c, q as nat))) && q <= 1000,
            Some(None) => element_of(s@) == Some(None::<(Coding, nat)>),
            None => element_of(s@) is None,
        },
{
    let parts = text::split(text::trim(s), ';');
    let ghost p = text::texts(parts@);
    assert(p.len() == parts.len());
    assert(p[0] == parts@[0]@);
    let name = text::trim(parts[0].as_str());
    if name.is_empty() {
        return Some(None);
    }
    let q: u16 = if parts.len() == 1 {
        1000
    } else {
        assert(p[1] == parts@[1]@);
        match text::split_once(text::trim(parts[1].as_str()), '=') {
            Some((k, v)) => {
                if !text::same_ignoring_case(k.as_str(), "q") || parts.len() != 2 {
                    return None;
                }
                match quality(text::trim(v.as_str())) {
                    Some(q) => q,
                    None => return None,
                }
            },
            None => return None,
        }
    };
    if text::same_ignoring_case(name, "br") {
        Some(Some((Coding::Brotli, q)))
    } else if text::same_ignoring_case(name, "gzip") {
        Some(Some((Coding::Gzip, q)))
    } else if text::same(name, "*") {
        Some(Some((Coding::Any, q)))
    } else if text::same_ignoring_case(name, "identity") {
        Some(Some((Coding::Identity, q)))
    } else {
        Some(None)
    }
}

/// The preferences that elements state, in order; nothing where one is malformed.
pub open spec fn elements_of(v: Seq<Seq<char>>) -> Option<Seq<(Coding, nat)>>
    decreases v.len(),
{
    if v.len() == 0 {
        Some(Seq::empty())
    } else {
        match (elements_of(v.drop_last()), element_of(v.last())) {
            (Some(a), Some(Some(e))) => Some(a.push(e)),
            (Some(a), Some(None)) => Some(a),
            _ => None,
        }
    }
}

/// The preferences that the fields state.
pub open spec fn preferences(fields: Seq<Seq<u8>>) -> Option<Seq<(Coding, nat)>>
    decreases fields.len(),
{
    if fields.len() == 0 {
        Some(Seq::empty())
    } else {
        match (preferences(fields.drop_last()), visible_text(fields.last())) {
            (Some(a), Some(s)) => match elements_of(split_spec(s, ',')) {
                Some(b) => Some(a + b),
                None => None,
            },
            _ => None,
        }
    }
}

/// The lowest quality that is stated for a coding.
pub open spec fn lowest(v: Seq<(Coding, nat)>, c: Coding) -> Option<nat>
    decreases v.len(),
{
    if v.len() == 0 {
        None
    } else {
        let before = lowest(v.drop_last(), c);
        let (d, q) = v.last();
        if d != c {
            before
        } else {
            match before {
                Some(old) => Some(if old <= q {
                    old
                } else {
                    q
                }),
                None => Some(q),
            }
        }
    }
}

pub open spec fn or(a: Option<nat>, b: nat) -> nat {
    match a {
        Some(n) => n,
        None => b,
    }
}

/// The quality of a coding: what is stated for it, else for `*`; 0 where it is switched off.
pub open spec fn effective(v: Seq<(Coding, nat)>, c: Coding, level: u32) -> nat {
    if level > 0 {
        or(lowest(v, c), or(lowest(v, Coding::Any), 0))
    } else {
        0
    }
}

/// The coding with the best quality, brotli first; none where it is 0 or where no coding at all is
/// preferred.
pub open spec fn chosen(v: Seq<(Coding, nat)>, gzip: u32, brotli: u32) -> Option<Encoding> {
    let br = effective(v, Coding::Brotli, brotli);
    let gz = effective(v, Coding::Gzip, gzip);
    let best = if br >= gz {
        br
    } else {
        gz
    };
    if best == 0 || or(lowest(v, Coding::Identity), 0) > best {
        None
    } else if br >= gz {
        Some(Encoding::Brotli)
    } else {
        Some(Encoding::Gzip)
    }
}

pub open spec fn negotiated(fields: Seq<Seq<u8>>, gzip: u32, brotli: u32) -> Option<Encoding> {
    if total_len(fields) > MAX_ACCEPT_BYTES {
        None
    } else {
        match preferences(fields) {
            Some(v) => chosen(v, gzip, brotli),
            None => None,
        }
    }
}

struct Qualities {
    brotli: Option<u16>,
    gzip: Option<u16>,
    any: Option<u16>,
    identity: Option<u16>,
}

spec fn is(a: Option<u16>, b: Option<nat>) -> bool {
    match a {
        Some(n) => b == Some(n as nat),
        None => b is None,
    }
}

impl Qualities {
    spec fn of(&self, v: Seq<(Coding, nat)>) -> bool {
        &&& is(self.brotli, lowest(v, Coding::Brotli))
        &&& is(self.gzip, lowest(v, Coding::Gzip))
        &&& is(self.any, lowest(v, Coding::Any))
        &&& is(self.identity, lowest(v, Coding::Identity))
    }

    fn note(&mut self, c: Coding, q: u16, seen: Ghost<Seq<(Coding, nat)>>)
        requires
            old(self).of(seen@),
        ensures
            final(self).of(seen@.push((c, q as nat))),
    {
        proof {
            let now = seen@.push((c, q as nat));
            assert(now.drop_last() =~= seen@);
            assert(now.last() == (c, q as nat));
        }
        match c {
            Coding::Brotli => {
                self.brotli = least(self.brotli, q);
            },
            Coding::Gzip => {
                self.gzip = least(self.gzip, q);
            },
            Coding::Any => {
                self.any = least(self.any, q);
            },
            Coding::Identity => {
                self.identity = least(self.identity, q);
            },
        }
    }
}

fn least(a: Option<u16>, q: u16) -> (r: Option<u16>)
    ensures
        r == match a {
            Some(old) => Some(if old <= q {
                old
            } else {
                q
            }),
            None => Some(q),
        },
{
    match a {
        Some(old) => if old <= q {
            Some(old)
        } else {
            Some(q)
        },
        None => Some(q),
    }
}

proof fn lemma_elements_prefix(v: Seq<Seq<char>>, n: int)
    requires
        0 <= n <= v.len(),
        elements_of(v.take(n)) is None,
    ensures
        elements_of(v) is None,
    decreases v.len(),
{
    if n == v.len() {
        assert(v.take(n) =~= v);
    } else {
        assert(v.drop_last().take(n) =~= v.take(n));
        lemma_elements_prefix(v.drop_last(), n);
    }
}

proof fn lemma_preferences_prefix(fields: Seq<Seq<u8>>, n: int)
    requires
        0 <= n <= fields.len(),
    ensures
        preferences(fields.take(n)) is None ==> preferences(fields) is None,
        total_len(fields.take(n)) <= total_len(fields),
    decreases fields.len(),
{
    if n == fields.len() {
        assert(fields.take(n) =~= fields);
    } else {
        assert(fields.drop_last().take(n) =~= fields.take(n));
        lemma_preferences_prefix(fields.drop_last(), n);
    }
}

fn note_field(q: &mut Qualities, s: &str, seen: Ghost<Seq<(Coding, nat)>>) -> (r: bool)
    requires
        old(q).of(seen@),
    ensures
        r == (elements_of(split_spec(s@, ',')) is Some),
        r ==> final(q).of(seen@ + elements_of(split_spec(s@, ','))->0),
{
    let items = text::split(s, ',');
    let ghost all = text::texts(items@);
    let ghost mut got: Seq<(Coding, nat)> = Seq::empty();
    let mut i: usize = 0;
    assert(seen@ + got =~= seen@);
    while i < items.len()
        invariant
            i <= items.len(),
            all == text::texts(items@),
            all == split_spec(s@, ','),
            elements_of(all.take(i as int)) == Some(got),
            q.of(seen@ + got),
        decreases items.len() - i,
    {
        proof {
            assert(all.take(i + 1).drop_last() =~= all.take(i as int));
            assert(all.take(i + 1).last() == items@[i as int]@);
        }
        match element(items[i].as_str()) {
            None => {
                proof {
                    lemma_elements_prefix(all, i + 1);
                }
                return false;
            },
            Some(None) => {},
            Some(Some((c, quality))) => {
                q.note(c, quality, Ghost(seen@ + got));
                proof {
                    assert((seen@ + got).push((c, quality as nat)) =~= seen@ + got.push(
                        (c, quality as nat),
                    ));
                    got = got.push((c, quality as nat));
                }
            },
        }
        i += 1;
    }
    assert(all.take(i as int) =~= all);
    true
}

/// The coding to use for a client that sent these `Accept-Encoding` fields.
pub fn negotiated_encoding(headers: &Headers, policy: &Compression) -> (r: Option<Encoding>)
    ensures
        r == negotiated(values(headers.fields@, "accept-encoding"@), policy.gzip, policy.brotli),
{
    let fields = headers.all("accept-encoding");
    let ghost all = values(headers.fields@, "accept-encoding"@);
    let ghost mut seen: Seq<(Coding, nat)> = Seq::empty();
    let mut q = Qualities { brotli: None, gzip: None, any: None, identity: None };
    let mut bytes: usize = 0;
    let mut i: usize = 0;
    while i < fields.len()
        invariant
            i <= fields.len(),
            fields@.len() == all.len(),
            forall|j: int| 0 <= j < fields@.len() ==> (#[trigger] fields@[j])@ == all[j],
            all == values(headers.fields@, "accept-encoding"@),
            preferences(all.take(i as int)) == Some(seen),
            q.of(seen),
            bytes == total_len(all.take(i as int)),
            bytes <= MAX_ACCEPT_BYTES,
        decreases fields.len() - i,
    {
        proof {
            assert(all.take(i + 1).drop_last() =~= all.take(i as int));
            assert(all.take(i + 1).last() == fields@[i as int]@);
            lemma_preferences_prefix(all, i + 1);
        }
        let value = fields[i];
        if value.len() > MAX_ACCEPT_BYTES - bytes {
            return None;
        }
        bytes += value.len();
        let s = match header::to_text(value) {
            Some(s) => s,
            None => return None,
        };
        if !note_field(&mut q, s.as_str(), Ghost(seen)) {
            return None;
        }
        proof {
            seen = seen + elements_of(split_spec(s@, ','))->0;
        }
        i += 1;
    }
    assert(all.take(i as int) =~= all);
    let wildcard: u16 = match q.any {
        Some(n) => n,
        None => 0,
    };
    let br: u16 = if policy.brotli > 0 {
        match q.brotli {
            Some(n) => n,
            None => wildcard,
        }
    } else {
        0
    };
    let gzip: u16 = if policy.gzip > 0 {
        match q.gzip {
            Some(n) => n,
            None => wildcard,
        }
    } else {
        0
    };
    let best: u16 = if br >= gzip {
        br
    } else {
        gzip
    };
    let identity: u16 = match q.identity {
        Some(n) => n,
        None => 0,
    };
    if best == 0 || identity > best {
        None
    } else if br >= gzip {
        Some(Encoding::Brotli)
    } else {
        Some(Encoding::Gzip)
    }
}

/// Whether one of the fields has a directive among its comma-separated parts.
pub open spec fn has_directive(fields: Seq<Seq<u8>>, name: Seq<char>) -> bool {
    exists|i: int, j: int|
        #![trigger part_of(fields, i, j)]
        0 <= i < fields.len() && visible_text(fields[i]) is Some && 0 <= j < split_spec(
            visible_text(fields[i])->0,
            ',',
        ).len() && lowercase(trim_spec(part_of(fields, i, j))) == lowercase(name)
}

pub open spec fn part_of(fields: Seq<Seq<u8>>, i: int, j: int) -> Seq<char> {
    split_spec(visible_text(fields[i])->0, ',')[j]
}

fn find_directive(headers: &Headers, field: &str, name: &str) -> (r: bool)
    ensures
        r == has_directive(values(headers.fields@, field@), name@),
{
    let fields = headers.all(field);
    let ghost all = values(headers.fields@, field@);
    let mut i: usize = 0;
    while i < fields.len()
        invariant
            i <= fields.len(),
            fields@.len() == all.len(),
            forall|k: int| 0 <= k < fields@.len() ==> (#[trigger] fields@[k])@ == all[k],
            all == values(headers.fields@, field@),
            forall|k: int, j: int|
                #![trigger part_of(all, k, j)]
                0 <= k < i && visible_text(all[k]) is Some && 0 <= j < split_spec(
                    visible_text(all[k])->0,
                    ',',
                ).len() ==> lowercase(trim_spec(part_of(all, k, j))) != lowercase(name@),
        decreases fields.len() - i,
    {
        match header::to_text(fields[i]) {
            None => {},
            Some(s) => {
                let parts = text::split(s.as_str(), ',');
                let mut j: usize = 0;
                while j < parts.len()
                    invariant
                        j <= parts.len(),
                        i < fields.len() == all.len(),
                        visible_text(all[i as int]) == Some(s@),
                        all == values(headers.fields@, field@),
                        text::texts(parts@) == split_spec(s@, ','),
                        forall|k: int|
                            0 <= k < j ==> lowercase(
                                trim_spec(#[trigger] part_of(all, i as int, k)),
                            ) != lowercase(name@),
                    decreases parts.len() - j,
                {
                    assert(text::texts(parts@)[j as int] == parts@[j as int]@);
                    assert(part_of(all, i as int, j as int) == parts@[j as int]@);
                    if text::same_ignoring_case(text::trim(parts[j].as_str()), name) {
                        return true;
                    }
                    j += 1;
                }
                assert(text::texts(parts@).len() == parts.len());
            },
        }
        i += 1;
    }
    false
}

/// The media type of a response without its parameters, in lower case.
pub open spec fn media_type(fields: Seq<Field>) -> Seq<char> {
    let s = match first_text_of(fields, "content-type"@) {
        Some(s) => s,
        None => Seq::empty(),
    };
    lowercase(trim_spec(split_spec(s, ';')[0]))
}

fn read_media_type(headers: &Headers) -> (out: String)
    ensures
        out@ == media_type(headers.fields@),
{
    let s = match headers.first_text("content-type") {
        Some(s) => s,
        None => String::new(),
    };
    let parts = text::split(s.as_str(), ';');
    assert(text::texts(parts@)[0] == parts@[0]@);
    assert(match first_text_of(headers.fields@, "content-type"@) {
        Some(t) => s@ == t,
        None => s@ =~= Seq::<char>::empty(),
    });
    text::to_lowercase(text::trim(parts[0].as_str()))
}

/// Whether the length of a response is stated and below a bound.
pub open spec fn stated_below(fields: Seq<Field>, bound: u64) -> bool {
    match first_text_of(fields, "content-length"@) {
        Some(s) => match text::decimal_upto(s, u64::MAX as nat) {
            Some(n) => n < bound,
            None => false,
        },
        None => false,
    }
}

/// Whether a response may be compressed at all.
pub open spec fn compressible(
    method: Seq<char>,
    request: Seq<Field>,
    status: u16,
    response: Seq<Field>,
    policy: Compression,
) -> bool {
    let kind = media_type(response);
    &&& method != "HEAD"@
    &&& values(request, "range"@).len() == 0
    &&& status == 200
    &&& values(response, "content-encoding"@).len() == 0
    &&& values(response, "content-range"@).len() == 0
    &&& !has_directive(values(response, "cache-control"@), "no-transform"@)
    &&& !has_directive(values(request, "cache-control"@), "no-transform"@)
    &&& !stated_below(response, policy.min_length)
    &&& kind != "text/event-stream"@
    &&& !text::starts(kind, "application/grpc"@)
    &&& exists|i: int|
        0 <= i < policy.types@.len() && lowercase((#[trigger] policy.types@[i])@) == lowercase(kind)
}

/// The coding with which a response is sent.
pub open spec fn sent_with(
    method: Seq<char>,
    request: Seq<Field>,
    status: u16,
    response: Seq<Field>,
    policy: Compression,
) -> Option<Encoding> {
    if compressible(method, request, status, response, policy) {
        negotiated(values(request, "accept-encoding"@), policy.gzip, policy.brotli)
    } else {
        None
    }
}

/// The coding with which a response is sent: the negotiated one where the response may be compressed.
pub fn prepare(
    method: &str,
    request: &Headers,
    status: u16,
    response: &Headers,
    policy: &Compression,
) -> (r: Option<Encoding>)
    ensures
        r == if compressible(method@, request.fields@, status, response.fields@, *policy) {
            negotiated(
                values(request.fields@, "accept-encoding"@),
                policy.gzip,
                policy.brotli,
            )
        } else {
            None
        },
        r == sent_with(method@, request.fields@, status, response.fields@, *policy),
        values(response.fields@, "content-encoding"@).len() > 0 ==> r is None,
        values(response.fields@, "content-range"@).len() > 0 ==> r is None,
        values(request.fields@, "range"@).len() > 0 ==> r is None,
        method@ == "HEAD"@ || status != 200 ==> r is None,
        policy.gzip == 0 ==> r != Some(Encoding::Gzip),
        policy.brotli == 0 ==> r != Some(Encoding::Brotli),
{
    let kind = read_media_type(response);
    if text::same(method, "HEAD") || request.has("range") || status != 200 || response.has(
        "content-encoding",
    ) || response.has("content-range") {
        return None;
    }
    if find_directive(response, "cache-control", "no-transform") || find_directive(
        request,
        "cache-control",
        "no-transform",
    ) {
        return None;
    }
    let small = match response.first_text("content-length") {
        Some(s) => match text::parse_u64(s.as_str()) {
            Some(n) => n < policy.min_length,
            None => false,
        },
        None => false,
    };
    if small || text::same(kind.as_str(), "text/event-stream") || text::starts_with(
        kind.as_str(),
        "application/grpc",
    ) {
        return None;
    }
    if listed(&policy.types, kind.as_str()) {
        negotiated_encoding(request, policy)
    } else {
        None
    }
}

/// Whether a list holds a text, letter case aside.
fn listed(v: &Vec<String>, s: &str) -> (r: bool)
    ensures
        r == exists|i: int|
            0 <= i < v@.len() && lowercase((#[trigger] v@[i])@) == lowercase(s@),
{
    let mut i: usize = 0;
    while i < v.len()
        invariant
            i <= v.len(),
            forall|j: int| 0 <= j < i ==> lowercase((#[trigger] v@[j])@) != lowercase(s@),
        decreases v.len() - i,
    {
        if text::same_ignoring_case(v[i].as_str(), s) {
            return true;
        }
        i += 1;
    }
    false
}

/// A coding is never chosen that the client refused, nor one that is switched off.
pub proof fn law_refused_codings_are_not_chosen(v: Seq<(Coding, nat)>, gzip: u32, brotli: u32)
    ensures
        chosen(v, gzip, brotli) == Some(Encoding::Brotli) ==> brotli > 0 && lowest(
            v,
            Coding::Brotli,
        ) != Some(0nat),
        chosen(v, gzip, brotli) == Some(Encoding::Gzip) ==> gzip > 0 && lowest(v, Coding::Gzip)
            != Some(0nat),
{
}

/// A response that is encoded already is passed on as it is.
pub proof fn law_encoded_responses_stay(
    method: Seq<char>,
    request: Seq<Field>,
    status: u16,
    response: Seq<Field>,
    policy: Compression,
    i: int,
)
    requires
        0 <= i < response.len(),
        response[i].name@ == "content-encoding"@,
    ensures
        sent_with(method, request, status, response, policy) is None,
{
    lemma_field_is_there(response, "content-encoding"@, i);
}

proof fn lemma_field_is_there(v: Seq<Field>, name: Seq<char>, i: int)
    requires
        0 <= i < v.len(),
        v[i].name@ == name,
    ensures
        values(v, name).len() > 0,
    decreases v.len(),
{
    if i < v.len() - 1 {
        lemma_field_is_there(v.drop_last(), name, i);
    }
}

/// A part of a file is not compressed, nor what was asked for in part.
pub proof fn law_parts_are_not_compressed(
    method: Seq<char>,
    request: Seq<Field>,
    status: u16,
    response: Seq<Field>,
    policy: Compression,
    i: int,
)
    requires
        (0 <= i < response.len() && response[i].name@ == "content-range"@) || (0 <= i < request.len()
            && request[i].name@ == "range"@),
    ensures
        sent_with(method, request, status, response, policy) is None,
{
    if 0 <= i < response.len() && response[i].name@ == "content-range"@ {
        lemma_field_is_there(response, "content-range"@, i);
    } else {
        lemma_field_is_there(request, "range"@, i);
    }
}

/// Nothing but whole answers to other methods than `HEAD` is compressed.
pub proof fn law_only_whole_answers_are_compressed(
    method: Seq<char>,
    request: Seq<Field>,
    status: u16,
    response: Seq<Field>,
    policy: Compression,
)
    requires
        sent_with(method, request, status, response, policy) is Some,
    ensures
        status == 200,
        method != "HEAD"@,
{
}

/// What either side forbids to transform is not compressed.
pub proof fn law_forbidden_transformations_are_not_made(
    method: Seq<char>,
    request: Seq<Field>,
    status: u16,
    response: Seq<Field>,
    policy: Compression,
)
    requires
        has_directive(values(response, "cache-control"@), "no-transform"@) || has_directive(
            values(request, "cache-control"@),
            "no-transform"@,
        ),
    ensures
        sent_with(method, request, status, response, policy) is None,
{
}

/// A response that is known to be shorter than the least length is not compressed; one of that length is not
/// kept from it by its length.
pub proof fn law_short_responses_are_not_compressed(
    method: Seq<char>,
    request: Seq<Field>,
    status: u16,
    response: Seq<Field>,
    policy: Compression,
    n: nat,
)
    requires
        first_text_of(response, "content-length"@) == Some(text::decimal(n)),
        n <= u64::MAX,
    ensures
        n < policy.min_length ==> sent_with(method, request, status, response, policy) is None,
        n >= policy.min_length ==> !stated_below(response, policy.min_length),
{
    text::lemma_decimal_reads_back(n);
}

/// Streams of events and answers of gRPC are not compressed, whatever types are listed; nor is a type that is
/// not listed.
pub proof fn law_streams_are_not_compressed(
    method: Seq<char>,
    request: Seq<Field>,
    status: u16,
    response: Seq<Field>,
    policy: Compression,
)
    requires
        sent_with(method, request, status, response, policy) is Some,
    ensures
        media_type(response) != "text/event-stream"@,
        !text::starts(media_type(response), "application/grpc"@),
        exists|i: int|
            0 <= i < policy.types@.len() && lowercase((#[trigger] policy.types@[i])@) == lowercase(
                media_type(response),
            ),
{
}

/// A coding is sent only to a client that says which codings it takes.
pub proof fn law_silent_clients_get_no_coding(
    method: Seq<char>,
    request: Seq<Field>,
    status: u16,
    response: Seq<Field>,
    policy: Compression,
)
    requires
        values(request, "accept-encoding"@).len() == 0,
    ensures
        sent_with(method, request, status, response, policy) is None,
{
    assert(values(request, "accept-encoding"@) =~= Seq::empty());
}

/// The quality that counts for a coding is the lowest one that is stated for it.
pub proof fn law_the_lowest_quality_counts(v: Seq<(Coding, nat)>, c: Coding)
    ensures
        forall|i: int|
            0 <= i < v.len() && (#[trigger] v[i]).0 == c ==> lowest(v, c) is Some && lowest(v, c)->0
                <= v[i].1,
        lowest(v, c) is Some ==> exists|i: int| 0 <= i < v.len() && #[trigger] v[i] == (c, lowest(v, c)->0),
    decreases v.len(),
{
    if v.len() > 0 {
        let w = v.drop_last();
        law_the_lowest_quality_counts(w, c);
        assert(forall|i: int| 0 <= i < w.len() ==> w[i] == v[i]);
        assert(v.last() == v[v.len() - 1]);
        assert forall|i: int| 0 <= i < v.len() && (#[trigger] v[i]).0 == c implies lowest(v, c) is Some
            && lowest(v, c)->0 <= v[i].1 by {
            if i < w.len() {
                assert(w[i].0 == c);
            }
        }
        if lowest(v, c) is Some {
            if v.last() == (c, lowest(v, c)->0) {
                assert(v[v.len() - 1] == (c, lowest(v, c)->0));
            } else {
                let i = choose|i: int| 0 <= i < w.len() && #[trigger] w[i] == (c, lowest(w, c)->0);
                assert(v[i] == (c, lowest(v, c)->0));
            }
        }
    }
}

/// Of two codings that are on, the one with the higher stated quality is chosen, brotli where they are equal;
/// none where no coding at all is preferred.
pub proof fn law_the_preferred_coding_is_chosen(
    v: Seq<(Coding, nat)>,
    gzip: u32,
    brotli: u32,
    g: nat,
    b: nat,
)
    requires
        gzip > 0,
        brotli > 0,
        lowest(v, Coding::Gzip) == Some(g),
        lowest(v, Coding::Brotli) == Some(b),
        lowest(v, Coding::Identity) is None,
    ensures
        g > b ==> chosen(v, gzip, brotli) == Some(Encoding::Gzip),
        b >= g && b > 0 ==> chosen(v, gzip, brotli) == Some(Encoding::Brotli),
        g == 0 && b == 0 ==> chosen(v, gzip, brotli) is None,
{
}

/// A coding that is off is not chosen, and the other one is where it is taken.
pub proof fn law_codings_that_are_off_are_not_chosen(v: Seq<(Coding, nat)>, level: u32, q: nat)
    requires
        level > 0,
        q > 0,
    ensures
        chosen(v, 0, 0) is None,
        lowest(v, Coding::Gzip) == Some(q) && lowest(v, Coding::Identity) is None ==> chosen(v, level, 0)
            == Some(Encoding::Gzip),
        lowest(v, Coding::Brotli) == Some(q) && lowest(v, Coding::Identity) is None ==> chosen(
            v,
            0,
            level,
        ) == Some(Encoding::Brotli),
{
}

/// Where a client prefers no coding, none is chosen; `*` stands for codings that are not named.
pub proof fn law_wildcards_stand_for_the_rest(v: Seq<(Coding, nat)>, gzip: u32, brotli: u32, q: nat)
    requires
        gzip > 0,
        brotli > 0,
        lowest(v, Coding::Gzip) is None,
        lowest(v, Coding::Brotli) is None,
        lowest(v, Coding::Any) == Some(q),
    ensures
        q == 0 ==> chosen(v, gzip, brotli) is None,
        q > 0 && lowest(v, Coding::Identity) is None ==> chosen(v, gzip, brotli) == Some(
            Encoding::Brotli,
        ),
        lowest(v, Coding::Identity) matches Some(i) && i > q ==> chosen(v, gzip, brotli) is None,
{
}

/// A quality is in thousandths: tenths, hundredths and thousandths behind `0.`, and all of it for `1`.
pub proof fn law_qualities_are_thousandths(d: Seq<char>)
    requires
        text::all_digits(d),
        1 <= d.len() <= 3,
    ensures
        quality_of("0."@ + d) == Some(
            (text::digits_value(d) * (if d.len() == 1 {
                100
            } else if d.len() == 2 {
                10
            } else {
                1int
            })) as nat,
        ),
        quality_of("0"@) == Some(0nat),
        quality_of("1"@) == Some(1000nat),
{
    reveal_strlit("0.");
    reveal_strlit("0");
    reveal_strlit("1");
    let s = "0."@ + d;
    assert(s[1] == '.');
    assert(s[0] == '0');
    text::lemma_position_is(s, '.', 1);
    assert(s.take(1) =~= "0"@);
    assert(s.skip(2) =~= d);
    text::lemma_position("0"@, '.');
    text::lemma_position("1"@, '.');
    assert("0"@[0] != '.');
    assert("1"@[0] != '.');
    assert("0"@[0] != "1"@[0]);
    assert(text::split_once_spec("0"@, '.') is None);
    assert(text::split_once_spec("1"@, '.') is None);
}

} // verus!

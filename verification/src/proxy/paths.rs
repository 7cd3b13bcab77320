//! Request paths: percent encoding and the removal of `.` and `..`.
use crate::text;
use vstd::prelude::*;
use vstd::utf8::{decode_utf8, encode_utf8, valid_utf8};

verus! {

/// The longest path that is read, in bytes.
pub const MAX_PATH: usize = 8192;

/// Why a path is refused.
#[derive(Clone, Copy, Debug, PartialEq, Eq, Structural)]
pub enum PathError {
    TooLong,
    BadEscape,
    NotUtf8,
    Invalid,
    EscapesRoot,
}

// ---------------------------------------------------------------------------
// Percent encoding
// ---------------------------------------------------------------------------

pub open spec fn hex_byte(b: u8) -> bool {
    (48 <= b && b <= 57) || (65 <= b && b <= 70) || (97 <= b && b <= 102)
}

/// The value of a hexadecimal digit.
pub open spec fn hex_value(b: u8) -> int {
    if b <= 57 {
        b - 48
    } else if b <= 70 {
        b - 55
    } else {
        b - 87
    }
}

/// Whether `%` and two hexadecimal digits stand at `i`.
pub open spec fn escape_at(v: Seq<u8>, i: int) -> bool {
    i + 2 < v.len() && v[i] == 37 && hex_byte(v[i + 1]) && hex_byte(v[i + 2])
}

/// Every `%` with its two hexadecimal digits replaced by the byte that they name.
pub open spec fn decoded(v: Seq<u8>) -> Seq<u8>
    decreases v.len(),
{
    if v.len() == 0 {
        Seq::empty()
    } else if escape_at(v, 0) {
        seq![(16 * hex_value(v[1]) + hex_value(v[2])) as u8] + decoded(v.skip(3))
    } else {
        seq![v[0]] + decoded(v.skip(1))
    }
}

/// `percent_decode_str` of the `percent-encoding` crate replaces every `%` that two hexadecimal digits
/// follow, and keeps all other bytes.
#[verifier::external_body]
pub(crate) fn percent_decode(s: &str) -> (out: Vec<u8>)
    ensures
        out@ == decoded(encode_utf8(s@)),
{
    percent_encoding::percent_decode_str(s).collect()
}

/// The digit that stands for a value below 16, in upper case.
pub open spec fn upper_hex(n: int) -> char {
    if n < 10 {
        (48 + n) as char
    } else {
        (55 + n) as char
    }
}

/// `%` and the two digits of a byte.
pub open spec fn escape(b: u8) -> Seq<char> {
    seq!['%', upper_hex(b as int / 16), upper_hex(b as int % 16)]
}

/// `percent_encode_byte` of the `percent-encoding` crate writes `%` and two digits in upper case,
/// whatever the byte.
#[verifier::external_body]
pub(crate) fn percent_encode_byte(b: u8) -> (out: &'static str)
    ensures
        out@ == escape(b),
{
    percent_encoding::percent_encode_byte(b)
}

/// The bytes that a path cannot hold as they are.
pub open spec fn spec_unsafe_byte(b: u8) -> bool {
    b < 33 || b >= 127 || b == 34 || b == 35 || b == 37 || b == 60 || b == 62 || b == 63 || b == 96
        || b == 123 || b == 125
}

pub open spec fn encoded_byte(b: u8) -> Seq<char> {
    if spec_unsafe_byte(b) {
        escape(b)
    } else {
        seq![b as char]
    }
}

/// The bytes with the unsafe ones escaped.
pub open spec fn encoded(v: Seq<u8>) -> Seq<char>
    decreases v.len(),
{
    if v.len() == 0 {
        Seq::empty()
    } else {
        encoded(v.drop_last()) + encoded_byte(v.last())
    }
}

/// A path as it stands in a request line.
pub fn encode_path(path: &str) -> (out: String)
    ensures
        out@ == encoded(encode_utf8(path@)),
{
    let bytes = path.as_bytes();
    let mut out = String::new();
    let mut i: usize = 0;
    while i < bytes.len()
        invariant
            i <= bytes.len(),
            out@ == encoded(bytes@.take(i as int)),
        decreases bytes.len() - i,
    {
        let b: u8 = bytes[i];
        proof {
            assert(bytes@.take(i + 1).drop_last() =~= bytes@.take(i as int));
        }
        if b < 33 || b >= 127 || b == 34 || b == 35 || b == 37 || b == 60 || b == 62 || b == 63 || b
            == 96 || b == 123 || b == 125 {
            out.append(percent_encode_byte(b));
        } else {
            let ghost before = out@;
            out.push(b as char);
            assert(out@ =~= before + seq![b as char]);
        }
        i += 1;
    }
    assert(bytes@.take(i as int) =~= bytes@);
    out
}

// ---------------------------------------------------------------------------
// Normal paths
// ---------------------------------------------------------------------------

/// The segments that are left when `.` and empty ones are dropped and `..` takes the one before it away.
pub open spec fn resolved(v: Seq<Seq<char>>) -> Option<Seq<Seq<char>>>
    decreases v.len(),
{
    if v.len() == 0 {
        Some(Seq::empty())
    } else {
        match resolved(v.drop_last()) {
            None => None,
            Some(r) => if v.last().len() == 0 || v.last() == "."@ {
                Some(r)
            } else if v.last() == ".."@ {
                if r.len() > 0 {
                    Some(r.drop_last())
                } else {
                    None
                }
            } else {
                Some(r.push(v.last()))
            },
        }
    }
}

/// A character that no path may hold.
pub open spec fn spec_forbidden(c: char) -> bool {
    c == '\0' || c == '\\' || c == '\r' || c == '\n'
}

/// Whether a path names a directory by its end.
pub open spec fn at_directory(s: Seq<char>) -> bool {
    text::ends(s, "/"@) || text::ends(s, "/."@) || text::ends(s, "/.."@)
}

pub open spec fn plain_path(segments: Seq<Seq<char>>, directory: bool) -> Seq<char> {
    let p = "/"@ + text::join_spec(segments, "/"@);
    if directory && p != "/"@ {
        p.push('/')
    } else {
        p
    }
}

/// The path without `.`, `..` and empty segments.
pub open spec fn normal(s: Seq<char>) -> Result<Seq<char>, PathError> {
    if s.len() == 0 || s[0] != '/' || exists|i: int| 0 <= i < s.len() && spec_forbidden(#[trigger] s[i]) {
        Err(PathError::Invalid)
    } else {
        match resolved(text::split_spec(s, '/')) {
            None => Err(PathError::EscapesRoot),
            Some(v) => Ok(plain_path(v, at_directory(s))),
        }
    }
}

proof fn lemma_resolved_none(v: Seq<Seq<char>>, i: int)
    requires
        0 <= i <= v.len(),
        resolved(v.take(i)) is None,
    ensures
        resolved(v) is None,
    decreases v.len(),
{
    if i < v.len() {
        assert(v.drop_last().take(i) =~= v.take(i));
        lemma_resolved_none(v.drop_last(), i);
    } else {
        assert(v.take(i) =~= v);
    }
}

fn resolve(pieces: &Vec<String>) -> (r: Option<Vec<String>>)
    ensures
        match r {
            Some(v) => resolved(text::texts(pieces@)) == Some(text::texts(v@)),
            None => resolved(text::texts(pieces@)) is None,
        },
{
    let ghost all = text::texts(pieces@);
    let mut out: Vec<String> = Vec::new();
    let mut i: usize = 0;
    assert(text::texts(out@) =~= Seq::empty());
    while i < pieces.len()
        invariant
            i <= pieces.len(),
            all == text::texts(pieces@),
            resolved(all.take(i as int)) == Some(text::texts(out@)),
        decreases pieces.len() - i,
    {
        let ghost before = text::texts(out@);
        let c = pieces[i].as_str();
        proof {
            assert(all.take(i + 1).drop_last() =~= all.take(i as int));
            assert(all.take(i + 1).last() == c@);
        }
        if c.is_empty() || text::same(c, ".") {
        } else if text::same(c, "..") {
            if out.len() == 0 {
                proof {
                    lemma_resolved_none(all, i + 1);
                }
                return None;
            }
            out.pop();
            assert(text::texts(out@) =~= before.drop_last());
        } else {
            out.push(c.to_owned());
            assert(text::texts(out@) =~= before.push(c@));
        }
        i += 1;
    }
    assert(all.take(i as int) =~= all);
    Some(out)
}

fn has_forbidden(s: &str) -> (r: bool)
    ensures
        r == exists|i: int| 0 <= i < s@.len() && spec_forbidden(#[trigger] s@[i]),
{
    let v = text::chars(s);
    let mut i: usize = 0;
    while i < v.len()
        invariant
            i <= v.len(),
            v@ == s@,
            forall|j: int| 0 <= j < i ==> !spec_forbidden(#[trigger] s@[j]),
        decreases v.len() - i,
    {
        let c = v[i];
        if c == '\0' || c == '\\' || c == '\r' || c == '\n' {
            assert(spec_forbidden(s@[i as int]));
            return true;
        }
        i += 1;
    }
    false
}

/// The path without `.`, `..` and empty segments; the text is already decoded.
pub fn normalize_decoded_path(s: &str) -> (r: Result<String, PathError>)
    ensures
        match r {
            Ok(p) => normal(s@) == Ok::<Seq<char>, PathError>(p@),
            Err(e) => normal(s@) == Err::<Seq<char>, PathError>(e),
        },
{
    if s.is_empty() || s.get_char(0) != '/' || has_forbidden(s) {
        return Err(PathError::Invalid);
    }
    let pieces = text::split(s, '/');
    let segments = match resolve(&pieces) {
        Some(v) => v,
        None => return Err(PathError::EscapesRoot),
    };
    let joined = text::join(&segments, "/");
    let mut out = text::concat("/", joined.as_str());
    if (text::ends_with(s, "/") || text::ends_with(s, "/.") || text::ends_with(s, "/.."))
        && !text::same(out.as_str(), "/") {
        out.push('/');
    }
    Ok(out)
}

/// Whether a `%` stands without two hexadecimal digits behind it.
pub open spec fn broken_escape(v: Seq<u8>) -> bool {
    exists|i: int| 0 <= i < v.len() && #[trigger] v[i] == 37 && !escape_at(v, i)
}

/// The path of a request, decoded and without `.`, `..` and empty segments.
pub open spec fn normal_path(s: Seq<char>) -> Result<Seq<char>, PathError> {
    let v = encode_utf8(s);
    if v.len() > MAX_PATH {
        Err(PathError::TooLong)
    } else if broken_escape(v) {
        Err(PathError::BadEscape)
    } else if !valid_utf8(decoded(v)) {
        Err(PathError::NotUtf8)
    } else {
        normal(decode_utf8(decoded(v)))
    }
}

fn has_broken_escape(s: &str) -> (r: bool)
    ensures
        r == broken_escape(encode_utf8(s@)),
{
    let v = s.as_bytes();
    let mut i: usize = 0;
    while i < v.len()
        invariant
            i <= v.len(),
            v@ == encode_utf8(s@),
            forall|j: int| 0 <= j < i && #[trigger] v@[j] == 37 ==> escape_at(v@, j),
        decreases v.len() - i,
    {
        if v[i] == 37 {
            if v.len() - i < 3 || !is_hex(v[i + 1]) || !is_hex(v[i + 2]) {
                return true;
            }
        }
        i += 1;
    }
    false
}

fn is_hex(b: u8) -> (r: bool)
    ensures
        r == hex_byte(b),
{
    (48 <= b && b <= 57) || (65 <= b && b <= 70) || (97 <= b && b <= 102)
}

/// The path of a request, decoded and without `.`, `..` and empty segments.
pub fn normalized_path(path: &str) -> (r: Result<String, PathError>)
    ensures
        match r {
            Ok(p) => normal_path(path@) == Ok::<Seq<char>, PathError>(p@),
            Err(e) => normal_path(path@) == Err::<Seq<char>, PathError>(e),
        },
{
    if text::len(path) > MAX_PATH {
        return Err(PathError::TooLong);
    }
    if has_broken_escape(path) {
        return Err(PathError::BadEscape);
    }
    let bytes = percent_decode(path);
    match text::decode(&bytes) {
        Some(s) => normalize_decoded_path(s.as_str()),
        None => Err(PathError::NotUtf8),
    }
}

// ---------------------------------------------------------------------------
// Laws
// ---------------------------------------------------------------------------

/// A segment that names something below the one before it.
pub open spec fn ordinary(c: Seq<char>) -> bool {
    c.len() > 0 && c != "."@ && c != ".."@ && !c.contains('/')
}

pub open spec fn all_ordinary(v: Seq<Seq<char>>) -> bool {
    forall|i: int| 0 <= i < v.len() ==> ordinary(#[trigger] v[i])
}

proof fn lemma_resolved(v: Seq<Seq<char>>)
    requires
        forall|i: int| 0 <= i < v.len() ==> !(#[trigger] v[i]).contains('/'),
    ensures
        resolved(v) is Some ==> all_ordinary(resolved(v)->0) && forall|i: int|
            0 <= i < resolved(v)->0.len() ==> v.contains(#[trigger] resolved(v)->0[i]),
    decreases v.len(),
{
    if v.len() > 0 {
        let w = v.drop_last();
        assert forall|i: int| 0 <= i < w.len() implies !(#[trigger] w[i]).contains('/') by {
            assert(w[i] == v[i]);
        }
        lemma_resolved(w);
        if resolved(v) is Some {
            let r = resolved(v)->0;
            let q = resolved(w)->0;
            assert forall|i: int| 0 <= i < r.len() implies ordinary(#[trigger] r[i]) && v.contains(
                r[i],
            ) by {
                if i < q.len() {
                    assert(r[i] == q[i]);
                    let k = choose|k: int| 0 <= k < w.len() && w[k] == q[i];
                    assert(v[k] == q[i]);
                } else {
                    assert(r[i] == v[v.len() - 1]);
                }
            }
        }
    }
}

proof fn lemma_resolved_ordinary(v: Seq<Seq<char>>)
    requires
        all_ordinary(v),
    ensures
        resolved(v) == Some(v),
    decreases v.len(),
{
    if v.len() > 0 {
        let w = v.drop_last();
        assert forall|i: int| 0 <= i < w.len() implies ordinary(#[trigger] w[i]) by {
            assert(w[i] == v[i]);
        }
        lemma_resolved_ordinary(w);
        assert(ordinary(v[v.len() - 1]));
        assert(w.push(v.last()) =~= v);
    } else {
        assert(v =~= Seq::empty());
    }
}

/// The segments of a path that begins with `/`, and with one at its end where `directory` holds.
proof fn lemma_plain_path(v: Seq<Seq<char>>, directory: bool)
    requires
        all_ordinary(v),
    ensures
        resolved(text::split_spec(plain_path(v, directory), '/')) == Some(v),
        at_directory(plain_path(v, directory)) == (directory || v.len() == 0),
        v.len() == 0 <==> plain_path(v, directory) == "/"@,
        plain_path(v, directory).len() > 0,
        plain_path(v, directory)[0] == '/',
{
    reveal_strlit("/");
    reveal_strlit("/.");
    reveal_strlit("/..");
    reveal_strlit(".");
    reveal_strlit("..");
    assert("/"@ =~= seq!['/']);
    let p = plain_path(v, directory);
    let j = text::join_spec(v, "/"@);
    if v.len() == 0 {
        assert(p =~= "/"@);
        let e = Seq::<char>::empty();
        assert(p =~= e.push('/') + e);
        text::lemma_split_first(e, '/', e);
        let s = text::split_spec(p, '/');
        assert(s =~= seq![e, e]);
        assert(s.drop_last() =~= seq![e]);
        assert(seq![e].drop_last() =~= Seq::<Seq<char>>::empty());
        assert(resolved(Seq::<Seq<char>>::empty()) == Some(Seq::<Seq<char>>::empty()));
        assert(resolved(seq![e]) == Some(Seq::<Seq<char>>::empty()));
        assert(v =~= Seq::empty());
        assert(p.skip(0) =~= "/"@);
    } else {
        assert forall|i: int| 0 <= i < v.len() implies !(#[trigger] v[i]).contains('/') by {
            assert(ordinary(v[i]));
        }
        text::lemma_split_join(v, '/');
        lemma_resolved_ordinary(v);
        let e = Seq::<char>::empty();
        assert("/"@ + j =~= e.push('/') + j);
        text::lemma_split_first(e, '/', j);
        let s = text::split_spec("/"@ + j, '/');
        assert(s =~= seq![e] + v);
        lemma_resolved_empty_first(v);
        assert(ordinary(v[v.len() - 1]));
        lemma_join_end(v);
        let l = v.last();
        let q = "/"@ + j;
        // The path ends with its last segment.
        assert(q.len() > l.len());
        assert(q[q.len() - l.len() - 1] == '/');
        assert(forall|k: int| 0 <= k < l.len() ==> q[q.len() - l.len() + k] == l[k]);
        assert(q != "/"@);
        if directory {
            assert(p =~= q.push('/') + e);
            text::lemma_split_last(q, '/', e);
            assert(text::split_spec(p, '/').drop_last() =~= s);
            assert(p.skip(p.len() - 1) =~= "/"@);
        } else {
            assert(p == q);
            assert(!at_directory(q)) by {
                if text::ends(q, "/"@) {
                    assert(q.skip(q.len() - 1)[0] == '/');
                    assert(q[q.len() - 1] == l[l.len() - 1]);
                    assert(l.contains(l[l.len() - 1]));
                }
                if text::ends(q, "/."@) {
                    assert(q.skip(q.len() - 2)[0] == '/');
                    assert(q.skip(q.len() - 2)[1] == '.');
                    if l.len() >= 2 {
                        assert(q[q.len() - 2] == l[l.len() - 2]);
                        assert(l.contains(l[l.len() - 2]));
                    } else {
                        assert(l[0] == '.');
                        assert(l =~= "."@);
                    }
                }
                if text::ends(q, "/.."@) {
                    assert(q.skip(q.len() - 3)[0] == '/');
                    assert(q.skip(q.len() - 3)[1] == '.');
                    assert(q.skip(q.len() - 3)[2] == '.');
                    if l.len() >= 3 {
                        assert(q[q.len() - 3] == l[l.len() - 3]);
                        assert(l.contains(l[l.len() - 3]));
                    } else if l.len() == 2 {
                        assert(l[0] == q[q.len() - 2]);
                        assert(l[1] == q[q.len() - 1]);
                        assert(l =~= ".."@);
                    } else {
                        assert(l[0] == q[q.len() - 1]);
                        assert(l =~= "."@);
                    }
                }
            }
        }
    }
}

proof fn lemma_resolved_empty_first(v: Seq<Seq<char>>)
    requires
        all_ordinary(v),
    ensures
        resolved(seq![Seq::<char>::empty()] + v) == Some(v),
    decreases v.len(),
{
    let e = Seq::<char>::empty();
    let s = seq![e] + v;
    if v.len() == 0 {
        assert(s.drop_last() =~= Seq::<Seq<char>>::empty());
        assert(resolved(Seq::<Seq<char>>::empty()) == Some(Seq::<Seq<char>>::empty()));
        assert(v =~= Seq::empty());
    } else {
        let w = v.drop_last();
        assert forall|i: int| 0 <= i < w.len() implies ordinary(#[trigger] w[i]) by {
            assert(w[i] == v[i]);
        }
        lemma_resolved_empty_first(w);
        assert(s.drop_last() =~= seq![e] + w);
        assert(ordinary(v[v.len() - 1]));
        assert(w.push(v.last()) =~= v);
    }
}

/// A join ends with its last piece, behind `/` where there is more than one.
proof fn lemma_join_end(v: Seq<Seq<char>>)
    requires
        v.len() > 0,
    ensures
        ({
            let j = text::join_spec(v, "/"@);
            let l = v.last();
            &&& j.len() >= l.len()
            &&& forall|k: int| 0 <= k < l.len() ==> j[j.len() - l.len() + k] == l[k]
            &&& j.len() > l.len() ==> j[j.len() - l.len() - 1] == '/'
        }),
{
    reveal_strlit("/");
}

/// A join holds nothing but `/` and what its pieces hold.
proof fn lemma_join_chars(v: Seq<Seq<char>>, x: char)
    requires
        text::join_spec(v, "/"@).contains(x),
        x != '/',
    ensures
        exists|i: int| 0 <= i < v.len() && (#[trigger] v[i]).contains(x),
    decreases v.len(),
{
    reveal_strlit("/");
    let j = text::join_spec(v, "/"@);
    if v.len() == 1 {
        assert(v[0].contains(x));
    } else if v.len() > 1 {
        let w = v.drop_last();
        let h = text::join_spec(w, "/"@);
        let k = choose|k: int| 0 <= k < j.len() && j[k] == x;
        if k < h.len() {
            assert(h[k] == x);
            assert(h.contains(x));
            lemma_join_chars(w, x);
            let i = choose|i: int| 0 <= i < w.len() && (#[trigger] w[i]).contains(x);
            assert(v[i].contains(x));
        } else {
            let l = v.last();
            assert(l[k - h.len() - 1] == x);
            assert(v[v.len() - 1].contains(x));
        }
    }
}

/// A normal path stays below the root: it begins with `/`, and none of its segments is `..`, `.` or
/// empty, but for the last one of a directory.
pub proof fn law_normal_paths_stay_below_the_root(s: Seq<char>)
    requires
        normal(s) is Ok,
    ensures
        exists|v: Seq<Seq<char>>, directory: bool|
            all_ordinary(v) && normal(s)->Ok_0 == #[trigger] plain_path(v, directory),
{
    text::lemma_split_pieces(s, '/');
    lemma_resolved(text::split_spec(s, '/'));
    let v = resolved(text::split_spec(s, '/'))->0;
    assert(normal(s)->Ok_0 == plain_path(v, at_directory(s)));
}

/// A normal path is its own normal path.
pub proof fn law_normal_paths_are_normal(s: Seq<char>)
    requires
        normal(s) is Ok,
    ensures
        normal(normal(s)->Ok_0) == normal(s),
{
    let pieces = text::split_spec(s, '/');
    text::lemma_split_pieces(s, '/');
    lemma_resolved(pieces);
    let v = resolved(pieces)->0;
    let d = at_directory(s);
    let p = plain_path(v, d);
    lemma_plain_path(v, d);
    reveal_strlit("/");
    assert forall|i: int| 0 <= i < p.len() implies !spec_forbidden(#[trigger] p[i]) by {
        let x = p[i];
        if spec_forbidden(x) {
            let j = text::join_spec(v, "/"@);
            assert(j[i - 1] == x);
            assert(j.contains(x));
            lemma_join_chars(v, x);
            let k = choose|k: int| 0 <= k < v.len() && (#[trigger] v[k]).contains(x);
            assert(pieces.contains(v[k]));
            let m = choose|m: int| 0 <= m < pieces.len() && pieces[m] == v[k];
            assert(pieces[m].contains(x));
            assert(s.contains(x));
            let n = choose|n: int| 0 <= n < s.len() && s[n] == x;
            assert(spec_forbidden(s[n]));
        }
    }
    if v.len() == 0 {
        assert(plain_path(v, true) =~= p);
        assert(plain_path(v, false) =~= p);
    }
}

proof fn lemma_encoded_first(b: u8, v: Seq<u8>)
    ensures
        encoded(seq![b] + v) == encoded_byte(b) + encoded(v),
    decreases v.len(),
{
    let s = seq![b] + v;
    if v.len() == 0 {
        assert(s.drop_last() =~= Seq::<u8>::empty());
        assert(encoded(Seq::<u8>::empty()) =~= Seq::<char>::empty());
        assert(encoded(s) =~= encoded_byte(b) + encoded(v));
    } else {
        let w = v.drop_last();
        lemma_encoded_first(b, w);
        assert(s.drop_last() =~= seq![b] + w);
        assert(encoded(s) =~= encoded_byte(b) + encoded(v));
    }
}

proof fn lemma_encoded_ascii(v: Seq<u8>)
    ensures
        text::ascii(encoded(v)),
    decreases v.len(),
{
    if v.len() > 0 {
        lemma_encoded_ascii(v.drop_last());
        let e = encoded(v);
        let h = encoded(v.drop_last());
        assert forall|i: int| 0 <= i < e.len() implies '\0' <= #[trigger] e[i] <= '\u{7f}' by {
            if i < h.len() {
                assert(e[i] == h[i]);
            } else {
                assert(e[i] == encoded_byte(v.last())[i - h.len()]);
            }
        }
    }
}

/// Decoding an encoded path gives the path back.
pub proof fn law_encoded_paths_decode(v: Seq<u8>)
    ensures
        decoded(encode_utf8(encoded(v))) == v,
    decreases v.len(),
{
    let e = encoded(v);
    lemma_encoded_ascii(v);
    vstd::utf8::is_ascii_chars_encode_utf8(e);
    let x = encode_utf8(e);
    if v.len() == 0 {
        assert(x =~= Seq::<u8>::empty());
        assert(v =~= Seq::<u8>::empty());
    } else {
        let b = v[0];
        let w = v.skip(1);
        assert(seq![b] + w =~= v);
        lemma_encoded_first(b, w);
        law_encoded_paths_decode(w);
        let f = encoded(w);
        lemma_encoded_ascii(w);
        vstd::utf8::is_ascii_chars_encode_utf8(f);
        let y = encode_utf8(f);
        let n = encoded_byte(b).len();
        assert(x.skip(n as int) =~= y) by {
            assert forall|i: int| 0 <= i < y.len() implies x.skip(n as int)[i] == y[i] by {
                assert(e[n + i] == f[i]);
                assert(y[i] == f[i] as u8);
                assert(x[n + i] == e[n + i] as u8);
            }
        }
        assert(x[0] == e[0] as u8);
        if spec_unsafe_byte(b) {
            assert(e[0] == '%' && e[1] == upper_hex(b as int / 16) && e[2] == upper_hex(
                b as int % 16,
            ));
            assert(x[1] == e[1] as u8);
            assert(x[2] == e[2] as u8);
            assert(escape_at(x, 0));
            assert(16 * hex_value(x[1]) + hex_value(x[2]) == b as int);
        } else {
            assert(e[0] == b as char);
            assert(x[0] == b);
        }
        assert(decoded(x) =~= v);
    }
}

/// A segment `.` and an empty one lead nowhere, `..` leads back over one segment, and out of the root nowhere;
/// any other leads on.
pub proof fn law_segments_are_walked(v: Seq<Seq<char>>, s: Seq<char>)
    requires
        ordinary(s),
    ensures
        resolved(v.push("."@)) == resolved(v),
        resolved(v.push(Seq::empty())) == resolved(v),
        resolved(v) is Some ==> resolved(v.push(s)) == Some(resolved(v)->0.push(s)),
        resolved(v.push(s).push(".."@)) == resolved(v),
        resolved(seq![".."@]) is None,
{
    reveal_strlit(".");
    reveal_strlit("..");
    assert("."@ != ".."@) by {
        assert("."@.len() != ".."@.len());
    }
    assert(v.push("."@).drop_last() =~= v);
    assert(v.push(Seq::empty()).drop_last() =~= v);
    assert(v.push(s).drop_last() =~= v);
    assert(v.push(s).push(".."@).drop_last() =~= v.push(s));
    if resolved(v) is Some {
        assert(resolved(v)->0.push(s).drop_last() =~= resolved(v)->0);
    }
    assert(seq![".."@].drop_last() =~= Seq::empty());
    assert(resolved(Seq::empty()) == Some(Seq::<Seq<char>>::empty()));
}

/// A path is refused where it does not begin with `/` or holds a character that it may not hold, and one that
/// is too long, has a broken escape or is not text.
pub proof fn law_bad_paths_are_refused(s: Seq<char>, i: int)
    ensures
        s.len() == 0 ==> normal(s) == Err::<Seq<char>, PathError>(PathError::Invalid),
        s.len() > 0 && s[0] != '/' ==> normal(s) == Err::<Seq<char>, PathError>(PathError::Invalid),
        0 <= i < s.len() && (s[i] == '\0' || s[i] == '\\' || s[i] == '\r' || s[i] == '\n') ==> normal(s)
            == Err::<Seq<char>, PathError>(PathError::Invalid),
        encode_utf8(s).len() > 8192 ==> normal_path(s) == Err::<Seq<char>, PathError>(PathError::TooLong),
{
    if 0 <= i < s.len() && (s[i] == '\0' || s[i] == '\\' || s[i] == '\r' || s[i] == '\n') {
        assert(spec_forbidden(s[i]));
    }
}

/// An escape is the byte that its two digits name, in either case, and other bytes are themselves.
pub proof fn law_escapes_are_their_bytes(x: u8, y: u8, b: u8, rest: Seq<u8>)
    requires
        x < 10,
        10 <= y < 16,
    ensures
        decoded(seq![37u8, (48 + x) as u8, (55 + y) as u8] + rest) == seq![(16 * x + y) as u8] + decoded(rest),
        decoded(seq![37u8, (87 + y) as u8, (48 + x) as u8] + rest) == seq![(16 * y + x) as u8] + decoded(rest),
        b != 37 ==> decoded(seq![b] + rest) == seq![b] + decoded(rest),
{
    let u = seq![37u8, (48 + x) as u8, (55 + y) as u8] + rest;
    let w = seq![37u8, (87 + y) as u8, (48 + x) as u8] + rest;
    let v = seq![b] + rest;
    assert(u.skip(3) =~= rest);
    assert(w.skip(3) =~= rest);
    assert(v.skip(1) =~= rest);
}

/// What may stand in a request line stands as it is, and all else as an escape.
pub proof fn law_bytes_are_escaped_where_they_must(b: u8)
    ensures
        (97 <= b <= 122 || 65 <= b <= 90 || 45 <= b <= 57) ==> encoded_byte(b) == seq![b as char],
        b <= 32 || b >= 127 ==> encoded_byte(b).len() == 3 && encoded_byte(b)[0] == '%',
        b == 37 || b == 63 || b == 35 ==> encoded_byte(b).len() == 3 && encoded_byte(b)[0] == '%',
{
}

} // verus!

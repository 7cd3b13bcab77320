//! Verified operations on strings, stated over the sequence of their characters.
use vstd::prelude::*;
use vstd::utf8::{decode_utf8, encode_utf8, valid_utf8};

verus! {

/// `String::push` appends one character.
pub assume_specification[ String::push ](s: &mut String, ch: char)
    ensures
        final(s)@ == old(s)@.push(ch),
;

// ---------------------------------------------------------------------------
// Characters
// ---------------------------------------------------------------------------

pub open spec fn spec_digit(c: char) -> bool {
    '0' <= c && c <= '9'
}

#[verifier::when_used_as_spec(spec_digit)]
pub fn digit(c: char) -> (r: bool)
    ensures
        r == spec_digit(c),
{
    '0' <= c && c <= '9'
}

pub open spec fn spec_lower_letter(c: char) -> bool {
    'a' <= c && c <= 'z'
}

#[verifier::when_used_as_spec(spec_lower_letter)]
pub fn lower_letter(c: char) -> (r: bool)
    ensures
        r == spec_lower_letter(c),
{
    'a' <= c && c <= 'z'
}

pub open spec fn spec_upper_letter(c: char) -> bool {
    'A' <= c && c <= 'Z'
}

#[verifier::when_used_as_spec(spec_upper_letter)]
pub fn upper_letter(c: char) -> (r: bool)
    ensures
        r == spec_upper_letter(c),
{
    'A' <= c && c <= 'Z'
}

pub open spec fn spec_alphanumeric(c: char) -> bool {
    spec_digit(c) || spec_lower_letter(c) || spec_upper_letter(c)
}

#[verifier::when_used_as_spec(spec_alphanumeric)]
pub fn alphanumeric(c: char) -> (r: bool)
    ensures
        r == spec_alphanumeric(c),
{
    digit(c) || lower_letter(c) || upper_letter(c)
}

pub open spec fn spec_hex_digit(c: char) -> bool {
    spec_digit(c) || ('a' <= c && c <= 'f') || ('A' <= c && c <= 'F')
}

#[verifier::when_used_as_spec(spec_hex_digit)]
pub fn hex_digit(c: char) -> (r: bool)
    ensures
        r == spec_hex_digit(c),
{
    digit(c) || ('a' <= c && c <= 'f') || ('A' <= c && c <= 'F')
}

/// The characters of Unicode's White_Space property.
pub open spec fn spec_whitespace(c: char) -> bool {
    let n = c as u32;
    9 <= n <= 13 || n == 32 || n == 0x85 || n == 0xA0 || n == 0x1680 || 0x2000 <= n <= 0x200A || n
        == 0x2028 || n == 0x2029 || n == 0x202F || n == 0x205F || n == 0x3000
}

#[verifier::when_used_as_spec(spec_whitespace)]
pub fn whitespace(c: char) -> (r: bool)
    ensures
        r == spec_whitespace(c),
{
    let n: u32 = c as u32;
    (9 <= n && n <= 13) || n == 32 || n == 0x85 || n == 0xA0 || n == 0x1680 || (0x2000 <= n && n
        <= 0x200A) || n == 0x2028 || n == 0x2029 || n == 0x202F || n == 0x205F || n == 0x3000
}

/// The ASCII lower-case form of a character; other characters are kept.
pub open spec fn spec_lower(c: char) -> char {
    if spec_upper_letter(c) {
        (c as u8 + 32) as char
    } else {
        c
    }
}

#[verifier::when_used_as_spec(spec_lower)]
pub fn lower(c: char) -> (r: char)
    ensures
        r == spec_lower(c),
{
    if upper_letter(c) {
        (c as u8 + 32) as char
    } else {
        c
    }
}

// ---------------------------------------------------------------------------
// Whole strings
// ---------------------------------------------------------------------------

/// What each string of a sequence holds.
pub open spec fn texts(v: Seq<String>) -> Seq<Seq<char>> {
    Seq::new(v.len(), |i: int| v[i]@)
}

/// What each pair of strings holds.
pub open spec fn pairs(v: Seq<(String, String)>) -> Seq<(Seq<char>, Seq<char>)> {
    Seq::new(v.len(), |i: int| (v[i].0@, v[i].1@))
}

/// What an optional string holds.
pub open spec fn opt(v: Option<String>) -> Option<Seq<char>> {
    match v {
        Some(s) => Some(s@),
        None => None,
    }
}

/// The number of bytes that a text takes in UTF-8.
pub open spec fn byte_len(s: Seq<char>) -> nat {
    encode_utf8(s).len()
}

pub fn len(s: &str) -> (n: usize)
    ensures
        n == byte_len(s@),
{
    s.as_bytes().len()
}

/// The bytes of a text in UTF-8.
pub fn bytes(s: &str) -> (out: Vec<u8>)
    ensures
        out@ == encode_utf8(s@),
{
    let v = s.as_bytes();
    let mut out: Vec<u8> = Vec::new();
    let mut i: usize = 0;
    while i < v.len()
        invariant
            i <= v.len(),
            out@ == v@.take(i as int),
        decreases v.len() - i,
    {
        out.push(v[i]);
        i += 1;
        assert(out@ =~= v@.take(i as int));
    }
    assert(v@.take(i as int) =~= v@);
    out
}

/// Whether every character is an ASCII one.
pub open spec fn ascii(s: Seq<char>) -> bool {
    vstd::utf8::is_ascii_chars(s)
}

/// A character takes at least one byte.
pub proof fn lemma_byte_len_first(s: Seq<char>)
    requires
        s.len() > 0,
    ensures
        byte_len(s) >= 1 + byte_len(s.drop_first()),
{
}

/// Whether two strings hold the same text.
pub fn same(a: &str, b: &str) -> (r: bool)
    ensures
        r == (a@ == b@),
{
    a.to_owned() == b.to_owned()
}

/// The characters of a string, in order.
pub fn chars(s: &str) -> (out: Vec<char>)
    ensures
        out@ == s@,
{
    let mut out: Vec<char> = Vec::new();
    for c in it: s.chars()
        invariant
            out@ == s@.take(it.index() as int),
            it.seq() == s@,
    {
        out.push(c);
    }
    out
}

/// The text made of `v[from..to]`.
pub fn slice(v: &Vec<char>, from: usize, to: usize) -> (out: String)
    requires
        from <= to <= v.len(),
    ensures
        out@ == v@.subrange(from as int, to as int),
{
    let mut out = String::new();
    let mut i: usize = from;
    while i < to
        invariant
            from <= i <= to <= v.len(),
            out@ == v@.subrange(from as int, i as int),
        decreases to - i,
    {
        out.push(v[i]);
        i += 1;
        assert(out@ =~= v@.subrange(from as int, i as int));
    }
    out
}

pub fn string(v: &Vec<char>) -> (out: String)
    ensures
        out@ == v@,
{
    let out = slice(v, 0, v.len());
    assert(out@ =~= v@);
    out
}

pub fn concat(a: &str, b: &str) -> (out: String)
    ensures
        out@ == a@ + b@,
{
    let mut out = a.to_owned();
    out.append(b);
    out
}

pub fn concat3(a: &str, b: &str, c: &str) -> (out: String)
    ensures
        out@ == a@ + b@ + c@,
{
    let mut out = a.to_owned();
    out.append(b);
    out.append(c);
    out
}

/// `String::from_utf8` succeeds exactly on valid UTF-8, and gives the text that it encodes.
#[verifier::external_body]
pub(crate) fn decode(bytes: &Vec<u8>) -> (r: Option<String>)
    ensures
        match r {
            Some(s) => valid_utf8(bytes@) && s@ == decode_utf8(bytes@),
            None => !valid_utf8(bytes@),
        },
{
    String::from_utf8(bytes.clone()).ok()
}

pub proof fn lemma_decoded_len(bytes: Seq<u8>)
    requires
        valid_utf8(bytes),
    ensures
        decode_utf8(bytes).len() <= bytes.len(),
    decreases bytes.len(),
{
    if bytes.len() > 0 {
        lemma_decoded_len(vstd::utf8::pop_first_scalar(bytes));
    }
}

// ---------------------------------------------------------------------------
// Prefixes and suffixes
// ---------------------------------------------------------------------------

pub open spec fn starts(s: Seq<char>, p: Seq<char>) -> bool {
    p.len() <= s.len() && s.take(p.len() as int) == p
}

pub open spec fn ends(s: Seq<char>, p: Seq<char>) -> bool {
    p.len() <= s.len() && s.skip(s.len() - p.len()) == p
}

/// Whether `v[at..]` begins with `p`.
pub fn matches_at(v: &Vec<char>, at: usize, p: &Vec<char>) -> (r: bool)
    requires
        at <= v.len(),
    ensures
        r == starts(v@.skip(at as int), p@),
{
    if v.len() - at < p.len() {
        return false;
    }
    let mut i: usize = 0;
    while i < p.len()
        invariant
            i <= p.len() <= v.len() - at,
            at <= v.len(),
            forall|j: int| 0 <= j < i ==> v@[at + j] == p@[j],
        decreases p.len() - i,
    {
        if v[at + i] != p[i] {
            assert(v@.skip(at as int).take(p.len() as int)[i as int] != p@[i as int]);
            return false;
        }
        i += 1;
    }
    assert(v@.skip(at as int).take(p.len() as int) =~= p@);
    true
}

pub fn starts_with(s: &str, p: &str) -> (r: bool)
    ensures
        r == starts(s@, p@),
{
    let v = chars(s);
    let r = matches_at(&v, 0, &chars(p));
    assert(v@.skip(0) =~= v@);
    r
}

pub fn ends_with(s: &str, p: &str) -> (r: bool)
    ensures
        r == ends(s@, p@),
{
    let v = chars(s);
    let q = chars(p);
    if q.len() > v.len() {
        return false;
    }
    let r = matches_at(&v, v.len() - q.len(), &q);
    assert(v@.skip(v.len() - q.len()).take(q.len() as int) =~= v@.skip(v.len() - q.len()));
    r
}

pub fn strip_prefix<'a>(s: &'a str, p: &str) -> (r: Option<&'a str>)
    ensures
        starts(s@, p@) ==> r is Some && r->0@ == s@.skip(p@.len() as int),
        !starts(s@, p@) ==> r is None,
{
    if starts_with(s, p) {
        let r = s.substring_char(p.unicode_len(), s.unicode_len());
        assert(r@ =~= s@.skip(p@.len() as int));
        Some(r)
    } else {
        None
    }
}

pub fn strip_suffix<'a>(s: &'a str, p: &str) -> (r: Option<&'a str>)
    ensures
        ends(s@, p@) ==> r is Some && r->0@ == s@.take(s@.len() - p@.len()),
        !ends(s@, p@) ==> r is None,
{
    if ends_with(s, p) {
        let r = s.substring_char(0, s.unicode_len() - p.unicode_len());
        assert(r@ =~= s@.take(s@.len() - p@.len()));
        Some(r)
    } else {
        None
    }
}

/// Whether `p` stands somewhere in `s`.
pub open spec fn holds(s: Seq<char>, p: Seq<char>) -> bool {
    exists|i: int| 0 <= i <= s.len() && starts(#[trigger] s.skip(i), p)
}

pub fn has_text(s: &str, p: &str) -> (r: bool)
    ensures
        r == holds(s@, p@),
{
    let v = chars(s);
    let q = chars(p);
    let mut i: usize = 0;
    while i <= v.len()
        invariant
            i <= v.len() + 1,
            v@ == s@,
            q@ == p@,
            forall|j: int| 0 <= j < i ==> !starts(#[trigger] s@.skip(j), p@),
        decreases v.len() + 1 - i,
    {
        if matches_at(&v, i, &q) {
            return true;
        }
        if i == v.len() {
            assert(forall|j: int| 0 <= j <= s@.len() ==> !starts(#[trigger] s@.skip(j), p@));
            return false;
        }
        i += 1;
    }
    false
}

// ---------------------------------------------------------------------------
// Searching and splitting
// ---------------------------------------------------------------------------

/// The index of the first `c` in `s`, or the length of `s` where there is none.
pub open spec fn position(s: Seq<char>, c: char) -> int
    decreases s.len(),
{
    if s.len() == 0 || s[0] == c {
        0
    } else {
        1 + position(s.drop_first(), c)
    }
}

pub proof fn lemma_position(s: Seq<char>, c: char)
    ensures
        0 <= position(s, c) <= s.len(),
        position(s, c) < s.len() ==> s[position(s, c)] == c,
        forall|i: int| 0 <= i < position(s, c) ==> s[i] != c,
    decreases s.len(),
{
    if s.len() > 0 && s[0] != c {
        lemma_position(s.drop_first(), c);
        assert forall|i: int| 0 <= i < position(s, c) implies s[i] != c by {
            if i > 0 {
                assert(s.drop_first()[i - 1] == s[i]);
            }
        }
    }
}

pub proof fn lemma_position_is(s: Seq<char>, c: char, p: int)
    requires
        0 <= p <= s.len(),
        p < s.len() ==> s[p] == c,
        forall|i: int| 0 <= i < p ==> s[i] != c,
    ensures
        position(s, c) == p,
{
    lemma_position(s, c);
    let q = position(s, c);
    if q < p {
        assert(s[q] != c);
    }
    if p < q {
        assert(s[p] != c);
    }
}

/// `position` from an index on.
pub fn find_from(v: &Vec<char>, at: usize, c: char) -> (r: usize)
    requires
        at <= v.len(),
    ensures
        at <= r <= v.len(),
        r == at + position(v@.skip(at as int), c),
        r < v.len() ==> v@[r as int] == c,
{
    let mut i: usize = at;
    while i < v.len() && v[i] != c
        invariant
            at <= i <= v.len(),
            forall|j: int| at <= j < i ==> v@[j] != c,
        decreases v.len() - i,
    {
        i += 1;
    }
    proof {
        lemma_position_is(v@.skip(at as int), c, i - at);
    }
    i
}

pub fn has_char(s: &str, c: char) -> (r: bool)
    ensures
        r == s@.contains(c),
{
    let v = chars(s);
    let i = find_from(&v, 0, c);
    proof {
        assert(v@.skip(0) =~= v@);
        lemma_position(v@, c);
    }
    i < v.len()
}

/// The parts before and after the first `c`.
pub open spec fn split_once_spec(s: Seq<char>, c: char) -> Option<(Seq<char>, Seq<char>)> {
    let p = position(s, c);
    if p < s.len() {
        Some((s.take(p), s.skip(p + 1)))
    } else {
        None
    }
}

pub fn split_once(s: &str, c: char) -> (r: Option<(String, String)>)
    ensures
        match r {
            Some(p) => split_once_spec(s@, c) == Some((p.0@, p.1@)),
            None => split_once_spec(s@, c) is None,
        },
{
    let v = chars(s);
    let i = find_from(&v, 0, c);
    assert(v@.skip(0) =~= v@);
    if i < v.len() {
        let a = slice(&v, 0, i);
        let b = slice(&v, i + 1, v.len());
        assert(a@ =~= s@.take(i as int));
        assert(b@ =~= s@.skip(i + 1));
        Some((a, b))
    } else {
        None
    }
}

/// The index of the last `c` in `s`, or -1 where there is none.
pub open spec fn last_position(s: Seq<char>, c: char) -> int
    decreases s.len(),
{
    if s.len() == 0 || s.last() == c {
        s.len() - 1
    } else {
        last_position(s.drop_last(), c)
    }
}

pub fn rfind(v: &Vec<char>, c: char) -> (r: Option<usize>)
    ensures
        match r {
            Some(i) => i < v.len() && i == last_position(v@, c) && v@[i as int] == c,
            None => last_position(v@, c) == -1,
        },
{
    let mut n: usize = v.len();
    assert(v@.take(n as int) =~= v@);
    while n > 0
        invariant
            n <= v.len(),
            last_position(v@.take(n as int), c) == last_position(v@, c),
        decreases n,
    {
        assert(v@.take(n as int).drop_last() =~= v@.take(n - 1));
        if v[n - 1] == c {
            return Some(n - 1);
        }
        n -= 1;
    }
    None
}

/// The pieces of `s` between the occurrences of `c`; one piece where there is none.
pub open spec fn split_spec(s: Seq<char>, c: char) -> Seq<Seq<char>>
    decreases s.len(),
{
    let p = position(s, c);
    if 0 <= p < s.len() {
        seq![s.take(p)] + split_spec(s.skip(p + 1), c)
    } else {
        seq![s]
    }
}

pub fn split(s: &str, c: char) -> (out: Vec<String>)
    ensures
        texts(out@) == split_spec(s@, c),
        out.len() >= 1,
{
    let v = chars(s);
    let mut out: Vec<String> = Vec::new();
    let mut at: usize = 0;
    proof {
        assert(v@.skip(0) =~= v@);
        assert(texts(out@) + split_spec(v@, c) =~= split_spec(v@, c));
    }
    loop
        invariant
            at <= v.len(),
            v@ == s@,
            texts(out@) + split_spec(v@.skip(at as int), c) == split_spec(s@, c),
        decreases v.len() - at,
    {
        let i = find_from(&v, at, c);
        let ghost before = texts(out@);
        let ghost rest = v@.skip(at as int);
        let piece = slice(&v, at, i);
        proof {
            lemma_position(rest, c);
            assert(piece@ =~= rest.take(i - at));
        }
        out.push(piece);
        assert(texts(out@) =~= before.push(piece@));
        if i < v.len() {
            proof {
                assert(rest.skip(i - at + 1) =~= v@.skip(i + 1));
                assert(texts(out@) + split_spec(v@.skip(i + 1), c) =~= before + split_spec(rest, c));
            }
            at = i + 1;
        } else {
            proof {
                assert(rest.take(i - at) =~= rest);
                assert(texts(out@) =~= before + split_spec(rest, c));
            }
            return out;
        }
    }
}

/// The first piece is what stands before the first `c`.
pub proof fn lemma_split_first(a: Seq<char>, c: char, b: Seq<char>)
    requires
        !a.contains(c),
    ensures
        split_spec(a, c) == seq![a],
        split_spec(a.push(c) + b, c) == seq![a] + split_spec(b, c),
{
    let s = a.push(c) + b;
    lemma_position_is(a, c, a.len() as int);
    assert forall|i: int| 0 <= i < a.len() implies s[i] != c by {
        assert(a[i] == s[i]);
        assert(a.contains(a[i]));
    }
    lemma_position_is(s, c, a.len() as int);
    assert(s.take(a.len() as int) =~= a);
    assert(s.skip((a.len() + 1) as int) =~= b);
}

/// The last piece is what stands after the last `c`.
pub proof fn lemma_split_last(a: Seq<char>, c: char, b: Seq<char>)
    requires
        !b.contains(c),
    ensures
        split_spec(a.push(c) + b, c) == split_spec(a, c).push(b),
    decreases a.len(),
{
    let p = position(a, c);
    lemma_position(a, c);
    if p < a.len() {
        let x = a.take(p);
        let y = a.skip(p + 1);
        assert(!x.contains(c)) by {
            if x.contains(c) {
                let i = choose|i: int| 0 <= i < x.len() && x[i] == c;
                assert(a[i] == c);
            }
        }
        lemma_split_last(y, c, b);
        assert(a.push(c) + b =~= x.push(c) + (y.push(c) + b));
        lemma_split_first(x, c, y.push(c) + b);
        assert(split_spec(a, c) =~= seq![x] + split_spec(y, c));
        assert((seq![x] + split_spec(y, c)).push(b) =~= seq![x] + split_spec(y, c).push(b));
    } else {
        assert(!a.contains(c)) by {
            if a.contains(c) {
                let i = choose|i: int| 0 <= i < a.len() && a[i] == c;
                assert(a[i] == c);
            }
        }
        lemma_split_first(a, c, b);
        lemma_split_first(b, c, Seq::empty());
        assert(seq![a] + seq![b] =~= split_spec(a, c).push(b));
    }
}

/// No piece holds the separator, and each is a part of the text.
pub proof fn lemma_split_pieces(s: Seq<char>, c: char)
    ensures
        split_spec(s, c).len() >= 1,
        forall|i: int| 0 <= i < split_spec(s, c).len() ==> !(#[trigger] split_spec(s, c)[i]).contains(c),
        forall|i: int, x: char|
            0 <= i < split_spec(s, c).len() && #[trigger] split_spec(s, c)[i].contains(x)
                ==> s.contains(x),
    decreases s.len(),
{
    let p = position(s, c);
    lemma_position(s, c);
    let v = split_spec(s, c);
    if p < s.len() {
        let a = s.take(p);
        let b = s.skip(p + 1);
        let w = split_spec(b, c);
        lemma_split_pieces(b, c);
        assert forall|i: int| 0 <= i < v.len() implies !(#[trigger] v[i]).contains(c) by {
            if i == 0 {
                if a.contains(c) {
                    let k = choose|k: int| 0 <= k < a.len() && a[k] == c;
                    assert(s[k] == c);
                }
            } else {
                assert(v[i] == w[i - 1]);
            }
        }
        assert forall|i: int, x: char| 0 <= i < v.len() && #[trigger] v[i].contains(x) implies s.contains(
            x,
        ) by {
            if i == 0 {
                let k = choose|k: int| 0 <= k < a.len() && a[k] == x;
                assert(s[k] == x);
            } else {
                assert(v[i] == w[i - 1]);
                assert(b.contains(x));
                let k = choose|k: int| 0 <= k < b.len() && b[k] == x;
                assert(s[k + p + 1] == x);
            }
        }
    } else {
        if s.contains(c) {
            let k = choose|k: int| 0 <= k < s.len() && s[k] == c;
            assert(s[k] == c);
        }
    }
}

/// Pieces without the separator come back when their join is split.
pub proof fn lemma_split_join(v: Seq<Seq<char>>, c: char)
    requires
        v.len() > 0,
        forall|i: int| 0 <= i < v.len() ==> !(#[trigger] v[i]).contains(c),
    ensures
        split_spec(join_spec(v, seq![c]), c) == v,
    decreases v.len(),
{
    if v.len() == 1 {
        lemma_split_first(v[0], c, Seq::empty());
        assert(seq![v[0]] =~= v);
    } else {
        let w = v.drop_last();
        assert forall|i: int| 0 <= i < w.len() implies !(#[trigger] w[i]).contains(c) by {
            assert(w[i] == v[i]);
        }
        lemma_split_join(w, c);
        let j = join_spec(w, seq![c]);
        assert(j + seq![c] + v.last() =~= j.push(c) + v.last());
        lemma_split_last(j, c, v.last());
        assert(w.push(v.last()) =~= v);
    }
}

// ---------------------------------------------------------------------------
// Trimming
// ---------------------------------------------------------------------------

/// `s` without its leading white space.
pub open spec fn trim_start_spec(s: Seq<char>) -> Seq<char>
    decreases s.len(),
{
    if s.len() > 0 && spec_whitespace(s[0]) {
        trim_start_spec(s.drop_first())
    } else {
        s
    }
}

/// `s` without its trailing white space.
pub open spec fn trim_end_spec(s: Seq<char>) -> Seq<char>
    decreases s.len(),
{
    if s.len() > 0 && spec_whitespace(s.last()) {
        trim_end_spec(s.drop_last())
    } else {
        s
    }
}

pub open spec fn trim_spec(s: Seq<char>) -> Seq<char> {
    trim_end_spec(trim_start_spec(s))
}

pub fn trim(s: &str) -> (out: &str)
    ensures
        out@ == trim_spec(s@),
{
    let v = chars(s);
    let mut a: usize = 0;
    let mut b: usize = v.len();
    assert(v@.subrange(0, v.len() as int) =~= s@);
    while a < b && whitespace(v[a])
        invariant
            a <= b == v.len(),
            v@ == s@,
            trim_start_spec(v@.subrange(a as int, b as int)) == trim_start_spec(s@),
        decreases b - a,
    {
        assert(v@.subrange(a as int, b as int).drop_first() =~= v@.subrange(a + 1, b as int));
        a += 1;
    }
    assert(v@.subrange(a as int, b as int) == trim_start_spec(s@));
    while a < b && whitespace(v[b - 1])
        invariant
            a <= b <= v.len(),
            v@ == s@,
            trim_end_spec(v@.subrange(a as int, b as int)) == trim_spec(s@),
        decreases b,
    {
        assert(v@.subrange(a as int, b as int).drop_last() =~= v@.subrange(a as int, b - 1));
        b -= 1;
    }
    s.substring_char(a, b)
}

/// `s` without its trailing `c`s.
pub open spec fn trim_end_char_spec(s: Seq<char>, c: char) -> Seq<char>
    decreases s.len(),
{
    if s.len() > 0 && s.last() == c {
        trim_end_char_spec(s.drop_last(), c)
    } else {
        s
    }
}

pub fn trim_end_char(s: &str, c: char) -> (out: &str)
    ensures
        out@ == trim_end_char_spec(s@, c),
{
    let v = chars(s);
    let mut b: usize = v.len();
    assert(v@.take(v.len() as int) =~= s@);
    while 0 < b && v[b - 1] == c
        invariant
            b <= v.len(),
            v@ == s@,
            trim_end_char_spec(v@.take(b as int), c) == trim_end_char_spec(s@, c),
        decreases b,
    {
        assert(v@.take(b as int).drop_last() =~= v@.take(b - 1));
        b -= 1;
    }
    let out = s.substring_char(0, b);
    assert(out@ =~= v@.take(b as int));
    out
}

// ---------------------------------------------------------------------------
// Letter case
// ---------------------------------------------------------------------------

/// `s` without the `c` at its start.
pub open spec fn trim_start_char_spec(s: Seq<char>, c: char) -> Seq<char>
    decreases s.len(),
{
    if s.len() > 0 && s[0] == c {
        trim_start_char_spec(s.drop_first(), c)
    } else {
        s
    }
}

pub fn trim_start_char(s: &str, c: char) -> (out: &str)
    ensures
        out@ == trim_start_char_spec(s@, c),
{
    let n = s.unicode_len();
    let mut i: usize = 0;
    assert(s@.skip(0) =~= s@);
    while i < n && s.get_char(i) == c
        invariant
            i <= n,
            n == s@.len(),
            trim_start_char_spec(s@.skip(i as int), c) == trim_start_char_spec(s@, c),
        decreases n - i,
    {
        assert(s@.skip(i as int).drop_first() =~= s@.skip(i + 1));
        i += 1;
    }
    let out = s.substring_char(i, n);
    assert(out@ =~= s@.skip(i as int));
    out
}

pub open spec fn lowercase(s: Seq<char>) -> Seq<char> {
    Seq::new(s.len(), |i: int| spec_lower(s[i]))
}

pub fn to_lowercase(s: &str) -> (out: String)
    ensures
        out@ == lowercase(s@),
{
    let mut out = String::new();
    for c in it: s.chars()
        invariant
            out@ == lowercase(s@.take(it.index() as int)),
            it.seq() == s@,
    {
        proof {
            assert(lowercase(s@.take(it.index() as int)).push(spec_lower(c)) =~= lowercase(
                s@.take(it.index() + 1),
            ));
        }
        out.push(lower(c));
    }
    assert(s@.take(s@.len() as int) =~= s@);
    out
}

/// Every `a` replaced by `b`.
pub open spec fn replaced(s: Seq<char>, a: char, b: char) -> Seq<char> {
    Seq::new(
        s.len(),
        |i: int|
            if s[i] == a {
                b
            } else {
                s[i]
            },
    )
}

pub fn replace(s: &str, a: char, b: char) -> (out: String)
    ensures
        out@ == replaced(s@, a, b),
{
    let v = chars(s);
    let mut out = String::new();
    let mut i: usize = 0;
    while i < v.len()
        invariant
            i <= v.len(),
            v@ == s@,
            out@ == replaced(s@.take(i as int), a, b),
        decreases v.len() - i,
    {
        out.push(
            if v[i] == a {
                b
            } else {
                v[i]
            },
        );
        i += 1;
        assert(out@ =~= replaced(s@.take(i as int), a, b));
    }
    assert(s@.take(i as int) =~= s@);
    out
}

pub fn same_ignoring_case(a: &str, b: &str) -> (r: bool)
    ensures
        r == (lowercase(a@) == lowercase(b@)),
{
    to_lowercase(a) == to_lowercase(b)
}

// ---------------------------------------------------------------------------
// Decimal numbers
// ---------------------------------------------------------------------------

pub open spec fn all_digits(s: Seq<char>) -> bool {
    forall|i: int| 0 <= i < s.len() ==> spec_digit(#[trigger] s[i])
}

/// The number that a sequence of decimal digits stands for.
pub open spec fn digits_value(s: Seq<char>) -> nat
    decreases s.len(),
{
    if s.len() == 0 {
        0
    } else {
        10 * digits_value(s.drop_last()) + (s.last() as u32 - '0' as u32) as nat
    }
}

/// The number that a text stands for: an optional `+`, then at least one digit and nothing else.
pub open spec fn decimal_value(s: Seq<char>) -> Option<nat> {
    let t = if s.len() > 0 && s[0] == '+' {
        s.drop_first()
    } else {
        s
    };
    if t.len() > 0 && all_digits(t) {
        Some(digits_value(t))
    } else {
        None
    }
}

/// `decimal_value` where it is at most `max`.
pub open spec fn decimal_upto(s: Seq<char>, max: nat) -> Option<nat> {
    match decimal_value(s) {
        Some(n) => if n <= max {
            Some(n)
        } else {
            None
        },
        None => None,
    }
}

pub proof fn lemma_digits_value_take(s: Seq<char>, i: int)
    requires
        all_digits(s),
        0 <= i <= s.len(),
    ensures
        digits_value(s.take(i)) <= digits_value(s),
    decreases s.len(),
{
    if i < s.len() {
        lemma_digits_value_take(s.drop_last(), i);
        assert(s.drop_last().take(i) =~= s.take(i));
    } else {
        assert(s.take(i) =~= s);
    }
}

/// The value of `v[from..]` as a number of digits, where it is at most `max`.
pub fn parse_digits(v: &Vec<char>, from: usize, max: u64) -> (r: Option<u64>)
    requires
        from <= v.len(),
    ensures
        ({
            let t = v@.skip(from as int);
            match r {
                Some(n) => t.len() > 0 && all_digits(t) && digits_value(t) == n && n <= max,
                None => t.len() == 0 || !all_digits(t) || digits_value(t) > max,
            }
        }),
{
    let ghost t = v@.skip(from as int);
    if from == v.len() {
        return None;
    }
    let mut n: u64 = 0;
    let mut i: usize = from;
    while i < v.len()
        invariant
            from <= i <= v.len(),
            t == v@.skip(from as int),
            all_digits(t.take(i - from)),
            n == digits_value(t.take(i - from)),
            n <= max,
        decreases v.len() - i,
    {
        let c = v[i];
        assert(t[i - from] == c);
        if !digit(c) {
            return None;
        }
        let d: u64 = (c as u32 - '0' as u32) as u64;
        let ghost next = t.take(i - from + 1);
        proof {
            assert(next.drop_last() =~= t.take(i - from));
            assert(digits_value(next) == 10 * digits_value(t.take(i - from)) + d);
            if all_digits(t) {
                lemma_digits_value_take(t, i - from + 1);
            }
            assert forall|j: int| 0 <= j < next.len() implies spec_digit(#[trigger] next[j]) by {
                if j < i - from {
                    assert(t.take(i - from)[j] == next[j]);
                }
            }
        }
        let scaled = match n.checked_mul(10) {
            Some(x) => x,
            None => return None,
        };
        n = match scaled.checked_add(d) {
            Some(x) => x,
            None => return None,
        };
        if n > max {
            return None;
        }
        i += 1;
    }
    assert(t.take(t.len() as int) =~= t);
    Some(n)
}

/// The number that a text stands for, where it is at most `max`.
pub fn parse_u64_upto(s: &str, max: u64) -> (r: Option<u64>)
    ensures
        match r {
            Some(n) => decimal_upto(s@, max as nat) == Some(n as nat),
            None => decimal_upto(s@, max as nat) is None,
        },
{
    let v = chars(s);
    if v.len() > 0 && v[0] == '+' {
        assert(v@.skip(1) =~= v@.drop_first());
        parse_digits(&v, 1, max)
    } else {
        assert(v@.skip(0) =~= v@);
        parse_digits(&v, 0, max)
    }
}

pub fn parse_u64(s: &str) -> (r: Option<u64>)
    ensures
        match r {
            Some(n) => decimal_upto(s@, u64::MAX as nat) == Some(n as nat),
            None => decimal_upto(s@, u64::MAX as nat) is None,
        },
{
    parse_u64_upto(s, u64::MAX)
}

pub fn parse_u32(s: &str) -> (r: Option<u32>)
    ensures
        match r {
            Some(n) => decimal_upto(s@, u32::MAX as nat) == Some(n as nat),
            None => decimal_upto(s@, u32::MAX as nat) is None,
        },
{
    match parse_u64_upto(s, u32::MAX as u64) {
        Some(n) => Some(n as u32),
        None => None,
    }
}

pub fn parse_u16(s: &str) -> (r: Option<u16>)
    ensures
        match r {
            Some(n) => decimal_upto(s@, u16::MAX as nat) == Some(n as nat),
            None => decimal_upto(s@, u16::MAX as nat) is None,
        },
{
    match parse_u64_upto(s, u16::MAX as u64) {
        Some(n) => Some(n as u16),
        None => None,
    }
}

pub fn parse_usize(s: &str) -> (r: Option<usize>)
    ensures
        match r {
            Some(n) => decimal_upto(s@, usize::MAX as nat) == Some(n as nat),
            None => decimal_upto(s@, usize::MAX as nat) is None,
        },
{
    match parse_u64_upto(s, usize::MAX as u64) {
        Some(n) => Some(n as usize),
        None => None,
    }
}

pub open spec fn digit_char(n: nat) -> char {
    (n + '0' as u32) as u8 as char
}

/// The decimal digits of a number, without leading zeros.
pub open spec fn decimal(n: nat) -> Seq<char>
    decreases n,
{
    if n < 10 {
        seq![digit_char(n)]
    } else {
        decimal(n / 10).push(digit_char(n % 10))
    }
}

pub fn decimal_string(n: u64) -> (out: String)
    ensures
        out@ == decimal(n as nat),
    decreases n,
{
    if n < 10 {
        let mut out = String::new();
        out.push((n as u8 + 48) as char);
        assert(out@ =~= decimal(n as nat));
        out
    } else {
        let mut out = decimal_string(n / 10);
        out.push(((n % 10) as u8 + 48) as char);
        out
    }
}

/// Reading back the digits of a number gives the number.
pub proof fn lemma_decimal_reads_back(n: nat)
    ensures
        decimal(n).len() > 0,
        all_digits(decimal(n)),
        digits_value(decimal(n)) == n,
        decimal_value(decimal(n)) == Some(n),
    decreases n,
{
    reveal_with_fuel(digits_value, 2);
    if n < 10 {
        assert(decimal(n).drop_last() =~= Seq::<char>::empty());
    } else {
        lemma_decimal_reads_back(n / 10);
        assert(decimal(n).drop_last() =~= decimal(n / 10));
        assert forall|i: int| 0 <= i < decimal(n).len() implies spec_digit(
            #[trigger] decimal(n)[i],
        ) by {
            if i < decimal(n / 10).len() {
                assert(decimal(n / 10)[i] == decimal(n)[i]);
            }
        }
    }
    assert(spec_digit(decimal(n)[0]));
}

// ---------------------------------------------------------------------------
// Lists of strings
// ---------------------------------------------------------------------------

/// The hexadecimal digit of a value below 16, in lower case.
pub open spec fn hex_char(n: nat) -> char {
    if n < 10 {
        (48 + n) as char
    } else {
        (87 + n) as char
    }
}

/// A number in hexadecimal, in lower case.
pub open spec fn hex(n: nat) -> Seq<char>
    decreases n,
{
    if n < 16 {
        seq![hex_char(n)]
    } else {
        hex(n / 16).push(hex_char(n % 16))
    }
}

fn hex_digit_of(n: u64) -> (c: char)
    requires
        n < 16,
    ensures
        c == hex_char(n as nat),
{
    let b: u8 = if n < 10 {
        48 + n as u8
    } else {
        87 + n as u8
    };
    b as char
}

pub fn hex_string(n: u64) -> (out: String)
    ensures
        out@ == hex(n as nat),
    decreases n,
{
    let mut out = if n < 16 {
        String::new()
    } else {
        hex_string(n / 16)
    };
    let ghost before = out@;
    out.push(hex_digit_of(n % 16));
    proof {
        if n < 16 {
            assert(out@ =~= seq![hex_char(n as nat)]);
        }
    }
    out
}

/// Whether a list of strings holds a text.
pub fn contains(v: &Vec<String>, s: &str) -> (r: bool)
    ensures
        r == texts(v@).contains(s@),
{
    let mut i: usize = 0;
    while i < v.len()
        invariant
            i <= v.len(),
            forall|j: int| 0 <= j < i ==> v@[j]@ != s@,
        decreases v.len() - i,
    {
        if same(v[i].as_str(), s) {
            assert(texts(v@)[i as int] == s@);
            return true;
        }
        i += 1;
    }
    false
}

/// A copy of a list of strings.
pub fn copy_all(v: &Vec<String>) -> (out: Vec<String>)
    ensures
        texts(out@) == texts(v@),
        out@ == v@,
{
    let mut out: Vec<String> = Vec::new();
    let mut i: usize = 0;
    while i < v.len()
        invariant
            i <= v.len(),
            out@ == v@.take(i as int),
        decreases v.len() - i,
    {
        out.push(v[i].clone());
        i += 1;
        assert(out@ =~= v@.take(i as int));
    }
    assert(out@ =~= v@);
    out
}

/// The pieces with `sep` between each two.
pub open spec fn join_spec(v: Seq<Seq<char>>, sep: Seq<char>) -> Seq<char>
    decreases v.len(),
{
    if v.len() == 0 {
        Seq::empty()
    } else if v.len() == 1 {
        v[0]
    } else {
        join_spec(v.drop_last(), sep) + sep + v.last()
    }
}

pub fn join(v: &Vec<String>, sep: &str) -> (out: String)
    ensures
        out@ == join_spec(texts(v@), sep@),
{
    let mut out = String::new();
    let mut i: usize = 0;
    while i < v.len()
        invariant
            i <= v.len(),
            out@ == join_spec(texts(v@).take(i as int), sep@),
        decreases v.len() - i,
    {
        let ghost t = texts(v@).take(i + 1);
        if i > 0 {
            out.append(sep);
        }
        out.append(v[i].as_str());
        proof {
            assert(t.drop_last() =~= texts(v@).take(i as int));
            assert(out@ =~= join_spec(t, sep@));
        }
        i += 1;
    }
    assert(texts(v@).take(v.len() as int) =~= texts(v@));
    out
}

/// The words of a text, separated by white space.
pub open spec fn words_of(s: Seq<char>) -> Seq<Seq<char>>
    decreases s.len(),
{
    if s.len() == 0 {
        Seq::empty()
    } else if spec_whitespace(s.last()) {
        words_of(s.drop_last())
    } else if s.len() == 1 || spec_whitespace(s[s.len() - 2]) {
        words_of(s.drop_last()).push(seq![s.last()])
    } else {
        let w = words_of(s.drop_last());
        w.update(w.len() - 1, w.last().push(s.last()))
    }
}

/// The words of a text, separated by white space.
pub fn split_whitespace(s: &str) -> (out: Vec<String>)
    ensures
        texts(out@) == words_of(s@),
{
    let v = chars(s);
    let mut out: Vec<String> = Vec::new();
    let mut word = String::new();
    let mut i: usize = 0;
    assert(texts(out@) =~= words_of(v@.take(0)));
    while i < v.len()
        invariant
            i <= v.len(),
            v@ == s@,
            ({
                let inside = i > 0 && !spec_whitespace(v@[i - 1]);
                &&& inside ==> word@.len() > 0 && words_of(v@.take(i as int)) == texts(
                    out@,
                ).push(word@)
                &&& !inside ==> word@.len() == 0 && words_of(v@.take(i as int)) == texts(
                    out@,
                )
            }),
        decreases v.len() - i,
    {
        let ghost now = v@.take(i + 1);
        let ghost before = v@.take(i as int);
        proof {
            assert(now.drop_last() =~= before);
            assert(now.last() == v@[i as int]);
            assert(i > 0 ==> now[now.len() - 2] == v@[i - 1]);
        }
        let c = v[i];
        if whitespace(c) {
            if !word.as_str().is_empty() {
                let ghost w = word@;
                let ghost t = texts(out@);
                out.push(word);
                assert(texts(out@) =~= t.push(w));
                word = String::new();
            }
        } else {
            let ghost w = word@;
            word.push(c);
            proof {
                if w.len() == 0 {
                    assert(word@ =~= seq![c]);
                } else {
                    let t = texts(out@).push(w);
                    assert(t.update(t.len() - 1, t.last().push(c)) =~= texts(out@).push(
                        word@,
                    ));
                }
            }
        }
        i += 1;
    }
    assert(v@.take(i as int) =~= s@);
    if !word.as_str().is_empty() {
        let ghost w = word@;
        let ghost t = texts(out@);
        out.push(word);
        assert(texts(out@) =~= t.push(w));
    }
    out
}

/// The value of the first pair with a key.
pub open spec fn lookup(v: Seq<(Seq<char>, Seq<char>)>, key: Seq<char>) -> Option<Seq<char>>
    decreases v.len(),
{
    if v.len() == 0 {
        None
    } else if v[0].0 == key {
        Some(v[0].1)
    } else {
        lookup(v.drop_first(), key)
    }
}

/// The value of the first pair with a key.
pub fn find<'a>(v: &'a Vec<(String, String)>, key: &str) -> (r: Option<&'a str>)
    ensures
        match r {
            Some(s) => lookup(pairs(v@), key@) == Some(s@),
            None => lookup(pairs(v@), key@) is None,
        },
{
    let ghost all = pairs(v@);
    let mut i: usize = 0;
    assert(all.skip(0) =~= all);
    while i < v.len()
        invariant
            i <= v.len(),
            all == pairs(v@),
            lookup(all.skip(i as int), key@) == lookup(all, key@),
        decreases v.len() - i,
    {
        assert(all.skip(i as int)[0] == (v@[i as int].0@, v@[i as int].1@));
        assert(all.skip(i as int).drop_first() =~= all.skip(i + 1));
        if same(v[i].0.as_str(), key) {
            return Some(v[i].1.as_str());
        }
        i += 1;
    }
    None
}

// ---------------------------------------------------------------------------
// Order
// ---------------------------------------------------------------------------

/// Whether `a` comes before `b` in the order of their characters.
pub open spec fn before(a: Seq<char>, b: Seq<char>) -> bool
    decreases a.len(),
{
    if b.len() == 0 {
        false
    } else if a.len() == 0 {
        true
    } else if a[0] == b[0] {
        before(a.drop_first(), b.drop_first())
    } else {
        a[0] < b[0]
    }
}

/// Of two different texts one comes first, and it is not both.
pub proof fn lemma_before_total(a: Seq<char>, b: Seq<char>)
    ensures
        before(a, b) || before(b, a) || a == b,
        !(before(a, b) && before(b, a)),
        a == b ==> !before(a, b),
    decreases a.len(),
{
    if a.len() > 0 && b.len() > 0 && a[0] == b[0] {
        lemma_before_total(a.drop_first(), b.drop_first());
        if a.drop_first() == b.drop_first() {
            assert(a =~= seq![a[0]] + a.drop_first());
            assert(b =~= seq![b[0]] + b.drop_first());
        }
    } else if a.len() == 0 && b.len() == 0 {
        assert(a =~= b);
    }
}

pub proof fn lemma_before_transitive(a: Seq<char>, b: Seq<char>, c: Seq<char>)
    requires
        before(a, b),
        before(b, c),
    ensures
        before(a, c),
    decreases a.len(),
{
    if a.len() > 0 && a[0] == b[0] && b[0] == c[0] {
        lemma_before_transitive(a.drop_first(), b.drop_first(), c.drop_first());
    }
}

/// Whether `a` comes before `b` in the order of their characters.
pub fn is_before(a: &str, b: &str) -> (r: bool)
    ensures
        r == before(a@, b@),
{
    let x = chars(a);
    let y = chars(b);
    let mut i: usize = 0;
    assert(x@.skip(0) =~= x@);
    assert(y@.skip(0) =~= y@);
    while i < x.len() && i < y.len() && x[i] == y[i]
        invariant
            i <= x.len(),
            i <= y.len(),
            x@ == a@,
            y@ == b@,
            before(x@.skip(i as int), y@.skip(i as int)) == before(a@, b@),
        decreases x.len() - i,
    {
        assert(x@.skip(i as int).drop_first() =~= x@.skip(i + 1));
        assert(y@.skip(i as int).drop_first() =~= y@.skip(i + 1));
        i += 1;
    }
    if i >= y.len() {
        false
    } else if i >= x.len() {
        true
    } else {
        x[i] < y[i]
    }
}

// ---------------------------------------------------------------------------
// Pairs in order
// ---------------------------------------------------------------------------

/// The pairs, which are in the order of their keys, with one more; it takes the place of one of its key.
pub open spec fn put(v: Seq<(Seq<char>, Seq<char>)>, key: Seq<char>, value: Seq<char>) -> Seq<
    (Seq<char>, Seq<char>),
>
    decreases v.len(),
{
    if v.len() == 0 {
        seq![(key, value)]
    } else if v[0].0 == key {
        seq![(key, value)] + v.drop_first()
    } else if before(key, v[0].0) {
        seq![(key, value)] + v
    } else {
        seq![v[0]] + put(v.drop_first(), key, value)
    }
}

/// Puts a pair among others, which are in the order of their keys.
pub fn put_pair(v: &mut Vec<(String, String)>, key: String, value: String)
    ensures
        pairs(final(v)@) == put(pairs(old(v)@), key@, value@),
{
    let ghost all = pairs(v@);
    let ghost k = key@;
    let ghost x = value@;
    let mut i: usize = 0;
    proof {
        assert(all.skip(0) =~= all);
        assert(all.take(0) + put(all.skip(0), k, x) =~= put(all, k, x));
    }
    while i < v.len() && !same(v[i].0.as_str(), key.as_str()) && !is_before(
        key.as_str(),
        v[i].0.as_str(),
    )
        invariant
            i <= v.len(),
            all == pairs(v@),
            k == key@,
            all.take(i as int) + put(all.skip(i as int), k, x) == put(all, k, x),
        decreases v.len() - i,
    {
        proof {
            let rest = all.skip(i as int);
            assert(rest[0].0 == v@[i as int].0@);
            assert(rest.drop_first() =~= all.skip(i + 1));
            assert(all.take(i + 1) + put(all.skip(i + 1), k, x) =~= all.take(i as int) + put(
                rest,
                k,
                x,
            ));
        }
        i += 1;
    }
    if i < v.len() && same(v[i].0.as_str(), key.as_str()) {
        proof {
            let rest = all.skip(i as int);
            assert(rest[0].0 == v@[i as int].0@);
            assert(rest.drop_first() =~= all.skip(i + 1));
            assert(all.take(i as int) + (seq![(k, x)] + all.skip(i + 1)) =~= all.update(
                i as int,
                (k, x),
            ));
        }
        v.set(i, (key, value));
        assert(pairs(v@) =~= all.update(i as int, (k, x)));
    } else {
        proof {
            let rest = all.skip(i as int);
            if i == v.len() {
                assert(rest =~= Seq::empty());
                assert(all.take(i as int) + seq![(k, x)] =~= all.insert(i as int, (k, x)));
            } else {
                assert(rest[0].0 == v@[i as int].0@);
                assert(all.take(i as int) + (seq![(k, x)] + rest) =~= all.insert(
                    i as int,
                    (k, x),
                ));
            }
        }
        v.insert(i, (key, value));
        assert(pairs(v@) =~= all.insert(i as int, (k, x)));
    }
}

// ---------------------------------------------------------------------------
// Texts of a limited length
// ---------------------------------------------------------------------------

/// How many bytes a character takes.
pub open spec fn width_of(c: char) -> nat {
    vstd::utf8::encode_scalar(c as u32).len()
}

fn width(c: char) -> (n: usize)
    ensures
        n == width_of(c),
        1 <= n <= 4,
{
    let k = c as u32;
    if k <= 127 {
        1
    } else if k <= 2047 {
        2
    } else if k <= 65535 {
        3
    } else {
        4
    }
}

pub proof fn lemma_byte_len_push(s: Seq<char>, c: char)
    ensures
        byte_len(s.push(c)) == byte_len(s) + width_of(c),
    decreases s.len(),
{
    if s.len() == 0 {
        assert(s.push(c).drop_first() =~= Seq::empty());
        assert(s.push(c)[0] == c);
        assert(encode_utf8(Seq::<char>::empty()).len() == 0);
    } else {
        assert(s.push(c).drop_first() =~= s.drop_first().push(c));
        lemma_byte_len_push(s.drop_first(), c);
    }
}

/// The longest beginning of a text that takes at most `limit` bytes.
pub open spec fn truncated(s: Seq<char>, limit: nat) -> Seq<char>
    decreases s.len(),
{
    if byte_len(s) <= limit || s.len() == 0 {
        s
    } else {
        truncated(s.drop_last(), limit)
    }
}

proof fn lemma_truncated(s: Seq<char>, limit: nat, i: int)
    requires
        0 <= i < s.len(),
        byte_len(s.take(i)) <= limit,
        byte_len(s.take(i + 1)) > limit,
    ensures
        truncated(s, limit) == s.take(i),
        byte_len(s) > limit,
    decreases s.len(),
{
    assert(s =~= s.drop_last().push(s.last()));
    lemma_byte_len_push(s.drop_last(), s.last());
    if i + 1 == s.len() {
        assert(s.take(i + 1) =~= s);
        assert(s.drop_last() =~= s.take(i));
        assert(truncated(s.drop_last(), limit) == s.drop_last());
    } else {
        assert(s.drop_last().take(i) =~= s.take(i));
        assert(s.drop_last().take(i + 1) =~= s.take(i + 1));
        lemma_truncated(s.drop_last(), limit, i);
    }
}

/// The longest beginning of a text that takes at most `limit` bytes.
pub fn truncate(s: &str, limit: usize) -> (out: String)
    ensures
        out@ == truncated(s@, limit as nat),
{
    let v = chars(s);
    let mut n: usize = 0;
    let mut i: usize = 0;
    proof {
        assert(v@.take(0) =~= Seq::empty());
        assert(encode_utf8(Seq::<char>::empty()).len() == 0);
    }
    while i < v.len()
        invariant
            i <= v.len(),
            v@ == s@,
            n == byte_len(v@.take(i as int)),
            n <= limit,
        decreases v.len() - i,
    {
        let w = width(v[i]);
        proof {
            assert(v@.take(i + 1) =~= v@.take(i as int).push(v@[i as int]));
            lemma_byte_len_push(v@.take(i as int), v@[i as int]);
        }
        if w > limit - n {
            proof {
                lemma_truncated(v@, limit as nat, i as int);
            }
            let out = slice(&v, 0, i);
            assert(out@ =~= v@.take(i as int));
            return out;
        }
        n += w;
        i += 1;
    }
    assert(v@.take(i as int) =~= v@);
    s.to_owned()
}

/// A text begins with what it was put behind, and with nothing else that differs from it.
pub proof fn lemma_prefixed(p: Seq<char>, x: Seq<char>)
    ensures
        starts(p + x, p),
        (p + x).skip(p.len() as int) == x,
        forall|q: Seq<char>, i: int|
            #![trigger starts(p + x, q), q[i]]
            0 <= i < q.len() && i < p.len() && p[i] != q[i] ==> !starts(p + x, q),
{
    let s = p + x;
    assert(s.take(p.len() as int) =~= p);
    assert(s.skip(p.len() as int) =~= x);
    assert forall|q: Seq<char>, i: int|
        #![trigger starts(p + x, q), q[i]]
        0 <= i < q.len() && i < p.len() && p[i] != q[i] implies !starts(p + x, q) by {
        if starts(s, q) {
            assert(s.take(q.len() as int)[i] == s[i]);
        }
    }
}

/// Letters become lower case, and all else stays.
pub proof fn law_letters_become_lower_case(s: Seq<char>, i: int)
    requires
        0 <= i < s.len(),
    ensures
        lowercase(s).len() == s.len(),
        s[i] == 'A' ==> lowercase(s)[i] == 'a',
        s[i] == 'Z' ==> lowercase(s)[i] == 'z',
        'A' <= s[i] <= 'Z' ==> lowercase(s)[i] as u32 == s[i] as u32 + 32,
        !('A' <= s[i] <= 'Z') ==> lowercase(s)[i] == s[i],
        lowercase(lowercase(s)) == lowercase(s),
{
    assert(lowercase(lowercase(s)) =~= lowercase(s)) by {
        assert forall|k: int| 0 <= k < s.len() implies lowercase(lowercase(s))[k] == lowercase(s)[k] by {
            assert(!spec_upper_letter(lowercase(s)[k]));
        }
    }
}

/// Blanks at the ends are cut off, and nothing else.
pub proof fn law_blanks_are_cut_off(s: Seq<char>)
    ensures
        trim_spec(s).len() > 0 ==> !spec_whitespace(trim_spec(s)[0]) && !spec_whitespace(trim_spec(s).last()),
        s.len() > 0 && !spec_whitespace(s[0]) && !spec_whitespace(s.last()) ==> trim_spec(s) == s,
        trim_spec(seq![' '] + s) == trim_spec(s),
        trim_end_spec(s.push(' ')) == trim_end_spec(s),
{
    lemma_trimmed_end(trim_start_spec(s));
    lemma_trimmed_start(s);
    assert((seq![' '] + s).drop_first() =~= s);
    assert(s.push(' ').drop_last() =~= s);
    assert(spec_whitespace(' '));
}

proof fn lemma_trimmed_end(s: Seq<char>)
    ensures
        trim_end_spec(s).len() > 0 ==> !spec_whitespace(trim_end_spec(s).last()) && trim_end_spec(s)[0] == s[0],
        trim_end_spec(s).len() <= s.len(),
    decreases s.len(),
{
    if s.len() > 0 && spec_whitespace(s.last()) {
        lemma_trimmed_end(s.drop_last());
    }
}

proof fn lemma_trimmed_start(s: Seq<char>)
    ensures
        trim_start_spec(s).len() > 0 ==> !spec_whitespace(trim_start_spec(s)[0]),
    decreases s.len(),
{
    if s.len() > 0 && spec_whitespace(s[0]) {
        lemma_trimmed_start(s.drop_first());
    }
}

/// What is split is put together again.
pub proof fn law_split_texts_are_joined(s: Seq<char>, c: char)
    ensures
        join_spec(split_spec(s, c), seq![c]) == s,
    decreases s.len(),
{
    let p = position(s, c);
    lemma_position(s, c);
    if 0 <= p < s.len() {
        let rest = s.skip(p + 1);
        law_split_texts_are_joined(rest, c);
        lemma_join_front(s.take(p), split_spec(rest, c), seq![c]);
        assert(s.take(p) + seq![c] + rest =~= s);
    } else {
        assert(split_spec(s, c) =~= seq![s]);
    }
}

proof fn lemma_join_front(a: Seq<char>, v: Seq<Seq<char>>, sep: Seq<char>)
    requires
        v.len() > 0,
    ensures
        join_spec(seq![a] + v, sep) == a + sep + join_spec(v, sep),
    decreases v.len(),
{
    let w = seq![a] + v;
    assert(w.drop_last() =~= seq![a] + v.drop_last());
    assert(w.last() == v.last());
    if v.len() == 1 {
        assert(w.drop_last() =~= seq![a]);
        assert(join_spec(seq![a], sep) == a);
        assert(join_spec(v, sep) == v[0]);
    } else {
        lemma_join_front(a, v.drop_last(), sep);
        assert(a + sep + join_spec(v.drop_last(), sep) + sep + v.last() =~= a + sep + (join_spec(
            v.drop_last(),
            sep,
        ) + sep + v.last()));
    }
}

/// A value is looked up under its key, the first of them where there are several.
pub proof fn law_values_are_looked_up(
    v: Seq<(Seq<char>, Seq<char>)>,
    key: Seq<char>,
    value: Seq<char>,
    other: Seq<char>,
)
    ensures
        lookup(seq![(key, value)] + v, key) == Some(value),
        other != key ==> lookup(seq![(key, value)] + v, other) == lookup(v, other),
        lookup(Seq::empty(), key) is None,
{
    assert((seq![(key, value)] + v).drop_first() =~= v);
}

/// What is put under a key is found there, and what is under others stays.
pub proof fn law_values_are_put(
    v: Seq<(Seq<char>, Seq<char>)>,
    key: Seq<char>,
    value: Seq<char>,
    other: Seq<char>,
)
    ensures
        lookup(put(v, key, value), key) == Some(value),
        other != key ==> lookup(put(v, key, value), other) == lookup(v, other),
    decreases v.len(),
{
    let n = put(v, key, value);
    if v.len() == 0 {
        assert(n.drop_first() =~= v);
        assert(lookup(n.drop_first(), other) is None);
    } else if v[0].0 == key {
        assert(n.drop_first() =~= v.drop_first());
    } else if before(key, v[0].0) {
        assert(n.drop_first() =~= v);
    } else {
        law_values_are_put(v.drop_first(), key, value, other);
        assert(n.drop_first() =~= put(v.drop_first(), key, value));
        assert(n[0] == v[0]);
    }
}

/// Texts are ordered as in a dictionary: by the first characters that differ, and a shorter one first.
pub proof fn law_texts_are_ordered(p: Seq<char>, a: char, b: char, x: Seq<char>, y: Seq<char>)
    requires
        a < b,
    ensures
        before(p + seq![a] + x, p + seq![b] + y),
        !before(p + seq![b] + y, p + seq![a] + x),
        before(p, p + seq![a] + x),
        !before(p, p),
    decreases p.len(),
{
    let s = p + seq![a] + x;
    let t = p + seq![b] + y;
    if p.len() > 0 {
        let q = p.drop_first();
        law_texts_are_ordered(q, a, b, x, y);
        assert(s.drop_first() =~= q + seq![a] + x);
        assert(t.drop_first() =~= q + seq![b] + y);
    }
}

/// A text is cut to as many bytes, between characters, and stays where it has no more.
pub proof fn law_texts_are_cut(s: Seq<char>, limit: nat)
    ensures
        byte_len(truncated(s, limit)) <= limit,
        byte_len(s) <= limit ==> truncated(s, limit) == s,
        truncated(s, limit).is_prefix_of(s),
    decreases s.len(),
{
    if byte_len(s) <= limit || s.len() == 0 {
        if s.len() == 0 {
            assert(encode_utf8(s).len() == 0);
        }
    } else {
        law_texts_are_cut(s.drop_last(), limit);
    }
}

/// Words are what stands between blanks.
pub proof fn law_words_stand_between_blanks(s: Seq<char>, w: Seq<char>)
    requires
        w.len() > 0,
        forall|i: int| 0 <= i < w.len() ==> !spec_whitespace(#[trigger] w[i]),
    ensures
        words_of(w) == seq![w],
        words_of(s.push(' ')) == words_of(s),
        words_of(s.push(' ') + w) == words_of(s).push(w),
    decreases w.len(),
{
    assert(spec_whitespace(' '));
    assert(s.push(' ').drop_last() =~= s);
    let t = s.push(' ') + w;
    let l = w.drop_last();
    assert(t.last() == w.last());
    assert(t.drop_last() =~= s.push(' ') + l);
    if w.len() == 1 {
        assert(l =~= Seq::empty());
        assert(s.push(' ') + l =~= s.push(' '));
        assert(t[t.len() - 2] == ' ');
        assert(w =~= seq![w.last()]);
        assert(words_of(l) =~= Seq::empty());
        assert(Seq::<Seq<char>>::empty().push(w) =~= seq![w]);
        assert(words_of(t) == words_of(s.push(' ')).push(seq![w.last()]));
    } else {
        assert(forall|i: int| 0 <= i < l.len() ==> l[i] == w[i]);
        law_words_stand_between_blanks(s, l);
        assert(t[t.len() - 2] == w[w.len() - 2]);
        assert(!spec_whitespace(w[w.len() - 2]));
        assert(l.push(w.last()) =~= w);
        assert(seq![l].update(0, w) =~= seq![w]);
        let v = words_of(s).push(l);
        assert(v.update(v.len() - 1, w) =~= words_of(s).push(w));
        assert(words_of(t.drop_last()) == v);
        assert(v.last() == l);
        assert(words_of(t) == v.update(v.len() - 1, l.push(w.last())));
    }
}

/// Numbers are written in ten digits and read with a sign or without.
pub proof fn law_numbers_are_read(n: nat, s: Seq<char>)
    ensures
        decimal_value(decimal(n)) == Some(n),
        decimal_value(seq!['+'] + decimal(n)) == Some(n),
        decimal_value(seq!['-'] + decimal(n)) is None,
        decimal_value(Seq::empty()) is None,
        decimal(7) == seq!['7'],
        n >= 10 ==> decimal(n) == decimal(n / 10).push(decimal(n % 10)[0]),
{
    lemma_decimal_reads_back(n);
    let p = seq!['+'] + decimal(n);
    let m = seq!['-'] + decimal(n);
    assert(p.drop_first() =~= decimal(n));
    assert(!spec_digit(m[0]));
    assert(seq!['+'].drop_first() =~= Seq::empty());
}

/// A text is split at the first character that separates; what comes after may hold more of them.
pub proof fn law_texts_are_split_once(a: Seq<char>, c: char, b: Seq<char>)
    requires
        !a.contains(c),
    ensures
        split_once_spec(a + seq![c] + b, c) == Some((a, b)),
        split_once_spec(a, c) is None,
{
    let s = a + seq![c] + b;
    lemma_position_is(a, c, a.len() as int);
    assert forall|i: int| 0 <= i < a.len() implies s[i] != c by {
        assert(a[i] == s[i]);
        assert(a.contains(a[i]));
    }
    lemma_position_is(s, c, a.len() as int);
    assert(s.take(a.len() as int) =~= a);
    assert(s.skip((a.len() + 1) as int) =~= b);
}

} // verus!

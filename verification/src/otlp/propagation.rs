//! The trace that a request belongs to, as its fields tell it.
use crate::digest::hex;
use crate::header;
use crate::header::{visible_text, Headers};
use crate::text;
use vstd::prelude::*;
use vstd::utf8::encode_utf8;

verus! {

/// The length of a parent of the first version.
pub const PARENT: usize = 55;

/// The longest parent that is read.
pub const MAX_PARENT: usize = 1024;

/// The most entries that a trace state may have.
pub const MAX_ENTRIES: usize = 32;

/// The longest trace state that is passed on.
pub const MAX_STATE: usize = 512;

/// The longest entry that a trace state keeps that is too long.
pub const MAX_KEPT: usize = 128;

/// The longest key and the longest value of an entry.
pub const MAX_PART: usize = 256;

// ---------------------------------------------------------------------------
// Blanks and digits
// ---------------------------------------------------------------------------

pub open spec fn blank(c: char) -> bool {
    c == ' ' || c == '\t'
}

pub open spec fn without_leading(s: Seq<char>) -> Seq<char>
    decreases s.len(),
{
    if s.len() > 0 && blank(s[0]) {
        without_leading(s.drop_first())
    } else {
        s
    }
}

pub open spec fn without_trailing(s: Seq<char>) -> Seq<char>
    decreases s.len(),
{
    if s.len() > 0 && blank(s.last()) {
        without_trailing(s.drop_last())
    } else {
        s
    }
}

/// A text without the blanks around it.
pub open spec fn bare(s: Seq<char>) -> Seq<char> {
    without_trailing(without_leading(s))
}

fn is_blank(c: char) -> (r: bool)
    ensures
        r == blank(c),
{
    c == ' ' || c == '\t'
}

fn strip(s: &str) -> (out: String)
    ensures
        out@ == bare(s@),
{
    let v = text::chars(s);
    let mut a: usize = 0;
    let mut b: usize = v.len();
    assert(v@.subrange(0, v.len() as int) =~= s@);
    while a < b && is_blank(v[a])
        invariant
            a <= b == v.len(),
            v@ == s@,
            without_leading(v@.subrange(a as int, b as int)) == without_leading(s@),
        decreases b - a,
    {
        assert(v@.subrange(a as int, b as int).drop_first() =~= v@.subrange(a + 1, b as int));
        a += 1;
    }
    assert(without_leading(s@) == v@.subrange(a as int, b as int));
    while a < b && is_blank(v[b - 1])
        invariant
            a <= b <= v.len(),
            v@ == s@,
            without_trailing(v@.subrange(a as int, b as int)) == bare(s@),
        decreases b,
    {
        assert(v@.subrange(a as int, b as int).drop_last() =~= v@.subrange(a as int, b - 1));
        b -= 1;
    }
    text::slice(&v, a, b)
}

pub open spec fn lower_hex(c: char) -> bool {
    '0' <= c <= '9' || 'a' <= c <= 'f'
}

pub open spec fn digit_of(c: char) -> int {
    if '0' <= c <= '9' {
        c as int - '0' as int
    } else {
        c as int - 'a' as int + 10
    }
}

/// The bytes that pairs of digits stand for.
pub open spec fn unhexed(s: Seq<char>) -> Option<Seq<u8>> {
    if forall|i: int| 0 <= i < s.len() ==> lower_hex(#[trigger] s[i]) {
        Some(
            Seq::new(s.len() / 2, |i: int| (digit_of(s[2 * i]) * 16 + digit_of(s[2 * i + 1])) as u8),
        )
    } else {
        None
    }
}

fn digit(c: char) -> (r: Option<u8>)
    ensures
        match r {
            Some(n) => lower_hex(c) && n == digit_of(c) && n < 16,
            None => !lower_hex(c),
        },
{
    if '0' <= c && c <= '9' {
        Some(c as u8 - 48)
    } else if 'a' <= c && c <= 'f' {
        Some(c as u8 - 87)
    } else {
        None
    }
}

/// The bytes that the pairs of digits of a part stand for.
fn decode(v: &Vec<char>, from: usize, n: usize) -> (r: Option<Vec<u8>>)
    requires
        n <= 512,
        from <= 512,
        from + 2 * n <= v@.len(),
    ensures
        match r {
            Some(b) => unhexed(v@.subrange(from as int, from + 2 * n)) == Some(b@) && b@.len() == n,
            None => unhexed(v@.subrange(from as int, from + 2 * n)) is None,
        },
{
    let ghost s = v@.subrange(from as int, from + 2 * n);
    let mut out: Vec<u8> = Vec::new();
    let mut i: usize = 0;
    while i < n
        invariant
            i <= n <= 512,
            from <= 512,
            from + 2 * n <= v@.len(),
            s == v@.subrange(from as int, from + 2 * n),
            forall|j: int| 0 <= j < 2 * i ==> lower_hex(#[trigger] s[j]),
            out@.len() == i,
            forall|j: int|
                0 <= j < i ==> #[trigger] out@[j] == (digit_of(s[2 * j]) * 16 + digit_of(
                    s[2 * j + 1],
                )) as u8,
        decreases n - i,
    {
        let a = digit(v[from + 2 * i]);
        let b = digit(v[from + 2 * i + 1]);
        assert(s[2 * i] == v@[from + 2 * i]);
        assert(s[2 * i + 1] == v@[from + 2 * i + 1]);
        match (a, b) {
            (Some(x), Some(y)) => out.push(x * 16 + y),
            _ => {
                assert(!lower_hex(s[2 * i]) || !lower_hex(s[2 * i + 1]));
                return None;
            },
        }
        i += 1;
    }
    proof {
        assert(s.len() / 2 == n);
        assert(out@ =~= Seq::new(
            s.len() / 2,
            |i: int| (digit_of(s[2 * i]) * 16 + digit_of(s[2 * i + 1])) as u8,
        ));
    }
    Some(out)
}

// ---------------------------------------------------------------------------
// The parent
// ---------------------------------------------------------------------------

/// What a parent says: the trace, the span, and whether it is recorded.
#[verifier::ext_equal]
pub ghost struct Parent {
    pub trace: Seq<u8>,
    pub span: Seq<u8>,
    pub sampled: bool,
}

pub open spec fn all_zero(v: Seq<u8>) -> bool {
    forall|i: int| 0 <= i < v.len() ==> #[trigger] v[i] == 0
}

/// A parent as it is written: the version, the trace, the span and the flags.
pub open spec fn parent_of(s: Seq<char>) -> Option<Parent> {
    if !(PARENT <= s.len() <= MAX_PARENT) || s[2] != '-' || s[35] != '-' || s[52] != '-' {
        None
    } else {
        match (
            unhexed(s.subrange(0, 2)),
            unhexed(s.subrange(3, 35)),
            unhexed(s.subrange(36, 52)),
            unhexed(s.subrange(53, 55)),
        ) {
            (Some(version), Some(trace), Some(span), Some(flags)) => if version[0] == 255 || (
            version[0] == 0 && s.len() != PARENT) || (s.len() > PARENT && s[PARENT as int] != '-')
                || all_zero(trace) || all_zero(span) {
                None
            } else {
                Some(Parent { trace, span, sampled: flags[0] % 2 == 1 })
            },
            _ => None,
        }
    }
}

fn is_zero(v: &Vec<u8>) -> (r: bool)
    ensures
        r == all_zero(v@),
{
    let mut i: usize = 0;
    while i < v.len()
        invariant
            i <= v.len(),
            forall|j: int| 0 <= j < i ==> #[trigger] v@[j] == 0,
        decreases v.len() - i,
    {
        if v[i] != 0 {
            return false;
        }
        i += 1;
    }
    true
}

/// The trace that a request belongs to.
#[derive(Debug)]
pub struct Context {
    pub trace: Vec<u8>,
    pub parent: Vec<u8>,
    pub sampled: bool,
    pub header: String,
    pub state: String,
}

/// What a `Context` holds.
#[verifier::ext_equal]
pub ghost struct Origin {
    pub parent: Parent,
    pub header: Seq<char>,
    pub state: Seq<char>,
}

impl View for Context {
    type V = Origin;

    open spec fn view(&self) -> Origin {
        Origin {
            parent: Parent { trace: self.trace@, span: self.parent@, sampled: self.sampled },
            header: self.header@,
            state: self.state@,
        }
    }
}

fn read_parent(s: &str) -> (r: Option<(Vec<u8>, Vec<u8>, bool)>)
    ensures
        match r {
            Some(p) => parent_of(s@) == Some(Parent { trace: p.0@, span: p.1@, sampled: p.2 })
                && p.0@.len() == 16 && p.1@.len() == 8,
            None => parent_of(s@) is None,
        },
{
    let v = text::chars(s);
    let n = v.len();
    if n < PARENT || n > MAX_PARENT || v[2] != '-' || v[35] != '-' || v[52] != '-' {
        return None;
    }
    match (decode(&v, 0, 1), decode(&v, 3, 16), decode(&v, 36, 8), decode(&v, 53, 1)) {
        (Some(version), Some(trace), Some(span), Some(flags)) => {
            if version[0] == 255 || (version[0] == 0 && n != PARENT) || (n > PARENT && v[PARENT]
                != '-') || is_zero(&trace) || is_zero(&span) {
                None
            } else {
                let sampled = flags[0] % 2 == 1;
                Some((trace, span, sampled))
            }
        },
        _ => None,
    }
}

// ---------------------------------------------------------------------------
// The state
// ---------------------------------------------------------------------------

pub open spec fn key_char(c: char) -> bool {
    text::spec_lower_letter(c) || text::spec_digit(c) || c == '_' || c == '-' || c == '*' || c
        == '/'
}

pub open spec fn key_chars(s: Seq<char>) -> bool {
    forall|i: int| 0 <= i < s.len() ==> key_char(#[trigger] s[i])
}

/// A key of an entry: a name, or a tenant and a system.
pub open spec fn valid_key_of(s: Seq<char>) -> bool {
    match text::split_once_spec(s, '@') {
        Some((tenant, system)) => 1 <= tenant.len() <= 241 && 1 <= system.len() <= 14
            && text::spec_alphanumeric(tenant[0]) && text::spec_lower_letter(system[0])
            && key_chars(tenant) && key_chars(system),
        None => 1 <= s.len() <= MAX_PART && text::spec_lower_letter(s[0]) && key_chars(s),
    }
}

fn are_key_chars(v: &Vec<char>) -> (r: bool)
    ensures
        r == key_chars(v@),
{
    let mut i: usize = 0;
    while i < v.len()
        invariant
            i <= v.len(),
            forall|j: int| 0 <= j < i ==> key_char(#[trigger] v@[j]),
        decreases v.len() - i,
    {
        let c = v[i];
        if !(text::lower_letter(c) || text::digit(c) || c == '_' || c == '-' || c == '*' || c
            == '/') {
            assert(!key_char(v@[i as int]));
            return false;
        }
        i += 1;
    }
    true
}

/// Whether a text is a key of an entry.
pub fn valid_key(s: &str) -> (r: bool)
    ensures
        r == valid_key_of(s@),
{
    match text::split_once(s, '@') {
        Some((tenant, system)) => {
            let a = text::chars(tenant.as_str());
            let b = text::chars(system.as_str());
            1 <= a.len() && a.len() <= 241 && 1 <= b.len() && b.len() <= 14 && text::alphanumeric(
                a[0],
            ) && text::lower_letter(b[0]) && are_key_chars(&a) && are_key_chars(&b)
        },
        None => {
            let v = text::chars(s);
            1 <= v.len() && v.len() <= MAX_PART && text::lower_letter(v[0]) && are_key_chars(&v)
        },
    }
}

pub open spec fn value_char(c: char) -> bool {
    ' ' <= c <= '~' && c != '='
}

pub open spec fn valid_value(s: Seq<char>) -> bool {
    1 <= s.len() <= MAX_PART && forall|i: int| 0 <= i < s.len() ==> value_char(#[trigger] s[i])
}

fn is_valid_value(s: &str) -> (r: bool)
    ensures
        r == valid_value(s@),
{
    let v = text::chars(s);
    if v.len() < 1 || v.len() > MAX_PART {
        return false;
    }
    let mut i: usize = 0;
    while i < v.len()
        invariant
            i <= v.len(),
            v@ == s@,
            forall|j: int| 0 <= j < i ==> value_char(#[trigger] s@[j]),
        decreases v.len() - i,
    {
        let c = v[i];
        if !(' ' <= c && c <= '~' && c != '=') {
            assert(!value_char(s@[i as int]));
            return false;
        }
        i += 1;
    }
    true
}

/// The key of an entry.
pub open spec fn key_of(entry: Seq<char>) -> Seq<char> {
    match text::split_once_spec(entry, '=') {
        Some((key, _)) => key,
        None => entry,
    }
}

pub open spec fn valid_entry(entry: Seq<char>) -> bool {
    match text::split_once_spec(entry, '=') {
        Some((key, value)) => valid_key_of(key) && valid_value(value),
        None => false,
    }
}

pub open spec fn key_among(v: Seq<Seq<char>>, key: Seq<char>) -> bool {
    exists|i: int| 0 <= i < v.len() && key_of(#[trigger] v[i]) == key
}

/// The entries with those of a field, where all are entries, no key occurs twice and there are not too
/// many.
pub open spec fn with_pieces(v: Seq<Seq<char>>, pieces: Seq<Seq<char>>) -> Option<Seq<Seq<char>>>
    decreases pieces.len(),
{
    if pieces.len() == 0 {
        Some(v)
    } else {
        match with_pieces(v, pieces.drop_last()) {
            None => None,
            Some(w) => {
                let entry = bare(pieces.last());
                if entry.len() == 0 {
                    Some(w)
                } else if !valid_entry(entry) || key_among(w, key_of(entry)) || w.len()
                    >= MAX_ENTRIES {
                    None
                } else {
                    Some(w.push(entry))
                }
            },
        }
    }
}

pub open spec fn entries_of(fields: Seq<Seq<u8>>) -> Option<Seq<Seq<char>>>
    decreases fields.len(),
{
    if fields.len() == 0 {
        Some(Seq::empty())
    } else {
        match entries_of(fields.drop_last()) {
            None => None,
            Some(v) => match visible_text(fields.last()) {
                None => None,
                Some(s) => with_pieces(v, text::split_spec(s, ',')),
            },
        }
    }
}

/// The length of entries with commas between them.
pub open spec fn length_of(v: Seq<Seq<char>>) -> nat
    decreases v.len(),
{
    if v.len() == 0 {
        0
    } else if v.len() == 1 {
        v[0].len()
    } else {
        length_of(v.drop_last()) + 1 + v.last().len()
    }
}

/// The entries that are not too long by themselves.
pub open spec fn short_ones(v: Seq<Seq<char>>) -> Seq<Seq<char>>
    decreases v.len(),
{
    if v.len() == 0 {
        Seq::empty()
    } else if v.last().len() <= MAX_KEPT {
        short_ones(v.drop_last()).push(v.last())
    } else {
        short_ones(v.drop_last())
    }
}

/// The first entries, as many as fit.
pub open spec fn fitting(v: Seq<Seq<char>>) -> Seq<Seq<char>>
    decreases v.len(),
{
    if length_of(v) > MAX_STATE && v.len() > 0 {
        fitting(v.drop_last())
    } else {
        v
    }
}

/// The entries that are passed on: where they are too long together, the long ones go first, then the
/// oldest. None is cut.
pub open spec fn kept_entries(v: Seq<Seq<char>>) -> Seq<Seq<char>> {
    if length_of(v) > MAX_STATE {
        fitting(short_ones(v))
    } else {
        v
    }
}

/// The trace state of a request; empty where it is not well-formed.
pub open spec fn state_of(fields: Seq<Seq<u8>>) -> Seq<char> {
    match entries_of(fields) {
        None => Seq::empty(),
        Some(v) => text::join_spec(kept_entries(v), ","@),
    }
}

spec fn short_enough(v: Seq<Seq<char>>) -> bool {
    v.len() <= MAX_ENTRIES && forall|i: int| 0 <= i < v.len() ==> (#[trigger] v[i]).len() <= 513
}

proof fn lemma_valid_entry(s: Seq<char>)
    requires
        valid_entry(s),
    ensures
        s.len() <= 513,
{
    text::lemma_position(s, '=');
    let p = text::position(s, '=');
    let key = s.take(p);
    text::lemma_position(key, '@');
}

proof fn lemma_length(v: Seq<Seq<char>>)
    requires
        short_enough(v),
    ensures
        length_of(v) <= v.len() * 514,
    decreases v.len(),
{
    if v.len() > 1 {
        assert(short_enough(v.drop_last())) by {
            assert forall|i: int| 0 <= i < v.drop_last().len() implies (
            #[trigger] v.drop_last()[i]).len() <= 513 by {
                assert(v[i].len() <= 513);
            }
        }
        lemma_length(v.drop_last());
        assert(v[v.len() - 1].len() <= 513);
    } else if v.len() == 1 {
        assert(v[0].len() <= 513);
    }
}

fn char_count(s: &str) -> (n: usize)
    ensures
        n == s@.len(),
{
    text::chars(s).len()
}

fn measure(v: &Vec<String>) -> (n: usize)
    requires
        short_enough(text::texts(v@)),
    ensures
        n == length_of(text::texts(v@)),
{
    let ghost all = text::texts(v@);
    if v.len() == 0 {
        return 0;
    }
    let mut n: usize = char_count(v[0].as_str());
    let mut i: usize = 1;
    assert(all.take(1)[0] == v@[0]@);
    while i < v.len()
        invariant
            1 <= i <= v.len() <= MAX_ENTRIES,
            all == text::texts(v@),
            short_enough(all),
            n == length_of(all.take(i as int)),
        decreases v.len() - i,
    {
        proof {
            assert(all.take(i + 1).drop_last() =~= all.take(i as int));
            assert(all.take(i + 1).last() == v@[i as int]@);
            assert(short_enough(all.take(i as int))) by {
                assert forall|j: int| 0 <= j < all.take(i as int).len() implies (
                #[trigger] all.take(i as int)[j]).len() <= 513 by {
                    assert(all[j].len() <= 513);
                }
            }
            lemma_length(all.take(i as int));
            assert(all[i as int].len() <= 513);
        }
        n = n + 1 + char_count(v[i].as_str());
        i += 1;
    }
    assert(all.take(i as int) =~= all);
    n
}

fn keep_short(v: &Vec<String>) -> (out: Vec<String>)
    requires
        short_enough(text::texts(v@)),
    ensures
        text::texts(out@) == short_ones(text::texts(v@)),
        short_enough(text::texts(out@)),
{
    let ghost all = text::texts(v@);
    let mut out: Vec<String> = Vec::new();
    let mut i: usize = 0;
    assert(text::texts(out@) =~= Seq::empty());
    while i < v.len()
        invariant
            i <= v.len() <= MAX_ENTRIES,
            all == text::texts(v@),
            text::texts(out@) == short_ones(all.take(i as int)),
            out@.len() <= i,
            forall|j: int| 0 <= j < out@.len() ==> (#[trigger] text::texts(out@)[j]).len() <= 513,
        decreases v.len() - i,
    {
        let ghost before = text::texts(out@);
        assert(all.take(i + 1).drop_last() =~= all.take(i as int));
        if char_count(v[i].as_str()) <= MAX_KEPT {
            out.push(v[i].clone());
            proof {
                assert(text::texts(out@) =~= before.push(v@[i as int]@));
                assert forall|j: int| 0 <= j < out@.len() implies (#[trigger] text::texts(
                    out@,
                )[j]).len() <= 513 by {
                    if j < before.len() {
                        assert(before[j].len() <= 513);
                    }
                }
            }
        }
        i += 1;
    }
    assert(all.take(i as int) =~= all);
    out
}

fn cut(v: Vec<String>) -> (out: Vec<String>)
    requires
        short_enough(text::texts(v@)),
    ensures
        text::texts(out@) == kept_entries(text::texts(v@)),
{
    if measure(&v) <= MAX_STATE {
        return v;
    }
    let mut out = keep_short(&v);
    let ghost goal = fitting(text::texts(out@));
    while out.len() > 0 && measure(&out) > MAX_STATE
        invariant
            short_enough(text::texts(out@)),
            fitting(text::texts(out@)) == goal,
        decreases out.len(),
    {
        let ghost before = text::texts(out@);
        let _ = out.pop();
        proof {
            assert(text::texts(out@) =~= before.drop_last());
            assert forall|j: int| 0 <= j < out@.len() implies (#[trigger] text::texts(
                out@,
            )[j]).len() <= 513 by {
                assert(before[j].len() <= 513);
            }
        }
    }
    out
}

fn has_key(v: &Vec<String>, key: &str) -> (r: bool)
    ensures
        r == key_among(text::texts(v@), key@),
{
    let ghost all = text::texts(v@);
    let mut i: usize = 0;
    while i < v.len()
        invariant
            i <= v.len(),
            all == text::texts(v@),
            forall|j: int| 0 <= j < i ==> key_of(#[trigger] all[j]) != key@,
        decreases v.len() - i,
    {
        assert(all[i as int] == v@[i as int]@);
        let same = match text::split_once(v[i].as_str(), '=') {
            Some((k, _)) => text::same(k.as_str(), key),
            None => text::same(v[i].as_str(), key),
        };
        if same {
            assert(key_of(all[i as int]) == key@);
            return true;
        }
        assert(key_of(all[i as int]) != key@);
        i += 1;
    }
    false
}

proof fn lemma_pieces_none(v: Seq<Seq<char>>, pieces: Seq<Seq<char>>, i: int)
    requires
        0 <= i <= pieces.len(),
        with_pieces(v, pieces.take(i)) is None,
    ensures
        with_pieces(v, pieces) is None,
    decreases pieces.len(),
{
    if i < pieces.len() {
        assert(pieces.drop_last().take(i) =~= pieces.take(i));
        lemma_pieces_none(v, pieces.drop_last(), i);
    } else {
        assert(pieces.take(i) =~= pieces);
    }
}

proof fn lemma_entries_none(fields: Seq<Seq<u8>>, i: int)
    requires
        0 <= i <= fields.len(),
        entries_of(fields.take(i)) is None,
    ensures
        entries_of(fields) is None,
    decreases fields.len(),
{
    if i < fields.len() {
        assert(fields.drop_last().take(i) =~= fields.take(i));
        lemma_entries_none(fields.drop_last(), i);
    } else {
        assert(fields.take(i) =~= fields);
    }
}

fn add_pieces(v: &mut Vec<String>, pieces: &Vec<String>) -> (r: bool)
    requires
        short_enough(text::texts(old(v)@)),
    ensures
        r == (with_pieces(text::texts(old(v)@), text::texts(pieces@)) is Some),
        r ==> with_pieces(text::texts(old(v)@), text::texts(pieces@)) == Some(
            text::texts(final(v)@),
        ),
        short_enough(text::texts(final(v)@)),
{
    let ghost start = text::texts(v@);
    let ghost all = text::texts(pieces@);
    let mut i: usize = 0;
    while i < pieces.len()
        invariant
            i <= pieces.len(),
            start == text::texts(old(v)@),
            all == text::texts(pieces@),
            short_enough(text::texts(v@)),
            with_pieces(start, all.take(i as int)) == Some(text::texts(v@)),
        decreases pieces.len() - i,
    {
        let ghost before = text::texts(v@);
        assert(all.take(i + 1).drop_last() =~= all.take(i as int));
        assert(before.len() == v@.len());
        let entry = strip(pieces[i].as_str());
        if !entry.as_str().is_empty() {
            let valid = match text::split_once(entry.as_str(), '=') {
                Some((key, value)) => valid_key(key.as_str()) && is_valid_value(value.as_str())
                    && !has_key(v, key.as_str()) && v.len() < MAX_ENTRIES,
                None => false,
            };
            if !valid {
                proof {
                    lemma_pieces_none(start, all, i + 1);
                }
                return false;
            }
            proof {
                lemma_valid_entry(entry@);
            }
            let ghost x = entry@;
            v.push(entry);
            proof {
                assert(text::texts(v@) =~= before.push(x));
                assert forall|j: int| 0 <= j < v@.len() implies (#[trigger] text::texts(
                    v@,
                )[j]).len() <= 513 by {
                    if j < before.len() {
                        assert(before[j].len() <= 513);
                    }
                }
            }
        }
        i += 1;
    }
    assert(all.take(i as int) =~= all);
    true
}

/// The trace state of a request; empty where it is not well-formed.
pub fn tracestate(headers: &Headers) -> (out: String)
    ensures
        out@ == state_of(header::values(headers.fields@, "tracestate"@)),
{
    let values = headers.all("tracestate");
    let ghost fields = header::values(headers.fields@, "tracestate"@);
    let mut v: Vec<String> = Vec::new();
    let mut i: usize = 0;
    assert(text::texts(v@) =~= Seq::empty());
    while i < values.len()
        invariant
            i <= values.len(),
            fields == header::values(headers.fields@, "tracestate"@),
            fields.len() == values@.len(),
            forall|j: int| 0 <= j < values@.len() ==> (#[trigger] values@[j])@ == fields[j],
            short_enough(text::texts(v@)),
            entries_of(fields.take(i as int)) == Some(text::texts(v@)),
        decreases values.len() - i,
    {
        proof {
            assert(fields.take(i + 1).drop_last() =~= fields.take(i as int));
            assert(fields.take(i + 1).last() == values@[i as int]@);
        }
        let good = match header::to_text(values[i]) {
            None => false,
            Some(s) => {
                let pieces = text::split(s.as_str(), ',');
                add_pieces(&mut v, &pieces)
            },
        };
        if !good {
            proof {
                lemma_entries_none(fields, i + 1);
            }
            let out = String::new();
            assert(out@ =~= Seq::<char>::empty());
            return out;
        }
        i += 1;
    }
    assert(fields.take(i as int) =~= fields);
    let kept = cut(v);
    text::join(&kept, ",")
}

// ---------------------------------------------------------------------------
// The fields
// ---------------------------------------------------------------------------

/// The trace that a request belongs to, by its fields.
pub open spec fn origin_of(parents: Seq<Seq<u8>>, states: Seq<Seq<u8>>) -> Option<Origin> {
    if parents.len() != 1 {
        None
    } else {
        match visible_text(parents[0]) {
            None => None,
            Some(s) => match parent_of(bare(s)) {
                None => None,
                Some(parent) => Some(
                    Origin { parent, header: bare(s), state: state_of(states) },
                ),
            },
        }
    }
}

/// The trace that a request belongs to.
pub fn extract(headers: &Headers) -> (r: Option<Context>)
    ensures
        match r {
            Some(c) => origin_of(
                header::values(headers.fields@, "traceparent"@),
                header::values(headers.fields@, "tracestate"@),
            ) == Some(c@) && c.trace@.len() == 16 && c.parent@.len() == 8,
            None => origin_of(
                header::values(headers.fields@, "traceparent"@),
                header::values(headers.fields@, "tracestate"@),
            ) is None,
        },
{
    let values = headers.all("traceparent");
    if values.len() != 1 {
        return None;
    }
    let s = match header::to_text(values[0]) {
        None => return None,
        Some(s) => strip(s.as_str()),
    };
    match read_parent(s.as_str()) {
        None => None,
        Some((trace, parent, sampled)) => Some(
            Context { trace, parent, sampled, header: s, state: tracestate(headers) },
        ),
    }
}

/// A parent of the first version.
pub open spec fn written_parent(p: Parent) -> Seq<char> {
    "00-"@ + hex(p.trace) + "-"@ + hex(p.span) + "-0"@ + if p.sampled {
        "1"@
    } else {
        "0"@
    }
}

// ---------------------------------------------------------------------------
// Laws
// ---------------------------------------------------------------------------

proof fn lemma_hex_at(v: Seq<u8>, i: int)
    requires
        0 <= i < v.len(),
    ensures
        hex(v).len() == 2 * v.len(),
        hex(v)[2 * i] == text::hex_char(v[i] as nat / 16),
        hex(v)[2 * i + 1] == text::hex_char(v[i] as nat % 16),
    decreases v.len(),
{
    let w = v.drop_last();
    crate::digest::lemma_hex_len(w);
    if i < w.len() {
        lemma_hex_at(w, i);
        assert(hex(v)[2 * i] == hex(w)[2 * i]);
        assert(hex(v)[2 * i + 1] == hex(w)[2 * i + 1]);
    }
}

proof fn lemma_unhexed(v: Seq<u8>)
    ensures
        unhexed(hex(v)) == Some(v),
{
    let s = hex(v);
    crate::digest::lemma_hex_len(v);
    assert forall|j: int| 0 <= j < s.len() implies lower_hex(#[trigger] s[j]) by {
        lemma_hex_at(v, j / 2);
    }
    let w = Seq::new(
        s.len() / 2,
        |i: int| (digit_of(s[2 * i]) * 16 + digit_of(s[2 * i + 1])) as u8,
    );
    assert forall|i: int| 0 <= i < v.len() implies w[i] == v[i] by {
        lemma_hex_at(v, i);
    }
    assert(w =~= v);
}

/// What is written of a trace is what is read of it again.
pub proof fn law_written_parents_are_read(p: Parent)
    requires
        p.trace.len() == 16 && !all_zero(p.trace),
        p.span.len() == 8 && !all_zero(p.span),
    ensures
        parent_of(written_parent(p)) == Some(p),
{
    reveal_strlit("00-");
    reveal_strlit("-");
    reveal_strlit("-0");
    reveal_strlit("1");
    reveal_strlit("0");
    crate::digest::lemma_hex_len(p.trace);
    crate::digest::lemma_hex_len(p.span);
    lemma_unhexed(p.trace);
    lemma_unhexed(p.span);
    let s = written_parent(p);
    assert(s.len() == 55);
    assert(s.subrange(3, 35) =~= hex(p.trace));
    assert(s.subrange(36, 52) =~= hex(p.span));
    let a = s.subrange(0, 2);
    assert(a =~= seq!['0', '0']);
    let b = s.subrange(53, 55);
    assert(b =~= seq!['0', if p.sampled { '1' } else { '0' }]);
    assert(unhexed(a) is Some && unhexed(a)->0[0] == 0);
    assert(unhexed(b) is Some && unhexed(b)->0[0] == if p.sampled {
        1u8
    } else {
        0u8
    });
}

/// What is written of a trace is what a request that carries it belongs to.
pub proof fn law_injected_parents_are_extracted(p: Parent, states: Seq<Seq<u8>>)
    requires
        p.trace.len() == 16 && !all_zero(p.trace),
        p.span.len() == 8 && !all_zero(p.span),
    ensures
        origin_of(seq![encode_utf8(written_parent(p))], states) == Some(
            Origin { parent: p, header: written_parent(p), state: state_of(states) },
        ),
{
    law_written_parents_are_read(p);
    reveal_strlit("00-");
    reveal_strlit("-");
    reveal_strlit("-0");
    reveal_strlit("1");
    reveal_strlit("0");
    crate::digest::lemma_hex_len(p.trace);
    crate::digest::lemma_hex_len(p.span);
    let s = written_parent(p);
    assert forall|i: int| 0 <= i < s.len() implies '-' <= #[trigger] s[i] <= 'f' by {
        if 3 <= i < 35 {
            assert(s[i] == hex(p.trace)[i - 3]);
            lemma_hex_at(p.trace, (i - 3) / 2);
        } else if 36 <= i < 52 {
            assert(s[i] == hex(p.span)[i - 36]);
            lemma_hex_at(p.span, (i - 36) / 2);
        }
    }
    assert(text::ascii(s));
    vstd::utf8::is_ascii_chars_encode_utf8(s);
    let b = encode_utf8(s);
    assert forall|i: int| 0 <= i < b.len() implies header::spec_visible(#[trigger] b[i]) by {
        assert(b[i] == s[i] as u8);
    }
    let t = Seq::new(b.len(), |i: int| b[i] as char);
    assert forall|i: int| 0 <= i < s.len() implies t[i] == s[i] by {
        assert(b[i] == s[i] as u8);
    }
    assert(t =~= s);
    assert(visible_text(b) == Some(s));
    assert(bare(s) == s);
    assert(seq![b][0] == b);
}

proof fn lemma_join_len(v: Seq<Seq<char>>)
    ensures
        text::join_spec(v, ","@).len() == length_of(v),
    decreases v.len(),
{
    reveal_strlit(",");
    if v.len() > 1 {
        lemma_join_len(v.drop_last());
    }
}

proof fn lemma_fitting(v: Seq<Seq<char>>)
    ensures
        length_of(fitting(v)) <= MAX_STATE,
    decreases v.len(),
{
    if length_of(v) > MAX_STATE && v.len() > 0 {
        lemma_fitting(v.drop_last());
    }
}

/// The trace state that is passed on is never too long.
pub proof fn law_trace_states_are_bounded(fields: Seq<Seq<u8>>)
    ensures
        state_of(fields).len() <= MAX_STATE,
{
    if entries_of(fields) is Some {
        let v = entries_of(fields)->0;
        lemma_join_len(kept_entries(v));
        lemma_fitting(short_ones(v));
    }
}

/// No entry of a trace state is cut: those that are passed on are among those that came.
pub proof fn law_entries_are_whole(v: Seq<Seq<char>>, i: int)
    requires
        0 <= i < kept_entries(v).len(),
    ensures
        v.contains(kept_entries(v)[i]),
{
    if length_of(v) > MAX_STATE {
        lemma_fitting_prefix(short_ones(v));
        lemma_short_ones(v, i);
    } else {
        assert(v.contains(v[i]));
    }
}

proof fn lemma_fitting_prefix(v: Seq<Seq<char>>)
    ensures
        fitting(v).len() <= v.len(),
        fitting(v) == v.take(fitting(v).len() as int),
    decreases v.len(),
{
    if length_of(v) > MAX_STATE && v.len() > 0 {
        lemma_fitting_prefix(v.drop_last());
        let n = fitting(v).len() as int;
        assert(v.drop_last().take(n) =~= v.take(n));
    } else {
        assert(v.take(v.len() as int) =~= v);
    }
}

proof fn lemma_short_ones(v: Seq<Seq<char>>, i: int)
    requires
        0 <= i < short_ones(v).len(),
    ensures
        v.contains(short_ones(v)[i]),
    decreases v.len(),
{
    if v.len() > 0 {
        let w = short_ones(v.drop_last());
        if i < w.len() {
            lemma_short_ones(v.drop_last(), i);
            let k = choose|k: int| 0 <= k < v.drop_last().len() && v.drop_last()[k] == w[i];
            assert(v[k] == w[i]);
        } else {
            assert(v[v.len() - 1] == v.last());
        }
    }
}

/// A parent is refused where its version is not one, where it is of the first version and longer, where a part
/// is not of lower-case digits, and where the trace or the span is nothing.
pub proof fn law_bad_parents_are_refused(s: Seq<char>)
    ensures
        s.len() < 55 || s.len() > 1024 ==> parent_of(s) is None,
        s.len() >= 55 && (s[2] != '-' || s[35] != '-' || s[52] != '-') ==> parent_of(s) is None,
        s.len() > 55 && s[55] != '-' ==> parent_of(s) is None,
        s.len() >= 55 && unhexed(s.subrange(3, 35)) is Some && all_zero(unhexed(s.subrange(3, 35))->0)
            ==> parent_of(s) is None,
        s.len() >= 55 && unhexed(s.subrange(36, 52)) is Some && all_zero(unhexed(s.subrange(36, 52))->0)
            ==> parent_of(s) is None,
        s.len() >= 55 && unhexed(s.subrange(3, 35)) is None ==> parent_of(s) is None,
        s.len() >= 55 && unhexed(s.subrange(0, 2)) is Some && unhexed(s.subrange(0, 2))->0[0] == 255
            ==> parent_of(s) is None,
        s.len() > 55 && unhexed(s.subrange(0, 2)) is Some && unhexed(s.subrange(0, 2))->0[0] == 0 ==> parent_of(s)
            is None,
{
}

/// Two digits are a byte, and anything but lower-case digits is none.
pub proof fn law_digits_are_bytes(s: Seq<char>, i: int)
    requires
        0 <= i < s.len() / 2,
    ensures
        unhexed(s) matches Some(v) ==> v.len() == s.len() / 2 && v[i] == (digit_of(s[2 * i]) * 16 + digit_of(
            s[2 * i + 1],
        )) as u8,
        'A' <= s[i] <= 'F' || s[i] == '-' || s[i] == 'g' ==> unhexed(s) is None,
        digit_of('0') == 0 && digit_of('9') == 9 && digit_of('a') == 10 && digit_of('f') == 15,
{
    if 'A' <= s[i] <= 'F' || s[i] == '-' || s[i] == 'g' {
        assert(!lower_hex(s[i]));
    }
}

/// More or fewer than one parent is none.
pub proof fn law_requests_have_one_parent(parents: Seq<Seq<u8>>, states: Seq<Seq<u8>>)
    ensures
        parents.len() != 1 ==> origin_of(parents, states) is None,
        parents.len() == 1 && visible_text(parents[0]) is None ==> origin_of(parents, states) is None,
{
}

/// An entry of the state is a key and a value; one that is bad, that stands twice or that is one too many spoils
/// all.
pub proof fn law_states_are_whole_or_nothing(v: Seq<Seq<char>>, p: Seq<Seq<char>>, w: Seq<Seq<char>>, e: Seq<char>)
    requires
        with_pieces(v, p) == Some(w),
        bare(e) == e,
        e.len() > 0,
    ensures
        !valid_entry(e) ==> with_pieces(v, p.push(e)) is None,
        key_among(w, key_of(e)) ==> with_pieces(v, p.push(e)) is None,
        w.len() >= 32 ==> with_pieces(v, p.push(e)) is None,
        valid_entry(e) && !key_among(w, key_of(e)) && w.len() < 32 ==> with_pieces(v, p.push(e)) == Some(
            w.push(e),
        ),
{
    assert(p.push(e).drop_last() =~= p);
}

/// A key begins with a lower-case letter and holds lower-case letters, digits and a few marks; a value holds no
/// `=` and nothing that is not visible.
pub proof fn law_keys_and_values_of_states(s: Seq<char>, i: int)
    requires
        0 <= i < s.len(),
    ensures
        !s.contains('@') && ('A' <= s[i] <= 'Z' || s[i] == '=' || s[i] == ' ' || s[i] == ',') ==> !valid_key_of(s),
        !s.contains('@') && !('a' <= s[0] <= 'z') ==> !valid_key_of(s),
        s[i] == '=' || s[i] == '\t' || s[i] == '\n' ==> !valid_value(s),
        s.len() > 256 ==> !valid_value(s),
        s.len() <= 256 && (forall|j: int| 0 <= j < s.len() ==> 'a' <= #[trigger] s[j] <= 'z') ==> valid_value(s)
            && valid_key_of(s),
{
    if !s.contains('@') {
        assert forall|j: int| 0 <= j < s.len() implies s[j] != '@' by {
            assert(s.contains(s[j]));
        }
        text::lemma_position_is(s, '@', s.len() as int);
        if 'A' <= s[i] <= 'Z' || s[i] == '=' || s[i] == ' ' || s[i] == ',' {
            assert(!key_char(s[i]));
        }
    }
    if s[i] == '=' || s[i] == '\t' || s[i] == '\n' {
        assert(!value_char(s[i]));
    }
    if forall|j: int| 0 <= j < s.len() ==> 'a' <= #[trigger] s[j] <= 'z' {
        assert forall|j: int| 0 <= j < s.len() implies s[j] != '@' by {
            assert('a' <= s[j] <= 'z');
        }
        text::lemma_position_is(s, '@', s.len() as int);
    }
}

} // verus!

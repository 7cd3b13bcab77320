//! Digests, and bytes in hexadecimal.
use crate::text;
use vstd::prelude::*;
use vstd::utf8::encode_utf8;

verus! {

/// The SHA-256 digest of some bytes.
pub uninterp spec fn sha256(bytes: Seq<u8>) -> Seq<u8>;

/// `Sha256::digest` of the `sha2` crate, which gives 32 bytes.
#[verifier::external_body]
pub(crate) fn digest(bytes: &Vec<u8>) -> (out: Vec<u8>)
    ensures
        out@ == sha256(bytes@),
        out@.len() == 32,
{
    <sha2::Sha256 as sha2::Digest>::digest(bytes).to_vec()
}

/// Bytes in hexadecimal, in lower case.
pub open spec fn hex(v: Seq<u8>) -> Seq<char>
    decreases v.len(),
{
    if v.len() == 0 {
        Seq::empty()
    } else {
        hex(v.drop_last()) + seq![
            text::hex_char(v.last() as nat / 16),
            text::hex_char(v.last() as nat % 16),
        ]
    }
}

fn hex_digit(n: u8) -> (c: char)
    requires
        n < 16,
    ensures
        c == text::hex_char(n as nat),
{
    let b: u8 = if n < 10 {
        48 + n
    } else {
        87 + n
    };
    b as char
}

/// Bytes in hexadecimal, in lower case.
pub fn hex_text(v: &Vec<u8>) -> (out: String)
    ensures
        out@ == hex(v@),
{
    let mut out = String::new();
    let mut i: usize = 0;
    assert(out@ =~= Seq::<char>::empty());
    while i < v.len()
        invariant
            i <= v.len(),
            out@ == hex(v@.take(i as int)),
        decreases v.len() - i,
    {
        let ghost before = out@;
        assert(v@.take(i + 1).drop_last() =~= v@.take(i as int));
        let b: u8 = v[i];
        out.push(hex_digit(b / 16));
        out.push(hex_digit(b % 16));
        assert(out@ =~= before + seq![
            text::hex_char(b as nat / 16),
            text::hex_char(b as nat % 16),
        ]);
        i += 1;
    }
    assert(v@.take(i as int) =~= v@);
    out
}

/// The digest of a text, in hexadecimal.
pub open spec fn text_digest(s: Seq<char>) -> Seq<char> {
    hex(sha256(encode_utf8(s)))
}

/// The digest of a text, in hexadecimal.
pub fn digest_text(s: &str) -> (out: String)
    ensures
        out@ == text_digest(s@),
        out@.len() == 64,
{
    let d = digest(&text::bytes(s));
    proof {
        lemma_hex_len(d@);
    }
    hex_text(&d)
}

pub proof fn lemma_hex_len(v: Seq<u8>)
    ensures
        hex(v).len() == 2 * v.len(),
        forall|i: int| 0 <= i < hex(v).len() ==> text::spec_hex_digit(#[trigger] hex(v)[i]),
    decreases v.len(),
{
    if v.len() > 0 {
        lemma_hex_len(v.drop_last());
        let h = hex(v.drop_last());
        assert forall|i: int| 0 <= i < hex(v).len() implies text::spec_hex_digit(
            #[trigger] hex(v)[i],
        ) by {
            if i < h.len() {
                assert(hex(v)[i] == h[i]);
            }
        }
    }
}

/// Different bytes look different in hexadecimal.
pub proof fn law_hex_keeps_bytes_apart(a: Seq<u8>, b: Seq<u8>)
    requires
        hex(a) == hex(b),
    ensures
        a == b,
    decreases a.len(),
{
    lemma_hex_len(a);
    lemma_hex_len(b);
    if a.len() > 0 {
        let x = hex(a.drop_last());
        let y = hex(b.drop_last());
        lemma_hex_len(a.drop_last());
        lemma_hex_len(b.drop_last());
        let n = x.len();
        assert(x =~= hex(a).take(n as int));
        assert(y =~= hex(b).take(n as int));
        law_hex_keeps_bytes_apart(a.drop_last(), b.drop_last());
        let p = a.last();
        let q = b.last();
        assert(hex(a)[n as int] == text::hex_char(p as nat / 16));
        assert(hex(b)[n as int] == text::hex_char(q as nat / 16));
        assert(hex(a)[(n + 1) as int] == text::hex_char(p as nat % 16));
        assert(hex(b)[(n + 1) as int] == text::hex_char(q as nat % 16));
        assert(p as nat / 16 == q as nat / 16);
        assert(p as nat % 16 == q as nat % 16);
        assert(p == q);
        assert(a =~= a.drop_last().push(p));
        assert(b =~= b.drop_last().push(q));
    } else {
        assert(a =~= b);
    }
}

} // verus!

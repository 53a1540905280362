//! Digests of bytes, in words.

use vstd::prelude::*;

use crate::text;

verus! {

/// The SHA-256 digest of bytes.
pub uninterp spec fn sha256_of(data: Seq<u8>) -> Seq<u8>;

/// The SHA-256 digest of bytes.
///
/// Trusted: `ring::digest::digest` with `SHA256` depends on the bytes alone and gives
/// 32 bytes. It panics where the number of bits does not fit 64 bits. Which bytes it
/// gives is not stated.
#[verifier::external_body]
fn sha256(data: &[u8]) -> (digest: Vec<u8>)
    requires
        data@.len() < 0x2000_0000_0000_0000,
    ensures
        digest@ == sha256_of(data@),
        digest@.len() == 32,
{
    ring::digest::digest(&ring::digest::SHA256, data).as_ref().to_vec()
}

/// Bytes in hexadecimal, two digits each.
pub open spec fn hex(bytes: Seq<u8>) -> Seq<char>
    decreases bytes.len(),
{
    if bytes.len() == 0 {
        seq![]
    } else {
        hex(bytes.drop_last()) + seq![
            text::hex_digit(bytes.last() as nat / 16),
            text::hex_digit(bytes.last() as nat % 16),
        ]
    }
}

/// A digest in words: the algorithm and the digest in hexadecimal.
pub open spec fn digest_line(digest: Seq<u8>) -> Seq<char> {
    "SHA256:"@ + hex(digest)
}

fn push_hex_digit(out: &mut String, n: u8)
    requires
        n < 16,
    ensures
        final(out)@ == old(out)@.push(text::hex_digit(n as nat)),
{
    let c: u8 = if n < 10 {
        48 + n
    } else {
        87 + n
    };
    out.push(c as char);
}

/// A digest in words.
pub fn digest_to_text(digest: &Vec<u8>) -> (out: String)
    ensures
        out@ == digest_line(digest@),
{
    let mut out: String = "SHA256:".to_owned();
    let mut i: usize = 0;
    assert(digest@.take(0) =~= Seq::<u8>::empty());
    assert(out@ =~= "SHA256:"@ + hex(digest@.take(0)));
    while i < digest.len()
        invariant
            i <= digest.len(),
            out@ == "SHA256:"@ + hex(digest@.take(i as int)),
        decreases digest.len() - i,
    {
        let b: u8 = digest[i];
        push_hex_digit(&mut out, b / 16);
        push_hex_digit(&mut out, b % 16);
        assert(digest@.take(i + 1).drop_last() =~= digest@.take(i as int));
        i = i + 1;
        assert(out@ =~= "SHA256:"@ + hex(digest@.take(i as int)));
    }
    assert(digest@.take(i as int) =~= digest@);
    out
}

/// The SHA-256 digest of bytes, in words.
pub fn sha256_text(data: &[u8]) -> (out: String)
    requires
        data@.len() < 0x2000_0000_0000_0000,
    ensures
        out@ == digest_line(sha256_of(data@)),
        out@.len() == 71,
{
    let digest: Vec<u8> = sha256(data);
    proof {
        lemma_hex_len(digest@);
        reveal_strlit("SHA256:");
    }
    digest_to_text(&digest)
}

proof fn lemma_hex_len(bytes: Seq<u8>)
    ensures
        hex(bytes).len() == 2 * bytes.len(),
    decreases bytes.len(),
{
    if bytes.len() > 0 {
        lemma_hex_len(bytes.drop_last());
    }
}

/// The digest in words determines the digest.
pub proof fn law_hex_determines_bytes(a: Seq<u8>, b: Seq<u8>)
    requires
        hex(a) == hex(b),
    ensures
        a == b,
    decreases a.len(),
{
    lemma_hex_len(a);
    lemma_hex_len(b);
    if a.len() > 0 {
        let x = hex(a.drop_last());
        let y = hex(b.drop_last());
        lemma_hex_len(a.drop_last());
        lemma_hex_len(b.drop_last());
        assert(x =~= hex(a).take(x.len() as int));
        assert(y =~= hex(b).take(y.len() as int));
        law_hex_determines_bytes(a.drop_last(), b.drop_last());
        let n = hex(a).len();
        assert(hex(a)[n - 2] == text::hex_digit(a.last() as nat / 16));
        assert(hex(b)[n - 2] == text::hex_digit(b.last() as nat / 16));
        assert(hex(a)[n - 1] == text::hex_digit(a.last() as nat % 16));
        assert(hex(b)[n - 1] == text::hex_digit(b.last() as nat % 16));
        assert(a.last() == b.last());
        assert(a =~= a.drop_last().push(a.last()));
        assert(b =~= b.drop_last().push(b.last()));
    } else {
        assert(a =~= b);
    }
}

} // verus!

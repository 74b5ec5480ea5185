//! SHA-256 over canonical text, rendered as lowercase hexadecimal.
use vstd::prelude::*;

use crate::canonical::{nibble, nibble_char};
use sha2::Digest;

verus! {

/// The SHA-256 digest of the UTF-8 encoding of `text`.
pub uninterp spec fn sha256_of(text: Seq<char>) -> Seq<u8>;

/// Relies on `sha2::Sha256::digest`: the 32-byte digest of the text's UTF-8 bytes.
#[verifier::external_body]
fn sha256_digest(text: &Vec<char>) -> (r: Vec<u8>)
    ensures
        r@ == sha256_of(text@),
        r@.len() == 32,
{
    let s: String = text.iter().collect();
    sha2::Sha256::digest(s.as_bytes()).to_vec()
}

/// Relies on `String`'s `FromIterator<char>`: the same characters, in order.
#[verifier::external_body]
pub(crate) fn string_from_chars(chars: &Vec<char>) -> (r: String)
    ensures
        r@ == chars@,
{
    chars.iter().collect()
}

/// Two lowercase hexadecimal digits per byte, high nibble first.
pub open spec fn hex(bytes: Seq<u8>) -> Seq<char>
    decreases bytes.len(),
{
    if bytes.len() == 0 {
        seq![]
    } else {
        hex(bytes.drop_last()) + seq![
            nibble_char(bytes.last() as int / 16),
            nibble_char(bytes.last() as int % 16),
        ]
    }
}

pub proof fn lemma_hex_len(bytes: Seq<u8>)
    ensures
        hex(bytes).len() == 2 * bytes.len(),
    decreases bytes.len(),
{
    if bytes.len() > 0 {
        lemma_hex_len(bytes.drop_last());
    }
}

fn hex_chars(bytes: &Vec<u8>) -> (r: Vec<char>)
    ensures
        r@ == hex(bytes@),
{
    let mut out: Vec<char> = Vec::new();
    let mut k: usize = 0;
    while k < bytes.len()
        invariant
            k <= bytes.len(),
            out@ == hex(bytes@.subrange(0, k as int)),
        decreases bytes.len() - k,
    {
        let b = bytes[k];
        out.push(nibble(b / 16));
        out.push(nibble(b % 16));
        assert(bytes@.subrange(0, k as int + 1).drop_last() =~= bytes@.subrange(0, k as int));
        assert(out@ =~= hex(bytes@.subrange(0, k as int + 1)));
        k = k + 1;
    }
    assert(bytes@.subrange(0, bytes.len() as int) =~= bytes@);
    out
}

/// The digest of `text` in hexadecimal: what seals and identities are made of.
pub open spec fn digest_hex(text: Seq<char>) -> Seq<char> {
    hex(sha256_of(text))
}

/// Hashes canonical text; the result always has 64 characters.
pub fn sha256_hex(text: &Vec<char>) -> (r: String)
    ensures
        r@ == digest_hex(text@),
        r@.len() == 64,
{
    let bytes = sha256_digest(text);
    let chars = hex_chars(&bytes);
    proof {
        lemma_hex_len(bytes@);
    }
    string_from_chars(&chars)
}

} // verus!

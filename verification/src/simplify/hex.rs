//! Hexadecimal digests.

use vstd::prelude::*;

use crate::outside::{sha1_bytes, sha1_digest};
use crate::strings::{hex_byte, push_hex};

verus! {

/// Two lower-case hexadecimal digits for each byte.
pub open spec fn hex_digits(b: Seq<u8>) -> Seq<char>
    decreases b.len(),
{
    if b.len() == 0 {
        Seq::empty()
    } else {
        hex_digits(b.drop_last()) + hex_byte(b.last(), false)
    }
}

proof fn lemma_hex_len(b: Seq<u8>)
    ensures
        hex_digits(b).len() == 2 * b.len(),
    decreases b.len(),
{
    if b.len() > 0 {
        lemma_hex_len(b.drop_last());
    }
}

/// Writes two lower-case hexadecimal digits for each byte.
pub fn encode(bytes: &Vec<u8>) -> (r: String)
    ensures
        r@ == hex_digits(bytes@),
        r@.len() == 2 * bytes@.len(),
{
    let mut out = String::new();
    let mut i: usize = 0;
    proof {
        lemma_hex_len(bytes@);
        assert(out@ =~= hex_digits(bytes@.subrange(0, 0)));
    }
    while i < bytes.len()
        invariant
            i <= bytes.len(),
            out@ == hex_digits(bytes@.subrange(0, i as int)),
        decreases bytes.len() - i,
    {
        proof {
            let s = bytes@.subrange(0, i + 1);
            assert(s.drop_last() =~= bytes@.subrange(0, i as int));
        }
        push_hex(&mut out, bytes[i], false);
        i += 1;
    }
    assert(bytes@.subrange(0, bytes.len() as int) =~= bytes@);
    out
}

/// The SHA-1 digest of a text in hexadecimal.
pub open spec fn digest(s: Seq<char>) -> Seq<char> {
    hex_digits(sha1_digest(s)@)
}

/// A digest has 40 digits.
pub proof fn digest_has_forty_digits(s: Seq<char>)
    ensures
        digest(s).len() == 40,
{
    lemma_hex_len(sha1_digest(s)@);
}

/// The SHA-1 digest of a text in hexadecimal, 40 digits.
pub fn sha1_hex(s: &str) -> (r: String)
    ensures
        r@ == digest(s@),
        r@.len() == 40,
{
    encode(&sha1_bytes(s))
}

} // verus!

//! Keccak-256 digests rendered as lower-case hexadecimal text.

use sha3::Digest;
use vstd::prelude::*;

verus! {

/// The Keccak-256 digest of a byte string.
pub uninterp spec fn keccak256_of(preimage: Seq<u8>) -> Seq<u8>;

/// Relies on sha3::Keccak256::digest: the 32-byte Keccak-256 digest of the
/// input, which depends on the input bytes alone.
#[verifier::external_body]
fn keccak256_digest(preimage: &[u8]) -> (r: Vec<u8>)
    ensures
        r@ == keccak256_of(preimage@),
        r@.len() == 32,
{
    sha3::Keccak256::digest(preimage).to_vec()
}

/// The lower-case hexadecimal digit of a value below 16.
pub open spec fn hex_digit(n: u8) -> char {
    if n < 10 {
        ((n + 48) as u8) as char
    } else {
        ((n + 87) as u8) as char
    }
}

/// Two lower-case hexadecimal digits for each byte, high nibble first.
pub open spec fn hex_of(bytes: Seq<u8>) -> Seq<char>
    decreases bytes.len(),
{
    if bytes.len() == 0 {
        Seq::empty()
    } else {
        hex_of(bytes.drop_last()) + seq![hex_digit(bytes.last() / 16), hex_digit(bytes.last() % 16)]
    }
}

/// The digest of `preimage` as 64 lower-case hexadecimal digits.
pub open spec fn keccak256_hex(preimage: Seq<u8>) -> Seq<char> {
    hex_of(keccak256_of(preimage))
}

fn hex_char(n: u8) -> (c: char)
    requires
        n < 16,
    ensures
        c == hex_digit(n),
{
    if n < 10 {
        ((n + 48) as u8) as char
    } else {
        ((n + 87) as u8) as char
    }
}

pub proof fn lemma_hex_len(bytes: Seq<u8>)
    ensures
        hex_of(bytes).len() == 2 * bytes.len(),
    decreases bytes.len(),
{
    if bytes.len() > 0 {
        lemma_hex_len(bytes.drop_last());
    }
}

/// Renders `bytes` as lower-case hexadecimal text.
pub fn to_hex(bytes: &[u8]) -> (r: String)
    ensures
        r@ == hex_of(bytes@),
{
    let mut out = String::new();
    let mut i: usize = 0;
    while i < bytes.len()
        invariant
            i <= bytes@.len(),
            out@ == hex_of(bytes@.take(i as int)),
        decreases bytes@.len() - i,
    {
        let b = bytes[i];
        let hi = hex_char(b / 16);
        let lo = hex_char(b % 16);
        let mut pair = String::new();
        push_char(&mut pair, hi);
        push_char(&mut pair, lo);
        out.append(pair.as_str());
        proof {
            assert(bytes@.take(i + 1).drop_last() =~= bytes@.take(i as int));
            assert(pair@ =~= seq![hex_digit(b / 16), hex_digit(b % 16)]);
        }
        i = i + 1;
    }
    proof {
        assert(bytes@.take(bytes@.len() as int) =~= bytes@);
    }
    out
}

/// Relies on String::push: the character is appended at the end.
#[verifier::external_body]
fn push_char(s: &mut String, c: char)
    ensures
        final(s)@ == old(s)@.push(c),
{
    s.push(c)
}

/// The Keccak-256 digest of `preimage`, as 64 lower-case hexadecimal digits.
pub fn keccak256(preimage: &[u8]) -> (r: String)
    ensures
        r@ == keccak256_hex(preimage@),
        r@.len() == 64,
{
    let digest = keccak256_digest(preimage);
    proof {
        lemma_hex_len(digest@);
    }
    to_hex(digest.as_slice())
}

} // verus!

//! Proof keys for the exchange of authorization codes.

use base64::Engine;
use vstd::prelude::*;

use crate::digest;
use crate::digest::sha256;
use crate::random;
use crate::random::new_id_bytes;

verus! {

/// A power of two.
pub open spec fn two_to(n: int) -> int
    decreases n,
{
    if n <= 0 {
        1
    } else {
        2 * two_to(n - 1)
    }
}

/// The bit at place `k` of `data`, the high bit of the first byte first; zero
/// behind the end.
pub open spec fn bit_at(data: Seq<u8>, k: int) -> int {
    if k / 8 < data.len() {
        (data[k / 8] as int / two_to(7 - k % 8)) % 2
    } else {
        0
    }
}

/// The number that the `i`-th six bits of `data` make.
pub open spec fn six_bits(data: Seq<u8>, i: int) -> int {
    32 * bit_at(data, 6 * i) + 16 * bit_at(data, 6 * i + 1) + 8 * bit_at(data, 6 * i + 2) + 4
        * bit_at(data, 6 * i + 3) + 2 * bit_at(data, 6 * i + 4) + bit_at(data, 6 * i + 5)
}

/// The character for a number below sixty-four.
pub open spec fn code_char(n: int) -> char {
    if n < 26 {
        (('A' as int + n) as u32) as char
    } else if n < 52 {
        (('a' as int + n - 26) as u32) as char
    } else if n < 62 {
        (('0' as int + n - 52) as u32) as char
    } else if n == 62 {
        '-'
    } else {
        '_'
    }
}

/// `data` in the URL-safe Base64 form without padding: a character for each six
/// bits.
pub open spec fn base64url(data: Seq<u8>) -> Seq<char> {
    Seq::new(((8 * data.len() + 5) / 6) as nat, |i: int| code_char(six_bits(data, i)))
}

/// `encode` of `base64`'s engine `URL_SAFE_NO_PAD`: a character for each six bits,
/// the missing bits of the last character being zero.
#[verifier::external_body]
fn encode(data: &[u8]) -> (r: String)
    requires
        data@.len() <= usize::MAX / 4,
    ensures
        r@ == base64url(data@),
{
    base64::engine::general_purpose::URL_SAFE_NO_PAD.encode(data)
}

/// A character that needs no escape in a web address.
pub open spec fn unreserved(c: char) -> bool {
    'A' <= c <= 'Z' || 'a' <= c <= 'z' || '0' <= c <= '9' || c == '-' || c == '_'
}

/// A Base64 text is made of characters that need no escape.
pub proof fn law_base64_unreserved(data: Seq<u8>, i: int)
    requires
        0 <= i < base64url(data).len(),
    ensures
        unreserved(base64url(data)[i]),
{
    let n = six_bits(data, i);
    assert(0 <= n < 64);
}

/// The verifier that two random identifiers make.
pub fn verifier_of(u: &Vec<u8>, v: &Vec<u8>) -> (r: String)
    requires
        u@.len() == 16,
        v@.len() == 16,
    ensures
        r@ == base64url(u@ + v@),
        r@.len() == 43,
        forall|i: int| 0 <= i < r@.len() ==> unreserved(#[trigger] r@[i]),
{
    let mut buf: Vec<u8> = Vec::new();
    let mut i: usize = 0;
    while i < u.len()
        invariant
            i <= u@.len(),
            buf@ == u@.take(i as int),
        decreases u.len() - i,
    {
        buf.push(u[i]);
        assert(buf@ == u@.take(i + 1));
        i = i + 1;
    }
    assert(u@.take(i as int) == u@);
    let mut j: usize = 0;
    assert(u@ + v@.take(0) == u@);
    while j < v.len()
        invariant
            j <= v@.len(),
            buf@ == u@ + v@.take(j as int),
        decreases v.len() - j,
    {
        buf.push(v[j]);
        assert(buf@ == u@ + v@.take(j + 1));
        j = j + 1;
    }
    assert(v@.take(j as int) == v@);
    let r = encode(buf.as_slice());
    proof {
        assert forall|i: int| 0 <= i < r@.len() implies unreserved(#[trigger] r@[i]) by {
            law_base64_unreserved(buf@, i);
        }
    }
    r
}

/// A new verifier: 43 characters that need no escape, from two random
/// identifiers.
pub fn generate_verifier() -> (r: String)
    ensures
        exists|u: Seq<u8>, v: Seq<u8>|
            random::is_random_id(u) && random::is_random_id(v) && r@ == #[trigger] base64url(u + v),
        r@.len() == 43,
        forall|i: int| 0 <= i < r@.len() ==> unreserved(#[trigger] r@[i]),
{
    let u = new_id_bytes();
    let v = new_id_bytes();
    let r = verifier_of(&u, &v);
    assert(r@ == base64url(u@ + v@));
    r
}

/// The challenge of a verifier: the Base64 text of its SHA-256 digest.
pub open spec fn challenge(verifier: Seq<char>) -> Seq<char> {
    base64url(digest::sha256_digest(vstd::utf8::encode_utf8(verifier)))
}

/// The challenge of a verifier.
pub fn challenge_s256(verifier: &str) -> (r: String)
    ensures
        r@ == challenge(verifier@),
        r@.len() == 43,
        forall|i: int| 0 <= i < r@.len() ==> unreserved(#[trigger] r@[i]),
{
    let d = sha256(verifier.as_bytes());
    let r = encode(d.as_slice());
    proof {
        assert forall|i: int| 0 <= i < r@.len() implies unreserved(#[trigger] r@[i]) by {
            law_base64_unreserved(d@, i);
        }
    }
    r
}

} // verus!

//! Random identifiers.

use vstd::prelude::*;

use crate::digest;

verus! {

/// An identifier of random bytes: sixteen bytes, six bits of which say that the
/// others are random.
pub open spec fn is_random_id(b: Seq<u8>) -> bool {
    &&& b.len() == 16
    &&& b[6] as int / 16 == 4
    &&& 128 <= b[8] < 192
}

/// The text of an identifier: its bytes in hexadecimal, in five groups with
/// hyphens between them.
pub open spec fn id_text(b: Seq<u8>) -> Seq<char> {
    let h = digest::hex_text(b);
    h.subrange(0, 8) + seq!['-'] + h.subrange(8, 12) + seq!['-'] + h.subrange(12, 16) + seq!['-']
        + h.subrange(16, 20) + seq!['-'] + h.subrange(20, 32)
}

/// `uuid::Uuid::new_v4`, as bytes and as a text: sixteen bytes of which the
/// version and the variant are fixed, and their hexadecimal digits in five
/// groups. The other bits are random, so no more holds of every call.
#[verifier::external_body]
fn new_v4() -> (r: (Vec<u8>, String))
    ensures
        is_random_id(r.0@),
        r.1@ == id_text(r.0@),
{
    let u = uuid::Uuid::new_v4();
    (u.as_bytes().to_vec(), u.to_string())
}

/// The form of an identifier: 36 characters, hyphens at four places and
/// lower-case hexadecimal digits at the others, with the version and the variant
/// in their places.
pub open spec fn is_uuid_text(s: Seq<char>) -> bool {
    &&& s.len() == 36
    &&& forall|i: int|
        0 <= i < 36 ==> if i == 8 || i == 13 || i == 18 || i == 23 {
            #[trigger] s[i] == '-'
        } else {
            digest::is_hex_digit(s[i])
        }
    &&& s[14] == '4'
    &&& s[19] == '8' || s[19] == '9' || s[19] == 'a' || s[19] == 'b'
}

/// The text of an identifier has that form.
proof fn lemma_id_text(b: Seq<u8>)
    requires
        is_random_id(b),
    ensures
        is_uuid_text(id_text(b)),
{
    let h = digest::hex_text(b);
    let s = id_text(b);
    assert forall|i: int| 0 <= i < 32 implies digest::is_hex_digit(#[trigger] h[i]) by {
        assert(0 <= b[i / 2] as int / 16 < 16);
        assert(0 <= b[i / 2] as int % 16 < 16);
    }
    assert(s[14] == h[12]);
    assert(s[19] == h[16]);
    assert(h[12] == digest::hex_digit(b[6] as int / 16));
    assert(h[16] == digest::hex_digit(b[8] as int / 16));
    assert(8 <= b[8] as int / 16 < 12);
}

/// A new identifier.
pub fn new_id() -> (r: String)
    ensures
        is_uuid_text(r@),
{
    let (b, t) = new_v4();
    proof {
        lemma_id_text(b@);
    }
    t
}

/// The bytes of a new identifier.
pub fn new_id_bytes() -> (r: Vec<u8>)
    ensures
        is_random_id(r@),
{
    new_v4().0
}

} // verus!

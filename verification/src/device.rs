//! The identifier of the device that tokens are bound to.

use vstd::prelude::*;

use crate::digest;
use crate::digest::text_digest_of;
use crate::random;
use crate::text;
use crate::text::{trim_of, CharSet};

verus! {

/// How many bytes a stored salt has at least.
pub const SALT_MIN_BYTES: usize = 16;

/// The salt in a stored text: the text without white space around it, if it is
/// long enough.
pub open spec fn salt_in(stored: Seq<char>) -> Option<Seq<char>> {
    let t = text::trim(stored, CharSet::White);
    if vstd::utf8::encode_utf8(t).len() >= SALT_MIN_BYTES {
        Some(t)
    } else {
        None
    }
}

/// The salt in a stored text, if it is long enough.
pub fn stored_salt(stored: &str) -> (r: Option<String>)
    ensures
        text::opt_view(r) == salt_in(stored@),
{
    let t = trim_of(stored, CharSet::White);
    let bytes = t.as_str().as_bytes();
    if bytes.len() >= SALT_MIN_BYTES {
        Some(t)
    } else {
        None
    }
}

/// A text has as many bytes as characters, or more.
proof fn lemma_bytes(s: Seq<char>)
    ensures
        vstd::utf8::encode_utf8(s).len() >= s.len(),
    decreases s.len(),
{
    if s.len() > 0 {
        lemma_bytes(s.drop_first());
    }
}

/// A new identifier that is stored as the salt is read back as it is, so that the
/// device keeps its identifier.
pub proof fn law_new_salt_is_kept(id: Seq<char>)
    requires
        random::is_uuid_text(id),
    ensures
        salt_in(id) == Some(id),
{
    assert(digest::is_hex_digit(id[0]));
    assert(digest::is_hex_digit(id[35]));
    lemma_bytes(id);
}

/// The name of a host, or what stands for an unknown one.
pub open spec fn host_or_unknown(host: Option<Seq<char>>) -> Seq<char> {
    match host {
        Some(h) => h,
        None => "unknown"@,
    }
}

/// The device identifier: a digest of the salt, the host and the system.
pub open spec fn device_digest(salt: Seq<char>, host: Option<Seq<char>>, os: Seq<char>) -> Seq<
    char,
> {
    digest::text_digest(salt + "|"@ + host_or_unknown(host) + "|"@ + os)
}

/// The device identifier for this salt, host and system: 64 hexadecimal digits.
pub fn device_id_of(salt: &str, host: Option<&str>, os: &str) -> (r: String)
    ensures
        r@ == device_digest(
            salt@,
            match host {
                Some(h) => Some(h@),
                None => None,
            },
            os@,
        ),
        r@.len() == 64,
        forall|i: int| 0 <= i < r@.len() ==> digest::is_hex_digit(#[trigger] r@[i]),
{
    let mut t = salt.to_owned();
    t.append("|");
    match host {
        Some(h) => t.append(h),
        None => t.append("unknown"),
    }
    t.append("|");
    t.append(os);
    text_digest_of(t.as_str())
}

} // verus!

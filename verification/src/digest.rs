//! Content digests: the MD5 hex string used to deduplicate config contents
//! and to derive deterministic service-instance ids.

use vstd::prelude::*;
use vstd::string::StringSliceAdditionalSpecFns;

verus! {

/// The lowercase hex rendering of the MD5 digest of a byte string.
/// MD5 is a pure function of its input; its value is only named here and is
/// computed by the `md5` crate.
pub uninterp spec fn md5_hex_of(bytes: Seq<u8>) -> Seq<char>;

/// Relies on md5::compute: the digest is 16 bytes, a pure function of the
/// input, rendered as 32 lowercase hex digits.
#[verifier::external_body]
pub fn md5_hex(s: &str) -> (r: String)
    ensures
        r@ == md5_hex_of(s.spec_bytes()),
        r@.len() == 32,
{
    let digest = md5::compute(s.as_bytes());
    format!("{:x}", digest)
}

} // verus!

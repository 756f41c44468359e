//! Trusted bindings to the outside computations the store rests on: the SHA-1
//! digest that derives a key from a value's bytes, and the UTF-8 check that
//! guards the text-oriented backing store.

use vstd::prelude::*;
use sha1::Digest;

verus! {

/// The lowercase hexadecimal SHA-1 digest of a byte sequence: forty hex
/// characters naming the twenty digest bytes, two per byte. The digest is
/// left uninterpreted; it depends on the input bytes alone.
pub uninterp spec fn sha1_hex_of(v: Seq<u8>) -> Seq<char>;

/// Relies on sha1::Sha1::digest: the SHA-1 digest is a pure function of the
/// input bytes, twenty bytes long, rendered by the `{:x}` format as two
/// lowercase hex digits per byte, forty characters in all.
#[verifier::external_body]
pub(crate) fn sha1_hex(value: &Vec<u8>) -> (r: String)
    ensures
        r@ == sha1_hex_of(value@),
        r@.len() == 40,
{
    format!("{:x}", sha1::Sha1::digest(value.as_slice()))
}

/// Relies on core::str::from_utf8: it returns `Ok` exactly on the byte
/// sequences that are valid UTF-8, as `vstd::utf8::valid_utf8` states them.
#[verifier::external_body]
pub(crate) fn is_valid_utf8(value: &Vec<u8>) -> (r: bool)
    ensures
        r == vstd::utf8::valid_utf8(value@),
{
    core::str::from_utf8(value.as_slice()).is_ok()
}

} // verus!

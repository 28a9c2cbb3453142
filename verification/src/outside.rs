//! Everything this crate takes on trust from other crates.
//!
//! Each item below names the function or type it stands for and says what is believed of it.

use vstd::prelude::*;

use crate::ids::short_hex;

verus! {

/// [`iroh::KeyParsingError`], carried from the call that returns it to the place where it is
/// turned into an error of this crate. Nothing is known of what it holds.
#[verifier::external_type_specification]
#[verifier::external_body]
pub struct ExKeyParsingError(iroh::KeyParsingError);

/// [`n0_future::time::SystemTime`], carried from the clock into events. Nothing is known of it.
#[verifier::external_type_specification]
#[verifier::external_body]
pub struct ExSystemTime(n0_future::time::SystemTime);

/// [`iroh::TransportAddr`], carried from the caller to the address book. Nothing is known of it.
#[verifier::external_type_specification]
#[verifier::external_body]
pub struct ExTransportAddr(iroh::TransportAddr);

/// [`async_channel::Sender`], carried from the subscriber to the place where events are sent.
/// Nothing is known of it.
#[verifier::external_type_specification]
#[verifier::external_body]
#[verifier::reject_recursive_types(T)]
pub struct ExSender<T>(async_channel::Sender<T>);

/// [`n0_future::time::SystemTime::now`]. Nothing is promised of the time it returns.
#[verifier::external_body]
pub(crate) fn now() -> (r: n0_future::time::SystemTime) {
    n0_future::time::SystemTime::now()
}

/// Whether [`iroh::PublicKey::from_bytes`] accepts these bytes, that is, whether they decompress
/// to a point of the ed25519 curve.
pub uninterp spec fn is_public_key(bytes: Seq<u8>) -> bool;

/// [`iroh::PublicKey::from_bytes`], followed by `as_bytes` on the key.
///
/// Believed: the call succeeds exactly on the byte strings named by [`is_public_key`], and the key
/// it returns is made of the very bytes it was given.
#[verifier::external_body]
pub(crate) fn parse_public_key(bytes: &[u8; 32]) -> (r: Result<[u8; 32], iroh::KeyParsingError>)
    ensures
        r is Ok <==> is_public_key(bytes@),
        r matches Ok(key) ==> key == *bytes,
{
    match iroh::PublicKey::from_bytes(bytes) {
        Ok(key) => Ok(*key.as_bytes()),
        Err(err) => Err(err),
    }
}

/// [`iroh::PublicKey::fmt_short`], written to a string.
///
/// Believed: the text is the first five bytes of the key in lower case hexadecimal.
#[verifier::external_body]
pub(crate) fn public_key_fmt_short(bytes: &[u8; 32]) -> (r: String)
    requires
        is_public_key(bytes@),
    ensures
        r@ == short_hex(bytes@),
{
    iroh::PublicKey::from_bytes(bytes).unwrap().fmt_short().to_string()
}

} // verus!

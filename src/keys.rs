use vstd::prelude::*;

verus! {

/// Whether `sig` is a valid Ed25519 signature of `msg` under the public key `key`.
pub uninterp spec fn ed25519_accepts(key: Seq<u8>, msg: Seq<u8>, sig: Seq<u8>) -> bool;

/// Relies on ring::signature::UnparsedPublicKey::verify with ring::signature::ED25519:
/// it accepts exactly the valid signatures, and it rejects every key that is not
/// 32 bytes long and every signature that is not 64 bytes long.
#[verifier::external_body]
fn ed25519_verify(public_key: &[u8], message: &[u8], signature: &[u8]) -> (r: bool)
    ensures
        r == ed25519_accepts(public_key@, message@, signature@),
        r ==> public_key@.len() == 32 && signature@.len() == 64,
{
    ring::signature::UnparsedPublicKey::new(&ring::signature::ED25519, public_key).verify(
        message,
        signature,
    ).is_ok()
}

/// A detached signature did not verify. Why it failed (a bad key, a signature of
/// the wrong length, a forgery) is deliberately not told apart.
#[derive(Debug, Clone, Copy, PartialEq, Eq, Structural)]
pub struct SignatureMismatch;

/// Checks a detached signature over an exact byte string.
pub fn verify(message: &[u8], signature: &[u8], public_key: &[u8]) -> (r: Result<
    (),
    SignatureMismatch,
>)
    ensures
        r is Ok <==> ed25519_accepts(public_key@, message@, signature@),
        r is Ok ==> public_key@.len() == 32 && signature@.len() == 64,
{
    if ed25519_verify(public_key, message, signature) {
        Ok(())
    } else {
        Err(SignatureMismatch)
    }
}

} // verus!

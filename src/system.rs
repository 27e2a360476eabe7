use vstd::prelude::*;

verus! {

#[verifier::external_type_specification]
#[verifier::external_body]
pub struct ExSystemRandom(ring::rand::SystemRandom);

/// Relies on ring::rand::SecureRandom::fill for SystemRandom: it writes random
/// bytes over the buffer, whose length it leaves as it was. A failure of the
/// operating system's source is reported as false.
#[verifier::external_body]
pub(crate) fn fill_random(rng: &ring::rand::SystemRandom, buf: &mut Vec<u8>) -> (r: bool)
    ensures
        final(buf)@.len() == old(buf)@.len(),
{
    ring::rand::SecureRandom::fill(rng, buf.as_mut_slice()).is_ok()
}

/// Relies on std::time::SystemTime::now and duration_since(UNIX_EPOCH): the
/// current time in whole seconds since the Unix epoch, or none when the clock
/// reads earlier than the epoch. Nothing is promised of its value.
#[verifier::external_body]
fn seconds_since_epoch() -> (r: Option<u64>) {
    std::time::SystemTime::now().duration_since(std::time::UNIX_EPOCH).ok().map(|d| d.as_secs())
}

/// The identifier that a version 4 UUID built from 16 random bytes has.
pub uninterp spec fn uuid_from_random(bytes: Seq<u8>) -> u128;

/// Relies on uuid::Builder::from_random_bytes, Builder::into_uuid and
/// Uuid::as_u128: the identifier depends on the bytes alone.
#[verifier::external_body]
fn uuid_from_bytes(bytes: &Vec<u8>) -> (r: u128)
    requires
        bytes@.len() == 16,
    ensures
        r == uuid_from_random(bytes@),
{
    let mut raw = [0u8; 16];
    raw.copy_from_slice(bytes.as_slice());
    uuid::Builder::from_random_bytes(raw).into_uuid().as_u128()
}

/// The current time in seconds since the Unix epoch; none when the clock reads
/// earlier than the epoch or later than an `i64` can hold.
pub(crate) fn now_seconds() -> (r: Option<i64>) {
    match seconds_since_epoch() {
        Some(s) => {
            if s <= i64::MAX as u64 {
                Some(s as i64)
            } else {
                None
            }
        },
        None => None,
    }
}

/// A fresh random identifier (a version 4 UUID), or none when the randomness
/// source failed.
pub(crate) fn random_uuid(rng: &ring::rand::SystemRandom) -> (r: Option<u128>) {
    let mut bytes: Vec<u8> = vec![0u8; 16];
    if !fill_random(rng, &mut bytes) {
        return None;
    }
    Some(uuid_from_bytes(&bytes))
}

} // verus!

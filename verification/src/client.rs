//! Client-side connection setup: the random source connection id.
use vstd::prelude::*;

use ring::rand::{SecureRandom, SystemRandom};

verus! {

/// The length of a locally chosen source connection id.
pub const SCID_LEN: usize = 20;

#[verifier::external_type_specification]
#[verifier::external_body]
pub struct ExSystemRandom(ring::rand::SystemRandom);

#[verifier::external_type_specification]
#[verifier::external_body]
pub struct ExUnspecified(ring::error::Unspecified);

/// The operating system's random number generator could not fill the id.
#[derive(Debug, Clone, Copy, PartialEq, Eq)]
pub struct RandomError;

/// `SystemRandom::new`: a handle on the operating system's random source.
#[verifier::external_body]
fn system_random() -> SystemRandom {
    SystemRandom::new()
}

/// `<SystemRandom as SecureRandom>::fill` on the whole of `dest`; what it
/// writes is random and nothing is said of it.
#[verifier::external_body]
fn fill_random(rng: &SystemRandom, dest: &mut [u8; SCID_LEN]) -> Result<(), ring::error::Unspecified> {
    rng.fill(&mut dest[..])
}

/// A fresh random source connection id; fails when the random source does.
pub fn generate_scid() -> (r: Result<[u8; SCID_LEN], RandomError>)
    ensures
        r is Err ==> r == Err::<[u8; SCID_LEN], RandomError>(RandomError),
{
    let mut scid = [0u8; SCID_LEN];
    let rng = system_random();
    match fill_random(&rng, &mut scid) {
        Ok(()) => Ok(scid),
        Err(_) => Err(RandomError),
    }
}

} // verus!

use vstd::prelude::*;

use rand::RngCore;

verus! {

/// 32 bytes from the operating system's source of randomness
/// (`rand::rngs::OsRng::try_fill_bytes`), or `None` where it fails. Nothing is
/// claimed of the bytes.
#[verifier::external_body]
pub(crate) fn os_random_bytes() -> (result: Option<[u8; 32]>)
{
    let mut bytes = [0u8; 32];
    match rand::rngs::OsRng.try_fill_bytes(&mut bytes[..]) {
        Ok(()) => Some(bytes),
        Err(_) => None,
    }
}

} // verus!

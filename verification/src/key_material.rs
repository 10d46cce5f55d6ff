//! Fixed sizes and values of the authenticator's key material.
use vstd::prelude::*;

verus! {

/// Size of the attestation private key.
pub const ATTESTATION_PRIVATE_KEY_LENGTH: usize = 32;

/// Size of the AAGUID.
pub const AAGUID_LENGTH: usize = 16;

/// The AAGUID that a fresh store starts with.
pub const AAGUID: [u8; 16] = [
    0x66, 0x4d, 0x9f, 0x67, 0x84, 0xa2, 0x41, 0x2a, 0x9f, 0xf7, 0xb4, 0xf7, 0xd8, 0xee, 0x05, 0x1d,
];

} // verus!

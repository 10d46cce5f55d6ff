//! Status codes that the store reports.
use vstd::prelude::*;

verus! {

/// The CTAP2 status codes that an operation of the store can end with.
#[allow(non_camel_case_types)]
#[derive(Clone, Copy, Debug, PartialEq, Eq, Structural)]
pub enum Ctap2StatusCode {
    /// A stored record is malformed.
    CTAP2_ERR_INVALID_CREDENTIAL,
    /// There is no room left for another record.
    CTAP2_ERR_KEY_STORE_FULL,
    /// The database did not do what was asked of it, or holds a value of the wrong size.
    CTAP2_ERR_VENDOR_INTERNAL_ERROR,
    /// A record could not be serialized.
    CTAP2_ERR_VENDOR_RESPONSE_CANNOT_WRITE_CBOR,
}

} // verus!

//! Attestation and identity of the authenticator. A CTAP reset leaves these values alone.
use vstd::prelude::*;
use vstd::slice::slice_to_vec;
use crate::bytes::array_at;
use crate::key;
use crate::key_material::{AAGUID_LENGTH, ATTESTATION_PRIVATE_KEY_LENGTH};
use crate::request::{Dict, Query, Reply, Request};
use crate::status_code::Ctap2StatusCode;
use crate::values::{fetch, ReplaceValue, WriteValue};

verus! {

use crate::pddb::{value, Contents};
use crate::request::ReplyView;
use crate::values::{
    array_result, fetch_value, first, optional_array_result, replaced, written, ReplaceView,
    TargetView, WriteView,
};

/// Size hint for storing the attestation certificate.
pub const CERTIFICATE_INITIAL_SIZE: usize = 1024;

// ---------------- attestation private key ----------------------

/// Reads the attestation private key.
#[derive(Debug, PartialEq, Eq)]
pub struct ReadAttestationPrivateKey;

/// What the reply means. A key that is not there is not defined.
pub open spec fn private_key_outcome(reply: ReplyView) -> Result<Option<Seq<u8>>, Ctap2StatusCode> {
    match reply {
        ReplyView::Data(data) => if data.len() == ATTESTATION_PRIVATE_KEY_LENGTH {
            Ok(Some(data))
        } else {
            Err(Ctap2StatusCode::CTAP2_ERR_VENDOR_INTERNAL_ERROR)
        },
        ReplyView::NotFound => Ok(None),
        _ => Err(Ctap2StatusCode::CTAP2_ERR_VENDOR_INTERNAL_ERROR),
    }
}

impl Query for ReadAttestationPrivateKey {
    type Output = Result<Option<[u8; ATTESTATION_PRIVATE_KEY_LENGTH]>, Ctap2StatusCode>;

    fn request(&self) -> (request: Request)
        ensures
            request@ == fetch_value(
                Dict::Persistent,
                key::ATTESTATION_PRIVATE_KEY@,
                Some(ATTESTATION_PRIVATE_KEY_LENGTH),
            ),
    {
        fetch(
            Dict::Persistent,
            key::ATTESTATION_PRIVATE_KEY,
            Some(ATTESTATION_PRIVATE_KEY_LENGTH),
        )
    }

    fn outcome(self, reply: Reply) -> (result: Result<
        Option<[u8; ATTESTATION_PRIVATE_KEY_LENGTH]>,
        Ctap2StatusCode,
    >)
        ensures
            optional_array_result(result) == private_key_outcome(reply@),
    {
        match reply {
            Reply::Data(data) => {
                if data.len() == ATTESTATION_PRIVATE_KEY_LENGTH {
                    let key: [u8; ATTESTATION_PRIVATE_KEY_LENGTH] = array_at(data.as_slice(), 0);
                    assert(key@ =~= data@);
                    Ok(Some(key))
                } else {
                    Err(Ctap2StatusCode::CTAP2_ERR_VENDOR_INTERNAL_ERROR)
                }
            },
            Reply::NotFound => Ok(None),
            _ => Err(Ctap2StatusCode::CTAP2_ERR_VENDOR_INTERNAL_ERROR),
        }
    }
}

/// The attestation private key that the database holds, if it is defined.
pub open spec fn private_key_in(db: Contents) -> Result<Option<Seq<u8>>, Ctap2StatusCode> {
    match value(db, Dict::Persistent, key::ATTESTATION_PRIVATE_KEY@) {
        Some(v) => match first(v, ATTESTATION_PRIVATE_KEY_LENGTH) {
            Ok(key) => Ok(Some(key)),
            Err(code) => Err(code),
        },
        None => Ok(None),
    }
}

/// Sets the attestation private key.
pub fn set_attestation_private_key(
    attestation_private_key: &[u8; ATTESTATION_PRIVATE_KEY_LENGTH],
) -> (write: WriteValue)
    ensures
        write@ == (WriteView {
            dict: Dict::Persistent,
            key: key::ATTESTATION_PRIVATE_KEY@,
            data: attestation_private_key@,
            whole: false,
        }),
{
    WriteValue::new(
        Dict::Persistent,
        key::ATTESTATION_PRIVATE_KEY,
        attestation_private_key.as_slice(),
        false,
    )
}

/// The result of setting the attestation private key, and what the database holds then.
pub open spec fn private_key_set(db: Contents, private_key: Seq<u8>) -> (
    Result<(), Ctap2StatusCode>,
    Contents,
) {
    written(db, Dict::Persistent, key::ATTESTATION_PRIVATE_KEY@, private_key)
}

// ---------------- attestation certificate ----------------------

/// Reads the attestation certificate.
#[derive(Debug, PartialEq, Eq)]
pub struct ReadAttestationCertificate;

/// What an optional certificate in a result says.
pub open spec fn certificate_result(result: Result<Option<Vec<u8>>, Ctap2StatusCode>) -> Result<
    Option<Seq<u8>>,
    Ctap2StatusCode,
> {
    match result {
        Ok(Some(data)) => Ok(Some(data@)),
        Ok(None) => Ok(None),
        Err(code) => Err(code),
    }
}

/// What the reply means. A certificate that cannot be opened is not defined.
pub open spec fn certificate_outcome(reply: ReplyView) -> Result<Option<Seq<u8>>, Ctap2StatusCode> {
    match reply {
        ReplyView::Data(data) => Ok(Some(data)),
        ReplyView::NotFound => Ok(None),
        ReplyView::Refused => Ok(None),
        _ => Err(Ctap2StatusCode::CTAP2_ERR_VENDOR_INTERNAL_ERROR),
    }
}

impl Query for ReadAttestationCertificate {
    type Output = Result<Option<Vec<u8>>, Ctap2StatusCode>;

    fn request(&self) -> (request: Request)
        ensures
            request@ == fetch_value(Dict::Persistent, key::ATTESTATION_CERTIFICATE@, None),
    {
        fetch(Dict::Persistent, key::ATTESTATION_CERTIFICATE, None)
    }

    fn outcome(self, reply: Reply) -> (result: Result<Option<Vec<u8>>, Ctap2StatusCode>)
        ensures
            certificate_result(result) == certificate_outcome(reply@),
    {
        match reply {
            Reply::Data(data) => Ok(Some(data)),
            Reply::NotFound | Reply::Refused => Ok(None),
            _ => Err(Ctap2StatusCode::CTAP2_ERR_VENDOR_INTERNAL_ERROR),
        }
    }
}

/// The attestation certificate that the database holds, if it is defined.
pub open spec fn certificate_in(db: Contents) -> Option<Seq<u8>> {
    value(db, Dict::Persistent, key::ATTESTATION_CERTIFICATE@)
}

/// Sets the attestation certificate.
pub fn set_attestation_certificate(attestation_certificate: &[u8]) -> (replace: ReplaceValue)
    ensures
        replace@ == (ReplaceView::Checking {
            target: TargetView {
                dict: Dict::Persistent,
                key: key::ATTESTATION_CERTIFICATE@,
                hint: CERTIFICATE_INITIAL_SIZE,
                data: attestation_certificate@,
            },
        }),
{
    ReplaceValue::new(
        Dict::Persistent,
        key::ATTESTATION_CERTIFICATE,
        CERTIFICATE_INITIAL_SIZE,
        slice_to_vec(attestation_certificate),
    )
}

/// The result of setting the attestation certificate, and what the database holds then.
pub open spec fn certificate_set(db: Contents, certificate: Seq<u8>) -> (
    Result<(), Ctap2StatusCode>,
    Contents,
) {
    replaced(db, Dict::Persistent, key::ATTESTATION_CERTIFICATE@, certificate)
}

// ---------------- AAGUID ----------------------

/// Reads the AAGUID.
#[derive(Debug, PartialEq, Eq)]
pub struct ReadAaguid;

/// The AAGUID while there is none.
pub open spec fn no_aaguid() -> Seq<u8> {
    Seq::new(AAGUID_LENGTH as nat, |i: int| 0u8)
}

/// What the reply means. An AAGUID that cannot be opened is all zeros.
pub open spec fn aaguid_outcome(reply: ReplyView) -> Result<Seq<u8>, Ctap2StatusCode> {
    match reply {
        ReplyView::Data(data) => if data.len() == AAGUID_LENGTH {
            Ok(data)
        } else {
            Err(Ctap2StatusCode::CTAP2_ERR_VENDOR_INTERNAL_ERROR)
        },
        ReplyView::NotFound => Ok(no_aaguid()),
        ReplyView::Refused => Ok(no_aaguid()),
        _ => Err(Ctap2StatusCode::CTAP2_ERR_VENDOR_INTERNAL_ERROR),
    }
}

impl Query for ReadAaguid {
    type Output = Result<[u8; AAGUID_LENGTH], Ctap2StatusCode>;

    fn request(&self) -> (request: Request)
        ensures
            request@ == fetch_value(Dict::Persistent, key::AAGUID@, Some(AAGUID_LENGTH)),
    {
        fetch(Dict::Persistent, key::AAGUID, Some(AAGUID_LENGTH))
    }

    fn outcome(self, reply: Reply) -> (result: Result<[u8; AAGUID_LENGTH], Ctap2StatusCode>)
        ensures
            array_result(result) == aaguid_outcome(reply@),
    {
        match reply {
            Reply::Data(data) => {
                if data.len() == AAGUID_LENGTH {
                    let aaguid: [u8; AAGUID_LENGTH] = array_at(data.as_slice(), 0);
                    assert(aaguid@ =~= data@);
                    Ok(aaguid)
                } else {
                    Err(Ctap2StatusCode::CTAP2_ERR_VENDOR_INTERNAL_ERROR)
                }
            },
            Reply::NotFound | Reply::Refused => {
                let zeros = [0u8; AAGUID_LENGTH];
                assert(zeros@ =~= no_aaguid());
                Ok(zeros)
            },
            _ => Err(Ctap2StatusCode::CTAP2_ERR_VENDOR_INTERNAL_ERROR),
        }
    }
}

/// The AAGUID that the database holds.
pub open spec fn aaguid_in(db: Contents) -> Result<Seq<u8>, Ctap2StatusCode> {
    match value(db, Dict::Persistent, key::AAGUID@) {
        Some(v) => first(v, AAGUID_LENGTH),
        None => Ok(no_aaguid()),
    }
}

/// Sets the AAGUID.
pub fn set_aaguid(aaguid: &[u8; AAGUID_LENGTH]) -> (write: WriteValue)
    ensures
        write@ == (WriteView {
            dict: Dict::Persistent,
            key: key::AAGUID@,
            data: aaguid@,
            whole: false,
        }),
{
    WriteValue::new(Dict::Persistent, key::AAGUID, aaguid.as_slice(), false)
}

/// The result of setting the AAGUID, and what the database holds then.
pub open spec fn aaguid_set(db: Contents, aaguid: Seq<u8>) -> (
    Result<(), Ctap2StatusCode>,
    Contents,
) {
    written(db, Dict::Persistent, key::AAGUID@, aaguid)
}

} // verus!

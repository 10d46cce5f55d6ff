//! The secrets of the authenticator.
use vstd::prelude::*;
use crate::bytes::array_at;
use crate::init::{CRED_RANDOM_SIZE, MASTER_KEYS_SIZE};
use crate::key;
use crate::request::{Dict, Query, Reply, Request};
use crate::status_code::Ctap2StatusCode;
use crate::values::fetch;

verus! {

use crate::pddb::{value, Contents};
use crate::request::ReplyView;
use crate::values::{array_result, fetch_value, first};

/// Wrapper for master keys.
pub struct MasterKeys {
    /// Master encryption key.
    pub encryption: [u8; 32],
    /// Master hmac key.
    pub hmac: [u8; 32],
}

/// Reads the master keys.
#[derive(Debug, PartialEq, Eq)]
pub struct ReadMasterKeys;

/// What the master keys say: the encryption key, and then the hmac key.
pub open spec fn master_keys_result(result: Result<MasterKeys, Ctap2StatusCode>) -> Result<
    Seq<u8>,
    Ctap2StatusCode,
> {
    match result {
        Ok(keys) => Ok(keys.encryption@ + keys.hmac@),
        Err(code) => Err(code),
    }
}

/// What the reply means: a secret has its full size.
pub open spec fn secret_outcome(reply: ReplyView, size: usize) -> Result<Seq<u8>, Ctap2StatusCode> {
    match reply {
        ReplyView::Data(data) => if data.len() == size {
            Ok(data)
        } else {
            Err(Ctap2StatusCode::CTAP2_ERR_VENDOR_INTERNAL_ERROR)
        },
        _ => Err(Ctap2StatusCode::CTAP2_ERR_VENDOR_INTERNAL_ERROR),
    }
}

impl Query for ReadMasterKeys {
    type Output = Result<MasterKeys, Ctap2StatusCode>;

    fn request(&self) -> (request: Request)
        ensures
            request@ == fetch_value(Dict::Config, key::MASTER_KEYS@, Some(MASTER_KEYS_SIZE)),
    {
        fetch(Dict::Config, key::MASTER_KEYS, Some(MASTER_KEYS_SIZE))
    }

    fn outcome(self, reply: Reply) -> (result: Result<MasterKeys, Ctap2StatusCode>)
        ensures
            master_keys_result(result) == secret_outcome(reply@, MASTER_KEYS_SIZE),
    {
        match reply {
            Reply::Data(data) => {
                if data.len() == MASTER_KEYS_SIZE {
                    let keys = MasterKeys {
                        encryption: array_at(data.as_slice(), 0),
                        hmac: array_at(data.as_slice(), 32),
                    };
                    assert(keys.encryption@ + keys.hmac@ =~= data@);
                    Ok(keys)
                } else {
                    Err(Ctap2StatusCode::CTAP2_ERR_VENDOR_INTERNAL_ERROR)
                }
            },
            _ => Err(Ctap2StatusCode::CTAP2_ERR_VENDOR_INTERNAL_ERROR),
        }
    }
}

/// The master keys that the database holds.
pub open spec fn master_keys_in(db: Contents) -> Result<Seq<u8>, Ctap2StatusCode> {
    match value(db, Dict::Config, key::MASTER_KEYS@) {
        Some(v) => first(v, MASTER_KEYS_SIZE),
        None => Err(Ctap2StatusCode::CTAP2_ERR_VENDOR_INTERNAL_ERROR),
    }
}

/// Reads a CredRandom secret.
#[derive(Debug, PartialEq, Eq)]
pub struct ReadCredRandomSecret {
    /// Whether the user was verified.
    pub has_uv: bool,
}

/// The half of the CredRandom secrets that is used with or without user verification.
pub open spec fn cred_random_half(secrets: Seq<u8>, has_uv: bool) -> Seq<u8> {
    if has_uv {
        secrets.subrange(32, 64)
    } else {
        secrets.subrange(0, 32)
    }
}

/// What the reply means.
pub open spec fn cred_random_outcome(reply: ReplyView, has_uv: bool) -> Result<
    Seq<u8>,
    Ctap2StatusCode,
> {
    match secret_outcome(reply, CRED_RANDOM_SIZE) {
        Ok(secrets) => Ok(cred_random_half(secrets, has_uv)),
        Err(code) => Err(code),
    }
}

impl Query for ReadCredRandomSecret {
    type Output = Result<[u8; 32], Ctap2StatusCode>;

    fn request(&self) -> (request: Request)
        ensures
            request@ == fetch_value(
                Dict::Credentials,
                key::CRED_RANDOM_SECRET@,
                Some(CRED_RANDOM_SIZE),
            ),
    {
        fetch(Dict::Credentials, key::CRED_RANDOM_SECRET, Some(CRED_RANDOM_SIZE))
    }

    fn outcome(self, reply: Reply) -> (result: Result<[u8; 32], Ctap2StatusCode>)
        ensures
            array_result(result) == cred_random_outcome(reply@, self.has_uv),
    {
        match reply {
            Reply::Data(data) => {
                if data.len() == CRED_RANDOM_SIZE {
                    let offset: usize = if self.has_uv {
                        32
                    } else {
                        0
                    };
                    Ok(array_at(data.as_slice(), offset))
                } else {
                    Err(Ctap2StatusCode::CTAP2_ERR_VENDOR_INTERNAL_ERROR)
                }
            },
            _ => Err(Ctap2StatusCode::CTAP2_ERR_VENDOR_INTERNAL_ERROR),
        }
    }
}

/// The CredRandom secret that the database holds.
pub open spec fn cred_random_in(db: Contents, has_uv: bool) -> Result<Seq<u8>, Ctap2StatusCode> {
    match value(db, Dict::Credentials, key::CRED_RANDOM_SECRET@) {
        Some(v) => match first(v, CRED_RANDOM_SIZE) {
            Ok(secrets) => Ok(cred_random_half(secrets, has_uv)),
            Err(code) => Err(code),
        },
        None => Err(Ctap2StatusCode::CTAP2_ERR_VENDOR_INTERNAL_ERROR),
    }
}

} // verus!

//! The PIN and its settings.
use vstd::prelude::*;
use crate::bytes::array_at;
use crate::key;
use crate::names::contains_name;
use crate::record_format::{_deserialize_min_pin_length_rp_ids, _serialize_min_pin_length_rp_ids};
use crate::request::{Dict, Operation, Query, Reply, Request, Step};
use crate::status_code::Ctap2StatusCode;
use crate::values::{fetch, ReplaceValue, WriteValue};

verus! {

use crate::names::texts;
use crate::pddb::{answers, value, without_key, Contents};
use crate::record_format::{rp_ids_bytes, stored_rp_ids};
use crate::request::{ReplyView, RequestView};
use crate::values::{
    fetch_value, first, optional_array_result, replaced, written, ReplaceView, TargetView,
    WriteView,
};

/// Size of the PIN hash.
pub const PIN_AUTH_LENGTH: usize = 16;

/// The number of PIN retries.
pub const MAX_PIN_RETRIES: u8 = 8;

/// The minimum PIN length while none is set.
pub const DEFAULT_MIN_PIN_LENGTH: u8 = 4;

/// The number of RP IDs that may be allowed to read the minimum PIN length.
pub const _MAX_RP_IDS_LENGTH: usize = 8;

// ---------------- PIN hash ----------------------

/// Reads the PIN hash.
#[derive(Debug, PartialEq, Eq)]
pub struct ReadPinHash;

/// What the reply means. A PIN hash that is not there is not set.
pub open spec fn pin_hash_outcome(reply: ReplyView) -> Result<Option<Seq<u8>>, Ctap2StatusCode> {
    match reply {
        ReplyView::Data(data) => if data.len() == PIN_AUTH_LENGTH {
            Ok(Some(data))
        } else {
            Err(Ctap2StatusCode::CTAP2_ERR_VENDOR_INTERNAL_ERROR)
        },
        ReplyView::NotFound => Ok(None),
        _ => Err(Ctap2StatusCode::CTAP2_ERR_VENDOR_INTERNAL_ERROR),
    }
}

impl Query for ReadPinHash {
    type Output = Result<Option<[u8; PIN_AUTH_LENGTH]>, Ctap2StatusCode>;

    fn request(&self) -> (request: Request)
        ensures
            request@ == fetch_value(Dict::Config, key::PIN_HASH@, Some(PIN_AUTH_LENGTH)),
    {
        fetch(Dict::Config, key::PIN_HASH, Some(PIN_AUTH_LENGTH))
    }

    fn outcome(self, reply: Reply) -> (result: Result<
        Option<[u8; PIN_AUTH_LENGTH]>,
        Ctap2StatusCode,
    >)
        ensures
            optional_array_result(result) == pin_hash_outcome(reply@),
    {
        match reply {
            Reply::Data(data) => {
                if data.len() == PIN_AUTH_LENGTH {
                    let hash: [u8; PIN_AUTH_LENGTH] = array_at(data.as_slice(), 0);
                    assert(hash@ =~= data@);
                    Ok(Some(hash))
                } else {
                    Err(Ctap2StatusCode::CTAP2_ERR_VENDOR_INTERNAL_ERROR)
                }
            },
            Reply::NotFound => Ok(None),
            _ => Err(Ctap2StatusCode::CTAP2_ERR_VENDOR_INTERNAL_ERROR),
        }
    }
}

/// The PIN hash that the database holds, if it is set.
pub open spec fn pin_hash_in(db: Contents) -> Result<Option<Seq<u8>>, Ctap2StatusCode> {
    match value(db, Dict::Config, key::PIN_HASH@) {
        Some(v) => match first(v, PIN_AUTH_LENGTH) {
            Ok(hash) => Ok(Some(hash)),
            Err(code) => Err(code),
        },
        None => Ok(None),
    }
}

/// Sets the PIN hash.
pub fn set_pin_hash(pin_hash: &[u8; PIN_AUTH_LENGTH]) -> (write: WriteValue)
    ensures
        write@ == (WriteView {
            dict: Dict::Config,
            key: key::PIN_HASH@,
            data: pin_hash@,
            whole: true,
        }),
{
    WriteValue::new(Dict::Config, key::PIN_HASH, pin_hash.as_slice(), true)
}

/// The result of setting the PIN hash, and what the database holds then.
pub open spec fn pin_hash_set(db: Contents, pin_hash: Seq<u8>) -> (
    Result<(), Ctap2StatusCode>,
    Contents,
) {
    written(db, Dict::Config, key::PIN_HASH@, pin_hash)
}

// ---------------- PIN retries ----------------------

/// What the reply means where a single byte is asked for, which has a default value.
pub open spec fn byte_outcome(reply: ReplyView, default: u8) -> Result<u8, Ctap2StatusCode> {
    match reply {
        ReplyView::Data(data) => if data.len() == 1 {
            Ok(data[0])
        } else {
            Err(Ctap2StatusCode::CTAP2_ERR_VENDOR_INTERNAL_ERROR)
        },
        ReplyView::NotFound => Ok(default),
        _ => Err(Ctap2StatusCode::CTAP2_ERR_VENDOR_INTERNAL_ERROR),
    }
}

/// What the reply means where a single byte is asked for, which has a default value.
fn byte_of(reply: Reply, default: u8) -> (result: Result<u8, Ctap2StatusCode>)
    ensures
        result == byte_outcome(reply@, default),
{
    match reply {
        Reply::Data(data) => {
            if data.len() == 1 {
                Ok(data[0])
            } else {
                Err(Ctap2StatusCode::CTAP2_ERR_VENDOR_INTERNAL_ERROR)
            }
        },
        Reply::NotFound => Ok(default),
        _ => Err(Ctap2StatusCode::CTAP2_ERR_VENDOR_INTERNAL_ERROR),
    }
}

/// The first byte under a key of the configuration, or a default value where there is no such key.
pub open spec fn byte_in(db: Contents, key: Seq<char>, default: u8) -> Result<u8, Ctap2StatusCode> {
    match value(db, Dict::Config, key) {
        Some(v) => if v.len() >= 1 {
            Ok(v[0])
        } else {
            Err(Ctap2StatusCode::CTAP2_ERR_VENDOR_INTERNAL_ERROR)
        },
        None => Ok(default),
    }
}

/// Reads the number of remaining PIN retries.
#[derive(Debug, PartialEq, Eq)]
pub struct ReadPinRetries;

impl Query for ReadPinRetries {
    type Output = Result<u8, Ctap2StatusCode>;

    fn request(&self) -> (request: Request)
        ensures
            request@ == fetch_value(Dict::Config, key::PIN_RETRIES@, Some(1)),
    {
        fetch(Dict::Config, key::PIN_RETRIES, Some(1))
    }

    fn outcome(self, reply: Reply) -> (result: Result<u8, Ctap2StatusCode>)
        ensures
            result == byte_outcome(reply@, MAX_PIN_RETRIES),
    {
        byte_of(reply, MAX_PIN_RETRIES)
    }
}

/// The number of remaining PIN retries that the database holds.
pub open spec fn pin_retries_in(db: Contents) -> Result<u8, Ctap2StatusCode> {
    byte_in(db, key::PIN_RETRIES@, MAX_PIN_RETRIES)
}

/// Decrements the number of remaining PIN retries.
#[derive(Debug, PartialEq, Eq)]
pub enum DecrPinRetries {
    /// The number is being read.
    Reading,
    /// The new number is being written.
    Writing { new_value: u8 },
}

/// One retry less, as long as there are any.
pub open spec fn decremented(n: u8) -> u8 {
    if n == 0 {
        0
    } else {
        (n - 1) as u8
    }
}

/// What is asked next.
pub open spec fn decr_request(decr: DecrPinRetries) -> RequestView {
    match decr {
        DecrPinRetries::Reading => fetch_value(Dict::Config, key::PIN_RETRIES@, Some(1)),
        DecrPinRetries::Writing { new_value } => RequestView::Write {
            dict: Dict::Config,
            key: key::PIN_RETRIES@,
            hint: Some(1),
            data: seq![new_value],
        },
    }
}

/// What follows from a reply. Where nothing is left to take away, nothing is written.
pub open spec fn decr_resume(decr: DecrPinRetries, reply: ReplyView) -> Step<
    DecrPinRetries,
    Result<(), Ctap2StatusCode>,
> {
    match decr {
        DecrPinRetries::Reading => match byte_outcome(reply, MAX_PIN_RETRIES) {
            Ok(old_value) => if old_value == 0 {
                Step::Return(Ok(()))
            } else {
                Step::Ask(DecrPinRetries::Writing { new_value: decremented(old_value) })
            },
            Err(code) => Step::Return(Err(code)),
        },
        DecrPinRetries::Writing { .. } => match reply {
            ReplyView::Written(_) => Step::Return(Ok(())),
            _ => Step::Return(Err(Ctap2StatusCode::CTAP2_ERR_VENDOR_INTERNAL_ERROR)),
        },
    }
}

impl DecrPinRetries {
    /// Starts decrementing the number.
    pub fn new() -> (decr: DecrPinRetries)
        ensures
            decr == DecrPinRetries::Reading,
    {
        DecrPinRetries::Reading
    }
}

impl Operation for DecrPinRetries {
    type Output = Result<(), Ctap2StatusCode>;

    fn request(&self) -> (request: Request)
        ensures
            request@ == decr_request(*self),
    {
        match self {
            DecrPinRetries::Reading => ReadPinRetries.request(),
            DecrPinRetries::Writing { new_value } => {
                let mut data: Vec<u8> = Vec::new();
                data.push(*new_value);
                assert(data@ =~= seq![*new_value]);
                Request::Write {
                    dict: Dict::Config,
                    key: key::PIN_RETRIES.to_owned(),
                    hint: Some(1),
                    data,
                }
            },
        }
    }

    fn resume(self, reply: Reply) -> (step: Step<DecrPinRetries, Result<(), Ctap2StatusCode>>)
        ensures
            step == decr_resume(self, reply@),
    {
        match self {
            DecrPinRetries::Reading => match ReadPinRetries.outcome(reply) {
                Ok(old_value) => {
                    let new_value: u8 = old_value.saturating_sub(1);
                    if new_value != old_value {
                        Step::Ask(DecrPinRetries::Writing { new_value })
                    } else {
                        Step::Return(Ok(()))
                    }
                },
                Err(code) => Step::Return(Err(code)),
            },
            DecrPinRetries::Writing { .. } => match reply {
                Reply::Written(_) => Step::Return(Ok(())),
                _ => Step::Return(Err(Ctap2StatusCode::CTAP2_ERR_VENDOR_INTERNAL_ERROR)),
            },
        }
    }
}

/// The result of decrementing the number of retries, and what the database holds then.
pub open spec fn pin_retries_decremented(db: Contents) -> (Result<(), Ctap2StatusCode>, Contents) {
    match pin_retries_in(db) {
        Ok(n) => if n == 0 {
            (Ok(()), db)
        } else {
            written(db, Dict::Config, key::PIN_RETRIES@, seq![decremented(n)])
        },
        Err(code) => (Err(code), db),
    }
}

/// Whether a decrement in `db0` that holds `db` now goes on with `decr`.
pub open spec fn decr_progress(db0: Contents, db: Contents, decr: DecrPinRetries) -> bool {
    &&& db == db0
    &&& match decr {
        DecrPinRetries::Reading => true,
        DecrPinRetries::Writing { new_value } => {
            &&& pin_retries_in(db0) is Ok
            &&& pin_retries_in(db0)->Ok_0 != 0
            &&& new_value == decremented(pin_retries_in(db0)->Ok_0)
        },
    }
}

/// How many requests may come after this one.
pub open spec fn decr_left(decr: DecrPinRetries) -> nat {
    match decr {
        DecrPinRetries::Reading => 1,
        DecrPinRetries::Writing { .. } => 0,
    }
}

/// A request of the decrement brings the end nearer.
pub proof fn lemma_decr_step(
    db0: Contents,
    db: Contents,
    decr: DecrPinRetries,
    reply: ReplyView,
    after: Contents,
)
    requires
        decr_progress(db0, db, decr),
        answers(db, decr_request(decr), reply, after),
    ensures
        match decr_resume(decr, reply) {
            Step::Ask(next) => decr_progress(db0, after, next) && decr_left(next) < decr_left(decr),
            Step::Return(result) => (result, after) == pin_retries_decremented(db0),
        },
{
}

/// Resets the number of remaining PIN retries.
#[derive(Debug, PartialEq, Eq)]
pub struct ResetPinRetries;

/// What the reply means. A number that is not there needs no reset.
pub open spec fn reset_retries_outcome(reply: ReplyView) -> Result<(), Ctap2StatusCode> {
    match reply {
        ReplyView::Deleted => Ok(()),
        ReplyView::NotFound => Ok(()),
        _ => Err(Ctap2StatusCode::CTAP2_ERR_VENDOR_INTERNAL_ERROR),
    }
}

impl Query for ResetPinRetries {
    type Output = Result<(), Ctap2StatusCode>;

    fn request(&self) -> (request: Request)
        ensures
            request@ == (RequestView::DeleteKey { dict: Dict::Config, key: key::PIN_RETRIES@ }),
    {
        Request::DeleteKey { dict: Dict::Config, key: key::PIN_RETRIES.to_owned() }
    }

    fn outcome(self, reply: Reply) -> (result: Result<(), Ctap2StatusCode>)
        ensures
            result == reset_retries_outcome(reply@),
    {
        match reply {
            Reply::Deleted | Reply::NotFound => Ok(()),
            _ => Err(Ctap2StatusCode::CTAP2_ERR_VENDOR_INTERNAL_ERROR),
        }
    }
}

/// What the database holds once the number of retries is reset.
pub open spec fn pin_retries_reset(db: Contents) -> Contents {
    without_key(db, Dict::Config, key::PIN_RETRIES@)
}

// ---------------- minimum PIN length ----------------------

/// Reads the minimum PIN length.
#[derive(Debug, PartialEq, Eq)]
pub struct ReadMinPinLength;

impl Query for ReadMinPinLength {
    type Output = Result<u8, Ctap2StatusCode>;

    fn request(&self) -> (request: Request)
        ensures
            request@ == fetch_value(Dict::Config, key::MIN_PIN_LENGTH@, Some(1)),
    {
        fetch(Dict::Config, key::MIN_PIN_LENGTH, Some(1))
    }

    fn outcome(self, reply: Reply) -> (result: Result<u8, Ctap2StatusCode>)
        ensures
            result == byte_outcome(reply@, DEFAULT_MIN_PIN_LENGTH),
    {
        byte_of(reply, DEFAULT_MIN_PIN_LENGTH)
    }
}

/// The minimum PIN length that the database holds.
pub open spec fn min_pin_length_in(db: Contents) -> Result<u8, Ctap2StatusCode> {
    byte_in(db, key::MIN_PIN_LENGTH@, DEFAULT_MIN_PIN_LENGTH)
}

/// Sets the minimum PIN length.
pub fn set_min_pin_length(min_pin_length: u8) -> (write: WriteValue)
    ensures
        write@ == (WriteView {
            dict: Dict::Config,
            key: key::MIN_PIN_LENGTH@,
            data: seq![min_pin_length],
            whole: true,
        }),
{
    let data = [min_pin_length];
    assert(data@ =~= seq![min_pin_length]);
    WriteValue::new(Dict::Config, key::MIN_PIN_LENGTH, data.as_slice(), true)
}

/// The result of setting the minimum PIN length, and what the database holds then.
pub open spec fn min_pin_length_set(db: Contents, min_pin_length: u8) -> (
    Result<(), Ctap2StatusCode>,
    Contents,
) {
    written(db, Dict::Config, key::MIN_PIN_LENGTH@, seq![min_pin_length])
}

// ---------------- RP IDs that may read the minimum PIN length ----------------------

/// The RP IDs that may always read the minimum PIN length.
pub open spec fn default_rp_ids() -> Seq<Seq<char>> {
    Seq::empty()
}

/// The RP IDs that may always read the minimum PIN length.
pub fn _default_min_pin_length_rp_ids() -> (rp_ids: Vec<String>)
    ensures
        texts(rp_ids@) == default_rp_ids(),
{
    let rp_ids: Vec<String> = Vec::new();
    assert(texts(rp_ids@) =~= default_rp_ids());
    rp_ids
}

/// Reads the RP IDs that may read the minimum PIN length.
#[derive(Debug, PartialEq, Eq)]
pub struct ReadMinPinLengthRpIds;

/// What a list of RP IDs in a result says.
pub open spec fn rp_ids_result(result: Result<Vec<String>, Ctap2StatusCode>) -> Result<
    Seq<Seq<char>>,
    Ctap2StatusCode,
> {
    match result {
        Ok(rp_ids) => Ok(texts(rp_ids@)),
        Err(code) => Err(code),
    }
}

/// The RP IDs that stored bytes stand for; none if they stand for no list.
pub open spec fn rp_ids_of(data: Seq<u8>) -> Seq<Seq<char>> {
    match stored_rp_ids(data) {
        Some(rp_ids) => rp_ids,
        None => Seq::empty(),
    }
}

/// What the reply means. A list that cannot be opened is empty.
pub open spec fn rp_ids_outcome(reply: ReplyView) -> Result<Seq<Seq<char>>, Ctap2StatusCode> {
    match reply {
        ReplyView::Data(data) => Ok(rp_ids_of(data)),
        ReplyView::NotFound => Ok(Seq::empty()),
        ReplyView::Refused => Ok(Seq::empty()),
        _ => Err(Ctap2StatusCode::CTAP2_ERR_VENDOR_INTERNAL_ERROR),
    }
}

impl Query for ReadMinPinLengthRpIds {
    type Output = Result<Vec<String>, Ctap2StatusCode>;

    fn request(&self) -> (request: Request)
        ensures
            request@ == fetch_value(Dict::Config, key::_MIN_PIN_LENGTH_RP_IDS@, None),
    {
        fetch(Dict::Config, key::_MIN_PIN_LENGTH_RP_IDS, None)
    }

    fn outcome(self, reply: Reply) -> (result: Result<Vec<String>, Ctap2StatusCode>)
        ensures
            rp_ids_result(result) == rp_ids_outcome(reply@),
    {
        let none: Vec<String> = Vec::new();
        assert(texts(none@) =~= Seq::<Seq<char>>::empty());
        match reply {
            Reply::Data(data) => match _deserialize_min_pin_length_rp_ids(data.as_slice()) {
                Some(rp_ids) => Ok(rp_ids),
                None => Ok(none),
            },
            Reply::NotFound | Reply::Refused => Ok(none),
            _ => Err(Ctap2StatusCode::CTAP2_ERR_VENDOR_INTERNAL_ERROR),
        }
    }
}

/// The RP IDs that the database holds.
pub open spec fn rp_ids_in(db: Contents) -> Seq<Seq<char>> {
    match value(db, Dict::Config, key::_MIN_PIN_LENGTH_RP_IDS@) {
        Some(v) => rp_ids_of(v),
        None => Seq::empty(),
    }
}

/// A list of RP IDs, followed by those of `more` that it lacks.
pub open spec fn merged(rp_ids: Seq<Seq<char>>, more: Seq<Seq<char>>) -> Seq<Seq<char>>
    decreases more.len(),
{
    if more.len() == 0 {
        rp_ids
    } else {
        let before = merged(rp_ids, more.drop_last());
        if before.contains(more.last()) {
            before
        } else {
            before.push(more.last())
        }
    }
}

/// Adds to a list of RP IDs those of `more` that it lacks.
pub fn merge_rp_ids(rp_ids: Vec<String>, more: Vec<String>) -> (all: Vec<String>)
    ensures
        texts(all@) == merged(texts(rp_ids@), texts(more@)),
{
    let ghost given = texts(rp_ids@);
    let ghost added = texts(more@);
    let mut all = rp_ids;
    let mut i: usize = 0;
    assert(added.take(0) =~= Seq::<Seq<char>>::empty());
    while i < more.len()
        invariant
            i <= more@.len(),
            added == texts(more@),
            texts(all@) == merged(given, added.take(i as int)),
        decreases more@.len() - i,
    {
        let ghost before = texts(all@);
        proof {
            assert(added.take(i + 1).drop_last() =~= added.take(i as int));
            assert(added.take(i + 1).last() == more@[i as int]@);
        }
        if !contains_name(&all, &more[i]) {
            all.push(more[i].clone());
            assert(texts(all@) =~= before.push(more@[i as int]@));
        }
        i = i + 1;
    }
    assert(added.take(i as int) =~= added);
    all
}

/// Sets the RP IDs that may read the minimum PIN length. There may not be too many of them.
pub fn _set_min_pin_length_rp_ids(rp_ids: Vec<String>) -> (replace: Result<
    ReplaceValue,
    Ctap2StatusCode,
>)
    ensures
        ({
            let all = merged(texts(rp_ids@), default_rp_ids());
            if all.len() > _MAX_RP_IDS_LENGTH {
                replace == Err::<ReplaceValue, _>(Ctap2StatusCode::CTAP2_ERR_KEY_STORE_FULL)
            } else {
                &&& replace is Ok
                &&& replace->Ok_0@ == (ReplaceView::Checking {
                    target: TargetView {
                        dict: Dict::Config,
                        key: key::_MIN_PIN_LENGTH_RP_IDS@,
                        hint: _MAX_RP_IDS_LENGTH,
                        data: rp_ids_bytes(all),
                    },
                })
                &&& stored_rp_ids(rp_ids_bytes(all)) == Some(all)
            }
        }),
{
    let all = merge_rp_ids(rp_ids, _default_min_pin_length_rp_ids());
    assert(texts(all@).len() == all@.len());
    if all.len() > _MAX_RP_IDS_LENGTH {
        return Err(Ctap2StatusCode::CTAP2_ERR_KEY_STORE_FULL);
    }
    match _serialize_min_pin_length_rp_ids(all) {
        Ok(data) => Ok(
            ReplaceValue::new(Dict::Config, key::_MIN_PIN_LENGTH_RP_IDS, _MAX_RP_IDS_LENGTH, data),
        ),
        Err(code) => Err(code),
    }
}

/// The result of setting the RP IDs, and what the database holds then.
pub open spec fn rp_ids_set(db: Contents, rp_ids: Seq<Seq<char>>) -> (
    Result<(), Ctap2StatusCode>,
    Contents,
) {
    let all = merged(rp_ids, default_rp_ids());
    if all.len() > _MAX_RP_IDS_LENGTH {
        (Err(Ctap2StatusCode::CTAP2_ERR_KEY_STORE_FULL), db)
    } else {
        replaced(db, Dict::Config, key::_MIN_PIN_LENGTH_RP_IDS@, rp_ids_bytes(all))
    }
}

} // verus!
